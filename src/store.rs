use vstd::prelude::*;
use crate::entity::{Comment, ID, IndexError, Package, PackageRow, Peer, Registry, ReviewRow};

verus! {

/// One trust store: its tables, and the next surrogate id to hand out.
pub struct Store {
    pub registries: Vec<Registry>,
    pub packages: Vec<PackageRow>,
    pub peers: Vec<Peer>,
    pub comments: Vec<Comment>,
    pub reviews: Vec<ReviewRow>,
    pub root_id: ID,
    pub next_id: ID,
}

/// The registry with the given id, if any.
pub open spec fn registry_by_id(regs: Seq<Registry>, id: ID) -> Option<Registry> {
    if exists|i: int| 0 <= i < regs.len() && regs[i].id == id {
        Some(regs[choose|i: int| 0 <= i < regs.len() && regs[i].id == id])
    } else {
        None
    }
}

/// The peer with the given id, if any.
pub open spec fn peer_by_id(peers: Seq<Peer>, id: ID) -> Option<Peer> {
    if exists|i: int| 0 <= i < peers.len() && peers[i].id == id {
        Some(peers[choose|i: int| 0 <= i < peers.len() && peers[i].id == id])
    } else {
        None
    }
}

/// The package row with the given id, if any.
pub open spec fn package_row_by_id(rows: Seq<PackageRow>, id: ID) -> Option<PackageRow> {
    if exists|i: int| 0 <= i < rows.len() && rows[i].id == id {
        Some(rows[choose|i: int| 0 <= i < rows.len() && rows[i].id == id])
    } else {
        None
    }
}

/// The package with the given id, with its registry resolved; `None` where
/// the row or its registry is missing.
pub open spec fn package_by_id(s: Store, id: ID) -> Option<Package> {
    match package_row_by_id(s.packages@, id) {
        Some(row) => match registry_by_id(s.registries@, row.registry_id) {
            Some(reg) => Some(
                Package {
                    id: row.id,
                    name: row.name,
                    version: row.version,
                    registry: reg,
                    registry_human_url: row.registry_human_url,
                    source_code_url: row.source_code_url,
                    source_code_hash: row.source_code_hash,
                },
            ),
            None => None,
        },
        None => None,
    }
}

/// The package's natural key: (registry host, name, version).
pub open spec fn package_key(p: Package) -> (Seq<char>, Seq<char>, Seq<char>) {
    (p.registry.host_name@, p.name@, p.version@)
}

/// Some package of the store has the given natural key.
pub open spec fn has_package_key(s: Store, key: (Seq<char>, Seq<char>, Seq<char>)) -> bool {
    exists|id: ID| #[trigger] package_by_id(s, id) is Some && package_key(package_by_id(s, id)->0) == key
}

impl Store {
    /// Ids are below the counter and increase along each table, so a table
    /// lists its rows in id order; each natural key is unique in its table.
    pub open spec fn wf(&self) -> bool {
        &&& forall|i: int| 0 <= i < self.registries@.len() ==> self.registries@[i].id < self.next_id
        &&& forall|i: int| 0 <= i < self.packages@.len() ==> self.packages@[i].id < self.next_id
            && self.packages@[i].registry_id < self.next_id
        &&& forall|i: int| 0 <= i < self.peers@.len() ==> self.peers@[i].id < self.next_id
        &&& forall|i: int| 0 <= i < self.comments@.len() ==> self.comments@[i].id < self.next_id
        &&& forall|i: int| 0 <= i < self.reviews@.len() ==> self.reviews@[i].id < self.next_id
        &&& forall|i: int, j: int|
            0 <= i < j < self.comments@.len() ==> self.comments@[i].id < self.comments@[j].id
        &&& forall|i: int, j: int|
            0 <= i < j < self.registries@.len() ==> self.registries@[i].id < self.registries@[j].id
                && self.registries@[i].host_name@ != self.registries@[j].host_name@
        &&& forall|i: int, j: int|
            0 <= i < j < self.packages@.len() ==> self.packages@[i].id < self.packages@[j].id
                && (self.packages@[i].registry_id, self.packages@[i].name@, self.packages@[i].version@)
                != (self.packages@[j].registry_id, self.packages@[j].name@, self.packages@[j].version@)
        &&& forall|i: int, j: int|
            0 <= i < j < self.peers@.len() ==> self.peers@[i].id < self.peers@[j].id
                && self.peers@[i].git_url@ != self.peers@[j].git_url@
        &&& forall|i: int, j: int|
            0 <= i < j < self.reviews@.len() ==> self.reviews@[i].id < self.reviews@[j].id
                && (self.reviews@[i].peer_id, self.reviews@[i].package_id)
                != (self.reviews@[j].peer_id, self.reviews@[j].package_id)
    }

    /// A fresh store holding only the root peer (the local operator).
    pub fn new(root_alias: &str, root_git_url: &str) -> (s: Store)
        ensures
            s.wf(),
            s.peers@.len() == 1,
            s.peers@[0].id == s.root_id,
            s.peers@[0].alias@ == root_alias@,
            s.peers@[0].git_url@ == root_git_url@,
            s.registries@.len() == 0,
            s.packages@.len() == 0,
            s.comments@.len() == 0,
            s.reviews@.len() == 0,
    {
        let root = Peer { id: 0, alias: root_alias.to_owned(), git_url: root_git_url.to_owned() };
        let mut peers: Vec<Peer> = Vec::new();
        peers.push(root);
        Store {
            registries: Vec::new(),
            packages: Vec::new(),
            peers,
            comments: Vec::new(),
            reviews: Vec::new(),
            root_id: 0,
            next_id: 1,
        }
    }

    /// Hands out the next surrogate id.
    pub(crate) fn take_id(&mut self) -> (r: Result<ID, IndexError>)
        ensures
            old(self).next_id < u64::MAX ==> r == Ok::<ID, IndexError>(old(self).next_id)
                && final(self).next_id == old(self).next_id + 1,
            old(self).next_id == u64::MAX ==> r == Err::<ID, IndexError>(IndexError::IdsExhausted)
                && final(self).next_id == old(self).next_id,
            final(self).registries == old(self).registries,
            final(self).packages == old(self).packages,
            final(self).peers == old(self).peers,
            final(self).comments == old(self).comments,
            final(self).reviews == old(self).reviews,
            final(self).root_id == old(self).root_id,
    {
        if self.next_id == u64::MAX {
            return Err(IndexError::IdsExhausted);
        }
        let id = self.next_id;
        self.next_id = self.next_id + 1;
        Ok(id)
    }

    /// Position of the peer with the given id.
    pub fn peer_index_by_id(&self, id: ID) -> (r: Option<usize>)
        requires
            self.wf(),
        ensures
            r matches Some(i) ==> i < self.peers@.len() && self.peers@[i as int].id == id
                && peer_by_id(self.peers@, id) == Some(self.peers@[i as int]),
            r is None ==> peer_by_id(self.peers@, id) is None,
    {
        let mut i: usize = 0;
        while i < self.peers.len()
            invariant
                self.wf(),
                i <= self.peers@.len(),
                forall|j: int| 0 <= j < i ==> self.peers@[j].id != id,
            decreases self.peers@.len() - i,
        {
            if self.peers[i].id == id {
                proof {
                    assert(0 <= i < self.peers@.len() && self.peers@[i as int].id == id);
                    let k = choose|k: int| 0 <= k < self.peers@.len() && self.peers@[k].id == id;
                    assert(k == i as int);
                }
                return Some(i);
            }
            i += 1;
        }
        None
    }

    /// Position of the peer with the given transport URL.
    pub fn peer_index_by_git_url(&self, git_url: &str) -> (r: Option<usize>)
        ensures
            r matches Some(i) ==> i < self.peers@.len() && self.peers@[i as int].git_url@ == git_url@,
            r is None ==> forall|j: int| 0 <= j < self.peers@.len() ==> self.peers@[j].git_url@ != git_url@,
    {
        let mut i: usize = 0;
        while i < self.peers.len()
            invariant
                i <= self.peers@.len(),
                forall|j: int| 0 <= j < i ==> self.peers@[j].git_url@ != git_url@,
            decreases self.peers@.len() - i,
        {
            if str_eq(self.peers[i].git_url.as_str(), git_url) {
                return Some(i);
            }
            i += 1;
        }
        None
    }

    /// Position of the registry with the given id.
    pub fn registry_index_by_id(&self, id: ID) -> (r: Option<usize>)
        requires
            self.wf(),
        ensures
            r matches Some(i) ==> i < self.registries@.len() && self.registries@[i as int].id == id
                && registry_by_id(self.registries@, id) == Some(self.registries@[i as int]),
            r is None ==> registry_by_id(self.registries@, id) is None,
    {
        let mut i: usize = 0;
        while i < self.registries.len()
            invariant
                self.wf(),
                i <= self.registries@.len(),
                forall|j: int| 0 <= j < i ==> self.registries@[j].id != id,
            decreases self.registries@.len() - i,
        {
            if self.registries[i].id == id {
                proof {
                    assert(0 <= i < self.registries@.len() && self.registries@[i as int].id == id);
                    let k = choose|k: int| 0 <= k < self.registries@.len() && self.registries@[k].id == id;
                    assert(k == i as int);
                }
                return Some(i);
            }
            i += 1;
        }
        None
    }

    /// Position of the registry with the given host name.
    pub fn registry_index_by_host(&self, host_name: &str) -> (r: Option<usize>)
        ensures
            r matches Some(i) ==> i < self.registries@.len()
                && self.registries@[i as int].host_name@ == host_name@,
            r is None ==> forall|j: int|
                0 <= j < self.registries@.len() ==> self.registries@[j].host_name@ != host_name@,
    {
        let mut i: usize = 0;
        while i < self.registries.len()
            invariant
                i <= self.registries@.len(),
                forall|j: int| 0 <= j < i ==> self.registries@[j].host_name@ != host_name@,
            decreases self.registries@.len() - i,
        {
            if str_eq(self.registries[i].host_name.as_str(), host_name) {
                return Some(i);
            }
            i += 1;
        }
        None
    }

    /// Position of the package row with the given id.
    pub fn package_index_by_id(&self, id: ID) -> (r: Option<usize>)
        requires
            self.wf(),
        ensures
            r matches Some(i) ==> i < self.packages@.len() && self.packages@[i as int].id == id
                && package_row_by_id(self.packages@, id) == Some(self.packages@[i as int]),
            r is None ==> package_row_by_id(self.packages@, id) is None,
    {
        let mut i: usize = 0;
        while i < self.packages.len()
            invariant
                self.wf(),
                i <= self.packages@.len(),
                forall|j: int| 0 <= j < i ==> self.packages@[j].id != id,
            decreases self.packages@.len() - i,
        {
            if self.packages[i].id == id {
                proof {
                    assert(0 <= i < self.packages@.len() && self.packages@[i as int].id == id);
                    let k = choose|k: int| 0 <= k < self.packages@.len() && self.packages@[k].id == id;
                    assert(k == i as int);
                }
                return Some(i);
            }
            i += 1;
        }
        None
    }

    /// Position of the package row with the given registry, name and version.
    pub fn package_index_by_key(&self, registry_id: ID, name: &str, version: &str) -> (r: Option<usize>)
        ensures
            r matches Some(i) ==> i < self.packages@.len()
                && self.packages@[i as int].registry_id == registry_id
                && self.packages@[i as int].name@ == name@
                && self.packages@[i as int].version@ == version@,
            r is None ==> forall|j: int| 0 <= j < self.packages@.len() ==>
                !(self.packages@[j].registry_id == registry_id && self.packages@[j].name@ == name@
                    && self.packages@[j].version@ == version@),
    {
        let mut i: usize = 0;
        while i < self.packages.len()
            invariant
                i <= self.packages@.len(),
                forall|j: int| 0 <= j < i ==>
                    !(self.packages@[j].registry_id == registry_id && self.packages@[j].name@ == name@
                        && self.packages@[j].version@ == version@),
            decreases self.packages@.len() - i,
        {
            let p = &self.packages[i];
            if p.registry_id == registry_id && str_eq(p.name.as_str(), name) && str_eq(p.version.as_str(), version) {
                return Some(i);
            }
            i += 1;
        }
        None
    }

    /// Inserts a registry; fails with `ConstraintViolation` where its host
    /// name is taken.
    pub fn insert_registry(&mut self, host_name: &str) -> (r: Result<Registry, IndexError>)
        requires
            old(self).wf(),
        ensures
            final(self).wf(),
            (exists|j: int| 0 <= j < old(self).registries@.len()
                && old(self).registries@[j].host_name@ == host_name@)
                ==> r == Err::<Registry, IndexError>(IndexError::ConstraintViolation),
            r matches Ok(reg) ==> reg.id == old(self).next_id && reg.host_name@ == host_name@
                && final(self).registries@ == old(self).registries@.push(reg)
                && final(self).next_id == old(self).next_id + 1,
            r is Err ==> final(self).registries@ == old(self).registries@,
            old(self).next_id < u64::MAX && (forall|j: int| 0 <= j < old(self).registries@.len()
                ==> old(self).registries@[j].host_name@ != host_name@) ==> r is Ok,
            r matches Err(e) ==> e == IndexError::ConstraintViolation || e == IndexError::IdsExhausted,
            final(self).packages == old(self).packages,
            final(self).peers == old(self).peers,
            final(self).comments == old(self).comments,
            final(self).reviews == old(self).reviews,
            final(self).root_id == old(self).root_id,
            final(self).next_id >= old(self).next_id,
    {
        if self.registry_index_by_host(host_name).is_some() {
            return Err(IndexError::ConstraintViolation);
        }
        let id = self.take_id()?;
        let reg = Registry { id, host_name: host_name.to_owned() };
        self.registries.push(reg.clone());
        Ok(reg)
    }

    /// Inserts a package version under the registry with the given host name,
    /// creating that registry where it is missing; fails with
    /// `ConstraintViolation` where (registry, name, version) is taken.
    pub fn insert_package(
        &mut self,
        name: &str,
        version: &str,
        registry_human_url: &str,
        source_code_url: &str,
        source_code_hash: &str,
        registry_host_name: &str,
    ) -> (r: Result<Package, IndexError>)
        requires
            old(self).wf(),
        ensures
            final(self).wf(),
            (exists|j: int, k: int| 0 <= j < old(self).registries@.len() && 0 <= k < old(self).packages@.len()
                && old(self).registries@[j].host_name@ == registry_host_name@
                && old(self).packages@[k].registry_id == old(self).registries@[j].id
                && old(self).packages@[k].name@ == name@ && old(self).packages@[k].version@ == version@)
                ==> r == Err::<Package, IndexError>(IndexError::ConstraintViolation),
            r matches Ok(p) ==> p.name@ == name@ && p.version@ == version@
                && p.registry.host_name@ == registry_host_name@
                && p.registry_human_url@ == registry_human_url@
                && p.source_code_url@ == source_code_url@
                && p.source_code_hash@ == source_code_hash@
                && package_by_id(*final(self), p.id) == Some(p)
                && final(self).packages@.len() == old(self).packages@.len() + 1,
            r matches Err(e) ==> e == IndexError::ConstraintViolation || e == IndexError::IdsExhausted,
            old(self).next_id < u64::MAX - 1 && !(exists|j: int, k: int| 0 <= j < old(self).registries@.len()
                && 0 <= k < old(self).packages@.len()
                && old(self).registries@[j].host_name@ == registry_host_name@
                && old(self).packages@[k].registry_id == old(self).registries@[j].id
                && old(self).packages@[k].name@ == name@ && old(self).packages@[k].version@ == version@)
                ==> r is Ok,
            forall|k: int| 0 <= k < old(self).packages@.len() ==> final(self).packages@[k] == old(self).packages@[k],
            final(self).packages@.len() >= old(self).packages@.len(),
            forall|k: int| 0 <= k < old(self).registries@.len() ==> final(self).registries@[k] == old(self).registries@[k],
            final(self).registries@.len() >= old(self).registries@.len(),
            final(self).peers == old(self).peers,
            final(self).comments == old(self).comments,
            final(self).reviews == old(self).reviews,
            final(self).root_id == old(self).root_id,
    {
        let ghost ri: int;
        let registry = match self.registry_index_by_host(registry_host_name) {
            Some(i) => {
                let reg = self.registries[i].clone();
                proof {
                    ri = i as int;
                    assert forall|j: int| 0 <= j < self.registries@.len() && self.registries@[j].host_name@
                        == registry_host_name@ implies j == i as int by {}
                }
                if self.package_index_by_key(reg.id, name, version).is_some() {
                    return Err(IndexError::ConstraintViolation);
                }
                reg
            },
            None => {
                let reg = self.insert_registry(registry_host_name)?;
                proof {
                    ri = self.registries@.len() - 1;
                }
                reg
            },
        };
        assert(registry_by_id(self.registries@, registry.id) == Some(registry)) by {
            assert(0 <= ri < self.registries@.len() && self.registries@[ri] == registry);
            let k = choose|k: int| 0 <= k < self.registries@.len() && self.registries@[k].id == registry.id;
            assert(k == ri);
        }
        let id = self.take_id()?;
        let row = PackageRow {
            id,
            name: name.to_owned(),
            version: version.to_owned(),
            registry_id: registry.id,
            registry_human_url: registry_human_url.to_owned(),
            source_code_url: source_code_url.to_owned(),
            source_code_hash: source_code_hash.to_owned(),
        };
        let package = Package {
            id,
            name: row.name.clone(),
            version: row.version.clone(),
            registry,
            registry_human_url: row.registry_human_url.clone(),
            source_code_url: row.source_code_url.clone(),
            source_code_hash: row.source_code_hash.clone(),
        };
        self.packages.push(row);
        proof {
            let n = self.packages@.len() - 1;
            assert(self.packages@[n].id == id);
            let k = choose|k: int| 0 <= k < self.packages@.len() && self.packages@[k].id == id;
            assert(k == n);
        }
        Ok(package)
    }

    /// Inserts a peer; fails with `ConstraintViolation` where its transport
    /// URL is taken.
    pub fn insert_peer(&mut self, alias: &str, git_url: &str) -> (r: Result<Peer, IndexError>)
        requires
            old(self).wf(),
        ensures
            final(self).wf(),
            (exists|j: int| 0 <= j < old(self).peers@.len() && old(self).peers@[j].git_url@ == git_url@)
                ==> r == Err::<Peer, IndexError>(IndexError::ConstraintViolation),
            old(self).next_id < u64::MAX && (forall|j: int| 0 <= j < old(self).peers@.len()
                ==> old(self).peers@[j].git_url@ != git_url@) ==> r is Ok,
            r matches Err(e) ==> e == IndexError::ConstraintViolation || e == IndexError::IdsExhausted,
            r matches Ok(p) ==> p.id == old(self).next_id && p.alias@ == alias@ && p.git_url@ == git_url@
                && final(self).peers@ == old(self).peers@.push(p),
            r is Err ==> final(self).peers@ == old(self).peers@,
            final(self).registries == old(self).registries,
            final(self).packages == old(self).packages,
            final(self).comments == old(self).comments,
            final(self).reviews == old(self).reviews,
            final(self).root_id == old(self).root_id,
    {
        if self.peer_index_by_git_url(git_url).is_some() {
            return Err(IndexError::ConstraintViolation);
        }
        let id = self.take_id()?;
        let peer = Peer { id, alias: alias.to_owned(), git_url: git_url.to_owned() };
        self.peers.push(peer.clone());
        Ok(peer)
    }

    /// Inserts a comment under a fresh id.
    pub fn insert_comment(&mut self, summary: &str, message: &str) -> (r: Result<Comment, IndexError>)
        requires
            old(self).wf(),
        ensures
            final(self).wf(),
            old(self).next_id < u64::MAX <==> r is Ok,
            r matches Err(e) ==> e == IndexError::IdsExhausted,
            r matches Ok(c) ==> c.id == old(self).next_id && c.summary@ == summary@ && c.message@ == message@
                && final(self).comments@ == old(self).comments@.push(c)
                && final(self).next_id == old(self).next_id + 1,
            r is Err ==> final(self).comments@ == old(self).comments@,
            final(self).registries == old(self).registries,
            final(self).packages == old(self).packages,
            final(self).peers == old(self).peers,
            final(self).reviews == old(self).reviews,
            final(self).root_id == old(self).root_id,
            final(self).next_id >= old(self).next_id,
    {
        let id = self.take_id()?;
        let comment = Comment { id, summary: summary.to_owned(), message: message.to_owned() };
        self.comments.push(comment.clone());
        Ok(comment)
    }

    /// The root peer (the local operator), if it is present.
    pub fn get_root(&self) -> (r: Option<Peer>)
        requires
            self.wf(),
        ensures
            r == peer_by_id(self.peers@, self.root_id),
    {
        match self.peer_index_by_id(self.root_id) {
            Some(i) => Some(self.peers[i].clone()),
            None => None,
        }
    }

    /// The package with the given id, with its registry resolved.
    pub fn get_package(&self, id: ID) -> (r: Option<Package>)
        requires
            self.wf(),
        ensures
            r == package_by_id(*self, id),
    {
        let i = self.package_index_by_id(id)?;
        let row = &self.packages[i];
        let j = self.registry_index_by_id(row.registry_id)?;
        Some(Package {
            id: row.id,
            name: row.name.clone(),
            version: row.version.clone(),
            registry: self.registries[j].clone(),
            registry_human_url: row.registry_human_url.clone(),
            source_code_url: row.source_code_url.clone(),
            source_code_hash: row.source_code_hash.clone(),
        })
    }

    /// The package with the given natural key (registry host, name, version).
    pub fn find_package(&self, registry_host_name: &str, name: &str, version: &str) -> (r: Option<Package>)
        requires
            self.wf(),
        ensures
            r matches Some(p) ==> package_by_id(*self, p.id) == Some(p)
                && package_key(p) == (registry_host_name@, name@, version@),
            r is None ==> !has_package_key(*self, (registry_host_name@, name@, version@)),
    {
        let j = match self.registry_index_by_host(registry_host_name) {
            Some(j) => j,
            None => {
                proof {
                    if has_package_key(*self, (registry_host_name@, name@, version@)) {
                        let id = choose|id: ID| #[trigger] package_by_id(*self, id) is Some
                            && package_key(package_by_id(*self, id)->0) == (registry_host_name@, name@, version@);
                        let row = package_row_by_id(self.packages@, id)->0;
                        let k = choose|k: int| 0 <= k < self.registries@.len()
                            && self.registries@[k].id == row.registry_id;
                        assert(self.registries@[k].host_name@ == registry_host_name@);
                    }
                }
                return None;
            },
        };
        let reg_id = self.registries[j].id;
        let i = match self.package_index_by_key(reg_id, name, version) {
            Some(i) => i,
            None => {
                proof {
                    if has_package_key(*self, (registry_host_name@, name@, version@)) {
                        let id = choose|id: ID| #[trigger] package_by_id(*self, id) is Some
                            && package_key(package_by_id(*self, id)->0) == (registry_host_name@, name@, version@);
                        let row = package_row_by_id(self.packages@, id)->0;
                        let k = choose|k: int| 0 <= k < self.registries@.len()
                            && self.registries@[k].id == row.registry_id;
                        let m = choose|m: int| 0 <= m < self.packages@.len() && self.packages@[m].id == id;
                        assert(self.registries@[k].host_name@ == registry_host_name@);
                        assert(k == j as int);
                        assert(self.packages@[m].registry_id == reg_id);
                    }
                }
                return None;
            },
        };
        let id = self.packages[i].id;
        self.get_package(id)
    }
}

impl Store {
    /// Whether the store is well formed; a store read from outside is
    /// checked with this before use.
    pub fn is_wf(&self) -> (r: bool)
        ensures
            r == self.wf(),
    {
        self.registries_wf() && self.packages_wf() && self.peers_wf() && self.comments_wf() && self.reviews_wf()
    }

    fn registries_wf(&self) -> (r: bool)
        ensures
            r == ((forall|i: int| 0 <= i < self.registries@.len() ==> self.registries@[i].id < self.next_id)
                && (forall|i: int, j: int| 0 <= i < j < self.registries@.len() ==> self.registries@[i].id
                    < self.registries@[j].id && self.registries@[i].host_name@ != self.registries@[j].host_name@)),
    {
        let n = self.registries.len();
        let mut i: usize = 0;
        while i < n
            invariant
                n == self.registries@.len(),
                i <= n,
                forall|a: int| 0 <= a < i ==> self.registries@[a].id < self.next_id,
                forall|a: int, b: int| 0 <= a < i && a < b < n ==> self.registries@[a].id < self.registries@[b].id
                    && self.registries@[a].host_name@ != self.registries@[b].host_name@,
            decreases n - i,
        {
            if self.registries[i].id >= self.next_id {
                return false;
            }
            let mut j: usize = i + 1;
            while j < n
                invariant
                    n == self.registries@.len(),
                    i < j <= n,
                    forall|b: int| i < b < j ==> self.registries@[i as int].id < self.registries@[b].id
                        && self.registries@[i as int].host_name@ != self.registries@[b].host_name@,
                decreases n - j,
            {
                if self.registries[i].id >= self.registries[j].id
                    || str_eq(self.registries[i].host_name.as_str(), self.registries[j].host_name.as_str()) {
                    return false;
                }
                j += 1;
            }
            i += 1;
        }
        true
    }

    fn packages_wf(&self) -> (r: bool)
        ensures
            r == ((forall|i: int| 0 <= i < self.packages@.len() ==> self.packages@[i].id < self.next_id
                && self.packages@[i].registry_id < self.next_id) && (forall|i: int, j: int|
                0 <= i < j < self.packages@.len() ==> self.packages@[i].id < self.packages@[j].id
                    && (self.packages@[i].registry_id, self.packages@[i].name@, self.packages@[i].version@)
                    != (self.packages@[j].registry_id, self.packages@[j].name@, self.packages@[j].version@))),
    {
        let n = self.packages.len();
        let mut i: usize = 0;
        while i < n
            invariant
                n == self.packages@.len(),
                i <= n,
                forall|a: int| 0 <= a < i ==> self.packages@[a].id < self.next_id
                    && self.packages@[a].registry_id < self.next_id,
                forall|a: int, b: int| 0 <= a < i && a < b < n ==> self.packages@[a].id < self.packages@[b].id
                    && (self.packages@[a].registry_id, self.packages@[a].name@, self.packages@[a].version@)
                    != (self.packages@[b].registry_id, self.packages@[b].name@, self.packages@[b].version@),
            decreases n - i,
        {
            if self.packages[i].id >= self.next_id || self.packages[i].registry_id >= self.next_id {
                return false;
            }
            let mut j: usize = i + 1;
            while j < n
                invariant
                    n == self.packages@.len(),
                    i < j <= n,
                    forall|b: int| i < b < j ==> self.packages@[i as int].id < self.packages@[b].id
                        && (self.packages@[i as int].registry_id, self.packages@[i as int].name@,
                        self.packages@[i as int].version@)
                        != (self.packages@[b].registry_id, self.packages@[b].name@, self.packages@[b].version@),
                decreases n - j,
            {
                let p = &self.packages[i];
                let q = &self.packages[j];
                if p.id >= q.id || (p.registry_id == q.registry_id && str_eq(p.name.as_str(), q.name.as_str())
                    && str_eq(p.version.as_str(), q.version.as_str())) {
                    return false;
                }
                j += 1;
            }
            i += 1;
        }
        true
    }

    fn peers_wf(&self) -> (r: bool)
        ensures
            r == ((forall|i: int| 0 <= i < self.peers@.len() ==> self.peers@[i].id < self.next_id)
                && (forall|i: int, j: int| 0 <= i < j < self.peers@.len() ==> self.peers@[i].id
                    < self.peers@[j].id && self.peers@[i].git_url@ != self.peers@[j].git_url@)),
    {
        let n = self.peers.len();
        let mut i: usize = 0;
        while i < n
            invariant
                n == self.peers@.len(),
                i <= n,
                forall|a: int| 0 <= a < i ==> self.peers@[a].id < self.next_id,
                forall|a: int, b: int| 0 <= a < i && a < b < n ==> self.peers@[a].id < self.peers@[b].id
                    && self.peers@[a].git_url@ != self.peers@[b].git_url@,
            decreases n - i,
        {
            if self.peers[i].id >= self.next_id {
                return false;
            }
            let mut j: usize = i + 1;
            while j < n
                invariant
                    n == self.peers@.len(),
                    i < j <= n,
                    forall|b: int| i < b < j ==> self.peers@[i as int].id < self.peers@[b].id
                        && self.peers@[i as int].git_url@ != self.peers@[b].git_url@,
                decreases n - j,
            {
                if self.peers[i].id >= self.peers[j].id
                    || str_eq(self.peers[i].git_url.as_str(), self.peers[j].git_url.as_str()) {
                    return false;
                }
                j += 1;
            }
            i += 1;
        }
        true
    }

    fn comments_wf(&self) -> (r: bool)
        ensures
            r == ((forall|i: int| 0 <= i < self.comments@.len() ==> self.comments@[i].id < self.next_id)
                && (forall|i: int, j: int| 0 <= i < j < self.comments@.len() ==> self.comments@[i].id
                    < self.comments@[j].id)),
    {
        let n = self.comments.len();
        let mut i: usize = 0;
        while i < n
            invariant
                n == self.comments@.len(),
                i <= n,
                forall|a: int| 0 <= a < i ==> self.comments@[a].id < self.next_id,
                forall|a: int, b: int| 0 <= a < i && a < b < n ==> self.comments@[a].id < self.comments@[b].id,
            decreases n - i,
        {
            if self.comments[i].id >= self.next_id {
                return false;
            }
            let mut j: usize = i + 1;
            while j < n
                invariant
                    n == self.comments@.len(),
                    i < j <= n,
                    forall|b: int| i < b < j ==> self.comments@[i as int].id < self.comments@[b].id,
                decreases n - j,
            {
                if self.comments[i].id >= self.comments[j].id {
                    return false;
                }
                j += 1;
            }
            i += 1;
        }
        true
    }

    fn reviews_wf(&self) -> (r: bool)
        ensures
            r == ((forall|i: int| 0 <= i < self.reviews@.len() ==> self.reviews@[i].id < self.next_id)
                && (forall|i: int, j: int| 0 <= i < j < self.reviews@.len() ==> self.reviews@[i].id
                    < self.reviews@[j].id && (self.reviews@[i].peer_id, self.reviews@[i].package_id)
                    != (self.reviews@[j].peer_id, self.reviews@[j].package_id))),
    {
        let n = self.reviews.len();
        let mut i: usize = 0;
        while i < n
            invariant
                n == self.reviews@.len(),
                i <= n,
                forall|a: int| 0 <= a < i ==> self.reviews@[a].id < self.next_id,
                forall|a: int, b: int| 0 <= a < i && a < b < n ==> self.reviews@[a].id < self.reviews@[b].id
                    && (self.reviews@[a].peer_id, self.reviews@[a].package_id)
                    != (self.reviews@[b].peer_id, self.reviews@[b].package_id),
            decreases n - i,
        {
            if self.reviews[i].id >= self.next_id {
                return false;
            }
            let mut j: usize = i + 1;
            while j < n
                invariant
                    n == self.reviews@.len(),
                    i < j <= n,
                    forall|b: int| i < b < j ==> self.reviews@[i as int].id < self.reviews@[b].id
                        && (self.reviews@[i as int].peer_id, self.reviews@[i as int].package_id)
                        != (self.reviews@[b].peer_id, self.reviews@[b].package_id),
                decreases n - j,
            {
                let p = &self.reviews[i];
                let q = &self.reviews[j];
                if p.id >= q.id || (p.peer_id == q.peer_id && p.package_id == q.package_id) {
                    return false;
                }
                j += 1;
            }
            i += 1;
        }
        true
    }
}

/// A scoped unit of work on a store: changes go to `working`; `commit`
/// keeps them and `rollback` returns the store as it was at `begin`.
pub struct StoreTransaction {
    pub snapshot: Store,
    pub working: Store,
}

/// Two stores hold the same rows.
pub open spec fn same_rows(a: Store, b: Store) -> bool {
    &&& a.registries@ == b.registries@
    &&& a.packages@ == b.packages@
    &&& a.peers@ == b.peers@
    &&& a.comments@ == b.comments@
    &&& a.reviews@.map_values(|x: ReviewRow| x@) == b.reviews@.map_values(|x: ReviewRow| x@)
    &&& a.root_id == b.root_id
    &&& a.next_id == b.next_id
}

impl Store {
    /// A copy of the store's rows.
    pub fn duplicate(&self) -> (r: Store)
        requires
            self.wf(),
        ensures
            r.wf(),
            same_rows(r, *self),
    {
        let registries = self.registries.clone();
        let packages = self.packages.clone();
        let peers = self.peers.clone();
        let comments = self.comments.clone();
        let mut reviews: Vec<ReviewRow> = Vec::new();
        let mut i: usize = 0;
        while i < self.reviews.len()
            invariant
                i <= self.reviews@.len(),
                reviews@.len() == i,
                forall|k: int| 0 <= k < i ==> #[trigger] reviews@[k]@ == self.reviews@[k]@,
            decreases self.reviews@.len() - i,
        {
            reviews.push(self.reviews[i].clone());
            i += 1;
        }
        assert(registries@ =~= self.registries@);
        assert(packages@ =~= self.packages@);
        assert(peers@ =~= self.peers@);
        assert(comments@ =~= self.comments@);
        assert(reviews@.map_values(|x: ReviewRow| x@) =~= self.reviews@.map_values(|x: ReviewRow| x@));
        assert forall|k: int| 0 <= k < reviews@.len() implies reviews@[k].id == self.reviews@[k].id
            && reviews@[k].peer_id == self.reviews@[k].peer_id
            && reviews@[k].package_id == self.reviews@[k].package_id by {
            assert(reviews@[k]@ == self.reviews@[k]@);
        }
        Store { registries, packages, peers, comments, reviews, root_id: self.root_id, next_id: self.next_id }
    }
}

impl StoreTransaction {
    /// Opens a transaction on the store.
    pub fn begin(store: Store) -> (r: StoreTransaction)
        requires
            store.wf(),
        ensures
            r.snapshot == store,
            r.working.wf(),
            same_rows(r.working, store),
    {
        let working = store.duplicate();
        StoreTransaction { snapshot: store, working }
    }

    /// Ends the transaction keeping its changes.
    pub fn commit(self) -> (r: Store)
        ensures
            r == self.working,
    {
        self.working
    }

    /// Ends the transaction discarding its changes.
    pub fn rollback(self) -> (r: Store)
        ensures
            r == self.snapshot,
    {
        self.snapshot
    }
}

/// Character-wise string equality.
pub fn str_eq(a: &str, b: &str) -> (r: bool)
    ensures
        r == (a@ == b@),
{
    let n = a.unicode_len();
    if n != b.unicode_len() {
        return false;
    }
    let mut i: usize = 0;
    while i < n
        invariant
            n == a@.len(),
            n == b@.len(),
            i <= n,
            forall|j: int| 0 <= j < i ==> a@[j] == b@[j],
        decreases n - i,
    {
        if a.get_char(i) != b.get_char(i) {
            return false;
        }
        i += 1;
    }
    assert(a@ =~= b@);
    true
}

} // verus!

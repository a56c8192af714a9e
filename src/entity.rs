use vstd::prelude::*;

verus! {

/// Process-local surrogate identifier of a row.
pub type ID = u64;

/// Errors of the entity indexes and of merge.
#[derive(Debug, Clone, PartialEq, Eq)]
pub enum IndexError {
    /// A natural-key uniqueness constraint would be broken.
    ConstraintViolation,
    /// A referenced row (peer, package, registry or comment) does not exist.
    ReferenceViolation,
    /// The row to update does not exist.
    NotFound,
    /// During merge, no local peer has this transport URL.
    PeerNotFound { git_url: String },
    /// During merge, no local package has this (registry host, name, version).
    PackageNotFound { registry_host_name: String, name: String, version: String },
    /// A stored review refers to a peer or package that cannot be resolved.
    InvariantViolation,
    /// The surrogate id space is used up.
    IdsExhausted,
}

/// A package host.
#[derive(Debug, PartialEq, Eq, Hash, PartialOrd, Ord)]
pub struct Registry {
    pub id: ID,
    pub host_name: String,
}

/// A trust participant, identified across stores by its transport URL.
#[derive(Debug, PartialEq, Eq, Hash, PartialOrd, Ord)]
pub struct Peer {
    pub id: ID,
    pub alias: String,
    pub git_url: String,
}

/// Free text attached to a review.
#[derive(Debug, PartialEq, Eq, Hash, PartialOrd, Ord)]
pub struct Comment {
    pub id: ID,
    pub summary: String,
    pub message: String,
}

/// A stored package row: the registry is referenced by id.
#[derive(Debug, PartialEq, Eq, Hash, PartialOrd, Ord)]
pub struct PackageRow {
    pub id: ID,
    pub name: String,
    pub version: String,
    pub registry_id: ID,
    pub registry_human_url: String,
    pub source_code_url: String,
    pub source_code_hash: String,
}

/// A published version of a named package, with its registry resolved.
#[derive(Debug, PartialEq, Eq, Hash, PartialOrd, Ord)]
pub struct Package {
    pub id: ID,
    pub name: String,
    pub version: String,
    pub registry: Registry,
    pub registry_human_url: String,
    pub source_code_url: String,
    pub source_code_hash: String,
}

/// A stored review row: peer, package and comments are referenced by id.
#[derive(Debug, PartialEq, Eq, Hash, PartialOrd, Ord)]
pub struct ReviewRow {
    pub id: ID,
    pub peer_id: ID,
    pub package_id: ID,
    pub comment_ids: Vec<ID>,
}

/// The content of a stored review row.
pub struct ReviewRowView {
    pub id: ID,
    pub peer_id: ID,
    pub package_id: ID,
    pub comment_ids: Seq<ID>,
}

impl View for ReviewRow {
    type V = ReviewRowView;

    open spec fn view(&self) -> ReviewRowView {
        ReviewRowView {
            id: self.id,
            peer_id: self.peer_id,
            package_id: self.package_id,
            comment_ids: self.comment_ids@,
        }
    }
}

/// The content of a resolved review.
pub struct ReviewView {
    pub id: ID,
    pub peer: Peer,
    pub package: Package,
    pub comments: Seq<Comment>,
}

/// A peer's review of a package version, with its comments, fully resolved.
#[derive(Debug, PartialEq, Eq, Hash, PartialOrd, Ord)]
pub struct Review {
    pub id: ID,
    pub peer: Peer,
    pub package: Package,
    pub comments: Vec<Comment>,
}

impl View for Review {
    type V = ReviewView;

    open spec fn view(&self) -> ReviewView {
        ReviewView { id: self.id, peer: self.peer, package: self.package, comments: self.comments@ }
    }
}

impl Clone for Registry {
    fn clone(&self) -> (r: Self)
        ensures
            r == *self,
    {
        Registry { id: self.id, host_name: self.host_name.clone() }
    }
}

impl Clone for Peer {
    fn clone(&self) -> (r: Self)
        ensures
            r == *self,
    {
        Peer { id: self.id, alias: self.alias.clone(), git_url: self.git_url.clone() }
    }
}

impl Clone for Comment {
    fn clone(&self) -> (r: Self)
        ensures
            r == *self,
    {
        Comment { id: self.id, summary: self.summary.clone(), message: self.message.clone() }
    }
}

impl Clone for PackageRow {
    fn clone(&self) -> (r: Self)
        ensures
            r == *self,
    {
        PackageRow {
            id: self.id,
            name: self.name.clone(),
            version: self.version.clone(),
            registry_id: self.registry_id,
            registry_human_url: self.registry_human_url.clone(),
            source_code_url: self.source_code_url.clone(),
            source_code_hash: self.source_code_hash.clone(),
        }
    }
}

impl Clone for Package {
    fn clone(&self) -> (r: Self)
        ensures
            r == *self,
    {
        Package {
            id: self.id,
            name: self.name.clone(),
            version: self.version.clone(),
            registry: self.registry.clone(),
            registry_human_url: self.registry_human_url.clone(),
            source_code_url: self.source_code_url.clone(),
            source_code_hash: self.source_code_hash.clone(),
        }
    }
}

/// Copies a list of ids.
pub fn copy_ids(ids: &Vec<ID>) -> (r: Vec<ID>)
    ensures
        r@ == ids@,
{
    let mut r: Vec<ID> = Vec::new();
    let mut i: usize = 0;
    while i < ids.len()
        invariant
            i <= ids@.len(),
            r@ == ids@.subrange(0, i as int),
        decreases ids@.len() - i,
    {
        r.push(ids[i]);
        i += 1;
    }
    assert(r@ =~= ids@);
    r
}

/// Copies a list of comments.
pub fn copy_comments(cs: &Vec<Comment>) -> (r: Vec<Comment>)
    ensures
        r@ == cs@,
{
    let mut r: Vec<Comment> = Vec::new();
    let mut i: usize = 0;
    while i < cs.len()
        invariant
            i <= cs@.len(),
            r@ == cs@.subrange(0, i as int),
        decreases cs@.len() - i,
    {
        r.push(cs[i].clone());
        i += 1;
    }
    assert(r@ =~= cs@);
    r
}

impl Clone for ReviewRow {
    fn clone(&self) -> (r: Self)
        ensures
            r@ == self@,
    {
        ReviewRow {
            id: self.id,
            peer_id: self.peer_id,
            package_id: self.package_id,
            comment_ids: copy_ids(&self.comment_ids),
        }
    }
}

impl Clone for Review {
    fn clone(&self) -> (r: Self)
        ensures
            r@ == self@,
    {
        Review {
            id: self.id,
            peer: self.peer.clone(),
            package: self.package.clone(),
            comments: copy_comments(&self.comments),
        }
    }
}

} // verus!

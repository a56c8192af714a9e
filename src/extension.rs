use vstd::prelude::*;
use crate::store::str_eq;

verus! {

/// A dependency that a project's manifest declares.
#[derive(Debug, PartialEq, Eq, Hash, PartialOrd, Ord)]
pub struct LocalDependency {
    pub name: String,
    pub version: String,
}

impl Clone for LocalDependency {
    fn clone(&self) -> (r: Self)
        ensures
            r == *self,
    {
        LocalDependency { name: self.name.clone(), version: self.version.clone() }
    }
}

/// What the registry says of a package version, and whether the project uses it.
#[derive(Debug, Clone, PartialEq, Eq)]
pub struct RemotePackageMetadata {
    pub found_local_use: bool,
    pub registry_host_name: Option<String>,
    pub registry_package_url: Option<String>,
    pub registry_package_version_url: Option<String>,
    pub source_code_url: Option<String>,
    pub source_code_sha256: Option<String>,
}

/// Errors of the extension protocol.
#[derive(Debug, Clone, Copy, PartialEq, Eq, Structural)]
pub enum ExtensionError {
    /// The registry's answer cannot be read, or lacks the archive URL or digest.
    RegistryResponseInvalid,
    /// The package is registered, without the requested version.
    VersionNotFound,
    /// A display URL template could not be rendered.
    UrlTemplateInvalid,
}

/// The distribution record of one published version in a registry entry.
#[derive(Debug, Clone, PartialEq, Eq)]
pub struct VersionDist {
    pub version: String,
    /// `dist.tarball`, where it is a string.
    pub tarball: Option<String>,
    /// `dist.shasum`, where it is a string.
    pub shasum: Option<String>,
}

/// The registry's answer to a query for a package.
#[derive(Debug, Clone, PartialEq, Eq)]
pub enum RegistryResponse {
    /// The registry has no entry for the package name.
    Unregistered,
    /// The answer is not a well-formed entry.
    Malformed,
    /// The entry's versions, in the order the registry gave them.
    Entry(Vec<VersionDist>),
}

/// The capability that each package ecosystem implements: find the
/// project's declared dependencies, and resolve a package version to
/// registry metadata.
pub trait Extension {
    /// The dependencies of the manifest nearest to the working directory;
    /// `levels` lists, upward from it, what each directory's manifest declares.
    fn identify_local_dependencies(&self, levels: &Vec<Option<Vec<LocalDependency>>>) -> Vec<LocalDependency>;

    /// Registry metadata of a package version, from the registry's answer.
    fn remote_package_metadata(
        &self,
        package_name: &str,
        package_version: &str,
        present: &Vec<bool>,
        response: &RegistryResponse,
    ) -> Result<RemotePackageMetadata, ExtensionError>;
}

/// Manifest kinds that the extension recognises.
#[derive(Debug, Clone, Copy, PartialEq, Eq, Structural)]
pub enum DependancyFileType {
    Npm,
}

impl DependancyFileType {
    /// The file name of the manifest kind.
    pub fn file_name(&self) -> (r: String)
        ensures
            r@ == "package.json"@,
    {
        match self {
            DependancyFileType::Npm => "package.json".to_owned(),
        }
    }

}

/// The first directory level, counted upward from the working directory
/// (level 0), at which a manifest is present.
pub open spec fn first_present(present: Seq<bool>) -> Option<int> {
    if exists|i: int| 0 <= i < present.len() && present[i] {
        Some(choose|i: int| 0 <= i < present.len() && present[i] && forall|j: int| 0 <= j < i ==> !present[j])
    } else {
        None
    }
}

/// Walks upward from the working directory (`present[0]`) toward the root
/// (the last entry) and stops at the first level that holds a manifest;
/// `None` where no level does.
pub fn identify_dependancy_files(present: &Vec<bool>) -> (r: Option<usize>)
    ensures
        r matches Some(i) ==> i < present@.len() && present@[i as int]
            && forall|j: int| 0 <= j < i ==> !present@[j],
        r is None ==> forall|j: int| 0 <= j < present@.len() ==> !present@[j],
        r matches Some(i) ==> first_present(present@) == Some(i as int),
        r is None <==> first_present(present@) is None,
{
    let mut i: usize = 0;
    while i < present.len()
        invariant
            i <= present@.len(),
            forall|j: int| 0 <= j < i ==> !present@[j],
        decreases present@.len() - i,
    {
        if present[i] {
            proof {
                let k = choose|k: int| 0 <= k < present@.len() && present@[k] && forall|j: int| 0 <= j < k ==> !present@[j];
                if k < i {
                } else if k > i {
                    assert(!present@[i as int]);
                }
            }
            return Some(i);
        }
        i += 1;
    }
    None
}

/// The key by which dependencies are told apart.
pub open spec fn dep_key(d: LocalDependency) -> (Seq<char>, Seq<char>) {
    (d.name@, d.version@)
}

/// Some dependency of the list has the key.
pub open spec fn has_dep_key(ds: Seq<LocalDependency>, key: (Seq<char>, Seq<char>)) -> bool {
    exists|k: int| 0 <= k < ds.len() && dep_key(#[trigger] ds[k]) == key
}

/// No two dependencies of the list share a key.
pub open spec fn deps_distinct(ds: Seq<LocalDependency>) -> bool {
    forall|a: int, b: int| 0 <= a < b < ds.len() ==> dep_key(ds[a]) != dep_key(ds[b])
}

/// The dependencies of the list, each key once, in order of first appearance.
pub open spec fn first_occurrences(ds: Seq<LocalDependency>) -> Seq<LocalDependency>
    decreases ds.len(),
{
    if ds.len() == 0 {
        Seq::empty()
    } else {
        let rest = first_occurrences(ds.drop_last());
        if has_dep_key(rest, dep_key(ds.last())) {
            rest
        } else {
            rest.push(ds.last())
        }
    }
}

/// The list holds a dependency with the same key.
fn contains_dep(ds: &Vec<LocalDependency>, d: &LocalDependency) -> (r: bool)
    ensures
        r == has_dep_key(ds@, dep_key(*d)),
{
    let mut i: usize = 0;
    while i < ds.len()
        invariant
            i <= ds@.len(),
            forall|k: int| 0 <= k < i ==> dep_key(ds@[k]) != dep_key(*d),
        decreases ds@.len() - i,
    {
        if str_eq(ds[i].name.as_str(), d.name.as_str()) && str_eq(ds[i].version.as_str(), d.version.as_str()) {
            assert(dep_key(ds@[i as int]) == dep_key(*d));
            return true;
        }
        i += 1;
    }
    false
}

/// The dependencies of the list, each key once, in order of first appearance.
pub fn dedup_dependencies(ds: &Vec<LocalDependency>) -> (r: Vec<LocalDependency>)
    ensures
        r@ == first_occurrences(ds@),
        deps_distinct(r@),
        forall|key: (Seq<char>, Seq<char>)| has_dep_key(r@, key) <==> has_dep_key(ds@, key),
{
    let mut r: Vec<LocalDependency> = Vec::new();
    let mut i: usize = 0;
    while i < ds.len()
        invariant
            i <= ds@.len(),
            r@ == first_occurrences(ds@.subrange(0, i as int)),
            deps_distinct(r@),
            forall|key: (Seq<char>, Seq<char>)| has_dep_key(r@, key) <==> has_dep_key(ds@.subrange(0, i as int), key),
        decreases ds@.len() - i,
    {
        let d = &ds[i];
        let ghost prev = r@;
        assert(ds@.subrange(0, i + 1).drop_last() =~= ds@.subrange(0, i as int));
        if !contains_dep(&r, d) {
            r.push(d.clone());
        }
        proof {
            assert forall|key: (Seq<char>, Seq<char>)| has_dep_key(r@, key) <==> has_dep_key(ds@.subrange(0, i + 1), key) by {
                if has_dep_key(ds@.subrange(0, i + 1), key) {
                    let k = choose|k: int| 0 <= k < i + 1 && dep_key(#[trigger] ds@.subrange(0, i + 1)[k]) == key;
                    if k < i {
                        assert(ds@.subrange(0, i as int)[k] == ds@.subrange(0, i + 1)[k]);
                        assert(has_dep_key(prev, key));
                        let m = choose|m: int| 0 <= m < prev.len() && dep_key(#[trigger] prev[m]) == key;
                        assert(r@[m] == prev[m]);
                    } else if has_dep_key(prev, key) {
                        let m = choose|m: int| 0 <= m < prev.len() && dep_key(#[trigger] prev[m]) == key;
                        assert(r@[m] == prev[m]);
                    } else {
                        assert(r@[r@.len() - 1] == *d);
                    }
                }
                if has_dep_key(r@, key) {
                    let m = choose|m: int| 0 <= m < r@.len() && dep_key(#[trigger] r@[m]) == key;
                    if m < prev.len() {
                        assert(r@[m] == prev[m]);
                        assert(has_dep_key(prev, key));
                        let k = choose|k: int| 0 <= k < i && dep_key(#[trigger] ds@.subrange(0, i as int)[k]) == key;
                        assert(ds@.subrange(0, i + 1)[k] == ds@.subrange(0, i as int)[k]);
                    } else {
                        assert(ds@.subrange(0, i + 1)[i as int] == *d);
                    }
                }
            }
        }
        i += 1;
    }
    assert(ds@.subrange(0, ds@.len() as int) =~= ds@);
    r
}

} // verus!

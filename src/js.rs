use vstd::prelude::*;
use crate::extension::{
    Extension, ExtensionError, LocalDependency, RegistryResponse, RemotePackageMetadata, VersionDist,
    dedup_dependencies, deps_distinct, first_occurrences, first_present, has_dep_key, identify_dependancy_files,
};
use crate::store::str_eq;

verus! {

/// The text that a handlebars template renders to with the given variables;
/// `None` where rendering fails.
pub uninterp spec fn rendered(template: Seq<char>, vars: Seq<(Seq<char>, Seq<char>)>) -> Option<Seq<char>>;

/// The serialization of the URL that a text parses to; `None` where it is
/// not an absolute URL.
pub uninterp spec fn url_parsed(s: Seq<char>) -> Option<Seq<char>>;

/// The variables of a template, as text.
pub open spec fn vars_view(vars: Seq<(String, String)>) -> Seq<(Seq<char>, Seq<char>)> {
    vars.map_values(|p: (String, String)| (p.0@, p.1@))
}

/// The text of an optional string.
pub open spec fn opt_view(o: Option<String>) -> Option<Seq<char>> {
    match o {
        Some(s) => Some(s@),
        None => None,
    }
}

/// The npm package page template.
pub open spec fn package_url_template() -> Seq<char> {
    "https://www.npmjs.com/package/{{package_name}}/"@
}

/// The npm package version page template.
pub open spec fn package_version_url_template() -> Seq<char> {
    "https://www.npmjs.com/package/{{package_name}}/v/{{package_version}}"@
}

/// The npm registry entry template.
pub open spec fn registry_entry_template() -> Seq<char> {
    "https://registry.npmjs.com/{{package_name}}"@
}

/// One of the extension's own templates: plain text with `{{identifier}}`
/// placeholders, no partials, blocks or sub-expressions.
pub open spec fn known_template(t: Seq<char>) -> bool {
    t == package_url_template() || t == package_version_url_template() || t == registry_entry_template()
}

/// Relies on handlebars::Handlebars::render_template, with a fresh registry:
/// the text rendered depends on the template and the variables alone. Only
/// the extension's own plain templates are rendered.
#[verifier::external_body]
fn render(template: &str, vars: &Vec<(String, String)>) -> (r: Option<String>)
    requires
        known_template(template@),
    ensures
        r is Some <==> rendered(template@, vars_view(vars@)) is Some,
        r matches Some(s) ==> rendered(template@, vars_view(vars@)) == Some(s@),
{
    let data: std::collections::BTreeMap<&str, &str> = vars.iter().map(|(k, v)| (k.as_str(), v.as_str())).collect();
    handlebars::Handlebars::new().render_template(template, &data).ok()
}

/// Relies on url::Url::parse and the URL's serialization: the canonical form
/// of an absolute URL depends on the text alone.
#[verifier::external_body]
fn parse_url(s: &str) -> (r: Option<String>)
    ensures
        r is Some <==> url_parsed(s@) is Some,
        r matches Some(u) ==> url_parsed(s@) == Some(u@),
{
    url::Url::parse(s).ok().map(|u| u.to_string())
}

/// The first entry of the list for the given version.
pub open spec fn dist_index(vs: Seq<VersionDist>, version: Seq<char>) -> Option<int> {
    if exists|i: int| 0 <= i < vs.len() && vs[i].version@ == version {
        Some(choose|i: int| 0 <= i < vs.len() && vs[i].version@ == version
            && forall|j: int| 0 <= j < i ==> vs[j].version@ != version)
    } else {
        None
    }
}

/// The archive URL and digest that the entry gives for the version, verbatim:
/// `VersionNotFound` where the entry lacks the version, and
/// `RegistryResponseInvalid` where its record lacks either field.
pub fn select_dist(versions: &Vec<VersionDist>, version: &str) -> (r: Result<(String, String), ExtensionError>)
    ensures
        match dist_index(versions@, version@) {
            None => r == Err::<(String, String), ExtensionError>(ExtensionError::VersionNotFound),
            Some(i) => match (versions@[i].tarball, versions@[i].shasum) {
                (Some(t), Some(h)) => r is Ok && r->Ok_0.0@ == t@ && r->Ok_0.1@ == h@,
                _ => r == Err::<(String, String), ExtensionError>(ExtensionError::RegistryResponseInvalid),
            },
        },
{
    let mut i: usize = 0;
    while i < versions.len()
        invariant
            i <= versions@.len(),
            forall|j: int| 0 <= j < i ==> versions@[j].version@ != version@,
        decreases versions@.len() - i,
    {
        if str_eq(versions[i].version.as_str(), version) {
            proof {
                let k = choose|k: int| 0 <= k < versions@.len() && versions@[k].version@ == version@
                    && forall|j: int| 0 <= j < k ==> versions@[j].version@ != version@;
                if k > i {
                    assert(versions@[i as int].version@ != version@);
                }
                assert(k == i);
            }
            let d = &versions[i];
            return match (&d.tarball, &d.shasum) {
                (Some(t), Some(h)) => Ok((t.clone(), h.clone())),
                _ => Err(ExtensionError::RegistryResponseInvalid),
            };
        }
        i += 1;
    }
    Err(ExtensionError::VersionNotFound)
}

/// The metadata record holds these values.
pub open spec fn metadata_is(
    m: RemotePackageMetadata,
    found_local_use: bool,
    host: Seq<char>,
    package_url: Seq<char>,
    version_url: Seq<char>,
    source_code_url: Option<Seq<char>>,
    digest: Option<Seq<char>>,
) -> bool {
    &&& m.found_local_use == found_local_use
    &&& opt_view(m.registry_host_name) == Some(host)
    &&& opt_view(m.registry_package_url) == Some(package_url)
    &&& opt_view(m.registry_package_version_url) == Some(version_url)
    &&& opt_view(m.source_code_url) == source_code_url
    &&& opt_view(m.source_code_sha256) == digest
}

/// The reference extension for the npm ecosystem.
#[derive(Debug)]
pub struct JsExtension {
    pub name: String,
    pub host_name: String,
    pub root_url: String,
    pub package_url_template: String,
    pub package_version_url_template: String,
    pub registry_entry_template: String,
}

impl JsExtension {
    /// The extension's templates are its own plain ones.
    pub open spec fn wf(&self) -> bool {
        &&& self.package_url_template@ == package_url_template()
        &&& self.package_version_url_template@ == package_version_url_template()
        &&& self.registry_entry_template@ == registry_entry_template()
    }

    /// Whether the extension's templates are its own plain ones.
    pub fn is_wf(&self) -> (r: bool)
        ensures
            r == self.wf(),
    {
        str_eq(self.package_url_template.as_str(), "https://www.npmjs.com/package/{{package_name}}/")
            && str_eq(
            self.package_version_url_template.as_str(),
            "https://www.npmjs.com/package/{{package_name}}/v/{{package_version}}",
        ) && str_eq(self.registry_entry_template.as_str(), "https://registry.npmjs.com/{{package_name}}")
    }

    /// The extension with npm's host and URL templates.
    pub fn new() -> (r: JsExtension)
        ensures
            r.wf(),
            r.name@ == "js"@,
            r.host_name@ == "npmjs.com"@,
            r.root_url@ == "https://www.npmjs.com"@,
    {
        JsExtension {
            name: "js".to_owned(),
            host_name: "npmjs.com".to_owned(),
            root_url: "https://www.npmjs.com".to_owned(),
            package_url_template: "https://www.npmjs.com/package/{{package_name}}/".to_owned(),
            package_version_url_template: "https://www.npmjs.com/package/{{package_name}}/v/{{package_version}}".to_owned(),
            registry_entry_template: "https://registry.npmjs.com/{{package_name}}".to_owned(),
        }
    }

    /// The extension's name.
    pub fn name(&self) -> (r: String)
        ensures
            r == self.name,
    {
        self.name.clone()
    }

    /// The dependencies declared by the manifest nearest to the working
    /// directory. `levels[0]` is the working directory and each next entry
    /// its parent, up to the root; an entry holds the declarations of the
    /// manifest found there. The walk stops at the first level with a
    /// manifest; where none has one the result is empty. Each declared
    /// dependency comes once.
    pub fn identify_local_dependencies(&self, levels: &Vec<Option<Vec<LocalDependency>>>) -> (r: Vec<LocalDependency>)
        ensures
            match first_present(levels@.map_values(|l: Option<Vec<LocalDependency>>| l is Some)) {
                None => r@.len() == 0,
                Some(i) => r@ == first_occurrences(levels@[i]->0@) && deps_distinct(r@) && forall|key: (Seq<char>, Seq<char>)|
                    has_dep_key(r@, key) <==> has_dep_key(levels@[i]->0@, key),
            },
    {
        let mut present: Vec<bool> = Vec::new();
        let mut i: usize = 0;
        while i < levels.len()
            invariant
                i <= levels@.len(),
                present@ == levels@.subrange(0, i as int).map_values(|l: Option<Vec<LocalDependency>>| l is Some),
            decreases levels@.len() - i,
        {
            present.push(levels[i].is_some());
            i += 1;
            assert(present@ =~= levels@.subrange(0, i as int).map_values(|l: Option<Vec<LocalDependency>>| l is Some));
        }
        assert(levels@.subrange(0, levels@.len() as int) =~= levels@);
        match identify_dependancy_files(&present) {
            Some(k) => match &levels[k] {
                Some(deps) => dedup_dependencies(deps),
                None => Vec::new(),
            },
            None => Vec::new(),
        }
    }

    /// The URL of the registry's entry for the package.
    pub fn registry_entry_url(&self, package_name: &str) -> (r: Option<String>)
        requires
            self.wf(),
        ensures
            opt_view(r) == rendered(self.registry_entry_template@, seq![("package_name"@, package_name@)]),
    {
        let mut vars: Vec<(String, String)> = Vec::new();
        vars.push(("package_name".to_owned(), package_name.to_owned()));
        assert(vars_view(vars@) =~= seq![("package_name"@, package_name@)]);
        render(self.registry_entry_template.as_str(), &vars)
    }

    /// Registry metadata of a package version. `present` tells, level by
    /// level upward from the working directory, where a manifest is; the
    /// record says whether one was found. `response` is the registry's answer
    /// for the package name. A package that the registry does not hold is no
    /// error: its record has display URLs and no archive URL or digest. A
    /// registered package without the version is `VersionNotFound`; an answer
    /// that cannot be read, or lacks the archive URL or digest, is
    /// `RegistryResponseInvalid`. The archive URL is given in canonical form,
    /// the digest verbatim.
    pub fn remote_package_metadata(
        &self,
        package_name: &str,
        package_version: &str,
        present: &Vec<bool>,
        response: &RegistryResponse,
    ) -> (r: Result<RemotePackageMetadata, ExtensionError>)
        requires
            self.wf(),
        ensures
            ({
                let pkg = rendered(self.package_url_template@, seq![("package_name"@, package_name@)]);
                let ver = rendered(
                    self.package_version_url_template@,
                    seq![("package_name"@, package_name@), ("package_version"@, package_version@)],
                );
                let found = first_present(present@) is Some;
                if pkg is None || ver is None {
                    r == Err::<RemotePackageMetadata, ExtensionError>(ExtensionError::UrlTemplateInvalid)
                } else {
                    match response {
                        RegistryResponse::Unregistered => r is Ok && metadata_is(
                            r->Ok_0, found, self.host_name@, pkg->0, ver->0, None, None),
                        RegistryResponse::Malformed => r == Err::<RemotePackageMetadata, ExtensionError>(
                            ExtensionError::RegistryResponseInvalid),
                        RegistryResponse::Entry(vs) => match dist_index(vs@, package_version@) {
                            None => r == Err::<RemotePackageMetadata, ExtensionError>(ExtensionError::VersionNotFound),
                            Some(i) => match (vs@[i].tarball, vs@[i].shasum) {
                                (Some(t), Some(h)) => match url_parsed(t@) {
                                    Some(u) => r is Ok && metadata_is(
                                        r->Ok_0, found, self.host_name@, pkg->0, ver->0, Some(u), Some(h@)),
                                    None => r == Err::<RemotePackageMetadata, ExtensionError>(
                                        ExtensionError::RegistryResponseInvalid),
                                },
                                _ => r == Err::<RemotePackageMetadata, ExtensionError>(
                                    ExtensionError::RegistryResponseInvalid),
                            },
                        },
                    }
                }
            }),
    {
        let found_local_use = identify_dependancy_files(present).is_some();
        let mut vars: Vec<(String, String)> = Vec::new();
        vars.push(("package_name".to_owned(), package_name.to_owned()));
        assert(vars_view(vars@) =~= seq![("package_name"@, package_name@)]);
        let package_url = match render(self.package_url_template.as_str(), &vars) {
            Some(u) => u,
            None => return Err(ExtensionError::UrlTemplateInvalid),
        };
        vars.push(("package_version".to_owned(), package_version.to_owned()));
        assert(vars_view(vars@) =~= seq![("package_name"@, package_name@), ("package_version"@, package_version@)]);
        let version_url = match render(self.package_version_url_template.as_str(), &vars) {
            Some(u) => u,
            None => return Err(ExtensionError::UrlTemplateInvalid),
        };
        let (source_code_url, source_code_sha256) = match response {
            RegistryResponse::Unregistered => (None, None),
            RegistryResponse::Malformed => return Err(ExtensionError::RegistryResponseInvalid),
            RegistryResponse::Entry(versions) => {
                let (tarball, digest) = select_dist(versions, package_version)?;
                match parse_url(tarball.as_str()) {
                    Some(u) => (Some(u), Some(digest)),
                    None => return Err(ExtensionError::RegistryResponseInvalid),
                }
            },
        };
        Ok(RemotePackageMetadata {
            found_local_use,
            registry_host_name: Some(self.host_name.clone()),
            registry_package_url: Some(package_url),
            registry_package_version_url: Some(version_url),
            source_code_url,
            source_code_sha256,
        })
    }
}

impl Extension for JsExtension {
    fn identify_local_dependencies(&self, levels: &Vec<Option<Vec<LocalDependency>>>) -> Vec<LocalDependency> {
        JsExtension::identify_local_dependencies(self, levels)
    }

    fn remote_package_metadata(
        &self,
        package_name: &str,
        package_version: &str,
        present: &Vec<bool>,
        response: &RegistryResponse,
    ) -> Result<RemotePackageMetadata, ExtensionError> {
        if !self.is_wf() {
            return Err(ExtensionError::UrlTemplateInvalid);
        }
        JsExtension::remote_package_metadata(self, package_name, package_version, present, response)
    }
}

} // verus!

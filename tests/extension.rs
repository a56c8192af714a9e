use vouch::config::{Config, ConfigError};
use vouch::extension::{
    dedup_dependencies, identify_dependancy_files, DependancyFileType, ExtensionError, LocalDependency,
    RegistryResponse, VersionDist,
};
use vouch::js::{select_dist, JsExtension};

fn dep(name: &str, version: &str) -> LocalDependency {
    LocalDependency { name: name.to_string(), version: version.to_string() }
}

fn dist(version: &str, tarball: Option<&str>, shasum: Option<&str>) -> VersionDist {
    VersionDist {
        version: version.to_string(),
        tarball: tarball.map(|s| s.to_string()),
        shasum: shasum.map(|s| s.to_string()),
    }
}

#[test]
fn manifest_file_name() {
    assert_eq!(DependancyFileType::Npm.file_name(), "package.json");
}

#[test]
fn walk_stops_at_first_manifest() {
    assert_eq!(identify_dependancy_files(&vec![false, false, true, true]), Some(2));
    assert_eq!(identify_dependancy_files(&vec![false, false, false]), None);
    assert_eq!(identify_dependancy_files(&vec![]), None);
}

#[test]
fn local_dependencies_come_from_the_nearest_manifest() {
    // Levels of /a/b/c: /a/b/c, /a/b, /a, /; only /a holds a manifest.
    let ext = JsExtension::new();
    let levels = vec![None, None, Some(vec![dep("d3", "6.5.0"), dep("lodash", "4.17.21"), dep("d3", "6.5.0")]), None];
    assert_eq!(ext.identify_local_dependencies(&levels), vec![dep("d3", "6.5.0"), dep("lodash", "4.17.21")]);
}

#[test]
fn no_manifest_anywhere_gives_no_dependencies() {
    // Levels of /x/y: /x/y, /x, /.
    let ext = JsExtension::new();
    let levels: Vec<Option<Vec<LocalDependency>>> = vec![None, None, None];
    assert!(ext.identify_local_dependencies(&levels).is_empty());
}

#[test]
fn dedup_keeps_first_occurrence_order() {
    let ds = vec![dep("b", "1"), dep("a", "1"), dep("b", "1"), dep("b", "2")];
    assert_eq!(dedup_dependencies(&ds), vec![dep("b", "1"), dep("a", "1"), dep("b", "2")]);
}

#[test]
fn missing_version_is_version_not_found() {
    let ext = JsExtension::new();
    let response = RegistryResponse::Entry(vec![dist("1.0.0", Some("https://r.example/pkg-1.0.0.tgz"), Some("ab"))]);
    assert_eq!(
        ext.remote_package_metadata("pkg", "9.9.9", &vec![true], &response),
        Err(ExtensionError::VersionNotFound)
    );
}

#[test]
fn unregistered_package_has_no_archive_and_no_error() {
    let ext = JsExtension::new();
    let meta = ext
        .remote_package_metadata("pkg", "9.9.9", &vec![false, true], &RegistryResponse::Unregistered)
        .unwrap();
    assert!(meta.found_local_use);
    assert_eq!(meta.registry_host_name.as_deref(), Some("npmjs.com"));
    assert_eq!(meta.registry_package_url.as_deref(), Some("https://www.npmjs.com/package/pkg/"));
    assert_eq!(meta.registry_package_version_url.as_deref(), Some("https://www.npmjs.com/package/pkg/v/9.9.9"));
    assert_eq!(meta.source_code_url, None);
    assert_eq!(meta.source_code_sha256, None);
}

#[test]
fn found_version_gives_canonical_url_and_verbatim_digest() {
    let ext = JsExtension::new();
    let response = RegistryResponse::Entry(vec![
        dist("6.4.0", Some("https://registry.npmjs.org/d3/-/d3-6.4.0.tgz"), Some("00")),
        dist("6.5.0", Some("HTTPS://Registry.NPMjs.org/d3/-/d3-6.5.0.tgz"), Some("0123abcd")),
    ]);
    let meta = ext.remote_package_metadata("d3", "6.5.0", &vec![false], &response).unwrap();
    assert!(!meta.found_local_use);
    assert_eq!(meta.source_code_url.as_deref(), Some("https://registry.npmjs.org/d3/-/d3-6.5.0.tgz"));
    assert_eq!(meta.source_code_sha256.as_deref(), Some("0123abcd"));
    assert_eq!(meta.registry_package_version_url.as_deref(), Some("https://www.npmjs.com/package/d3/v/6.5.0"));
}

#[test]
fn malformed_or_incomplete_answers_are_invalid() {
    let ext = JsExtension::new();
    assert_eq!(
        ext.remote_package_metadata("d3", "1.0.0", &vec![], &RegistryResponse::Malformed),
        Err(ExtensionError::RegistryResponseInvalid)
    );
    let no_digest = RegistryResponse::Entry(vec![dist("1.0.0", Some("https://r.example/a.tgz"), None)]);
    assert_eq!(
        ext.remote_package_metadata("d3", "1.0.0", &vec![], &no_digest),
        Err(ExtensionError::RegistryResponseInvalid)
    );
    let bad_url = RegistryResponse::Entry(vec![dist("1.0.0", Some("not a url"), Some("ab"))]);
    assert_eq!(
        ext.remote_package_metadata("d3", "1.0.0", &vec![], &bad_url),
        Err(ExtensionError::RegistryResponseInvalid)
    );
}

#[test]
fn select_dist_takes_the_first_matching_record() {
    let vs = vec![dist("1.0.0", Some("t1"), Some("h1")), dist("1.0.0", Some("t2"), Some("h2"))];
    assert_eq!(select_dist(&vs, "1.0.0"), Ok(("t1".to_string(), "h1".to_string())));
    assert_eq!(select_dist(&vs, "2.0.0"), Err(ExtensionError::VersionNotFound));
}

#[test]
fn registry_entry_url_renders_the_name() {
    let ext = JsExtension::new();
    assert_eq!(ext.registry_entry_url("left-pad").as_deref(), Some("https://registry.npmjs.com/left-pad"));
    assert_eq!(ext.name(), "js");
}

#[test]
fn config_set_and_get() {
    let mut config = Config::default();
    config.set("core.root-git-url", "https://example.com/me.git").unwrap();
    assert_eq!(config.get("core.root-git-url").unwrap(), "https://example.com/me.git");
    assert_eq!(config.get("extensions.js.enabled").unwrap(), "false");
    config.set("extensions.js.enabled", "true").unwrap();
    assert_eq!(config.get("extensions.js.enabled").unwrap(), "true");
    assert_eq!(config.set("extensions.js.enabled", "yes"), Err(ConfigError::InvalidValue));
    assert_eq!(config.set("nope", "1"), Err(ConfigError::UnknownField));
    assert_eq!(config.get("nope"), Err(ConfigError::UnknownField));
}

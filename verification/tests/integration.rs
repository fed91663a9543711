//! Tests of the error taxonomy, the cache model and the database snapshot.

use lilac::alpm::AlpmWrapper;
use lilac::aur::AurPackage;
use lilac::builder::PackageBuilder;
use lilac::cache::ArtifactCache;
use lilac::error::{
    alpm_init_error, alpm_install_error, alpm_remove_error, aur_api_error, aur_parse_error,
    aur_request_failed, build_git_error, build_makepkg_error, AlpmError, AurError, BuildError,
};

#[test]
fn test_aur_error_display() {
    let e = AurError::RequestFailed("fail".into());
    assert!(e.message().contains("AUR request failed"));
    let e = AurError::ParseError("fail".into());
    assert!(e.message().contains("Failed to parse AUR response"));
    let e = AurError::NotFound("foo".into());
    assert!(e.message().contains("Package not found in AUR"));
    let e = AurError::ApiError("fail".into());
    assert!(e.message().contains("AUR API error"));
}

#[test]
fn test_build_error_display() {
    let e = BuildError::GitError { source: "fail".into(), package: "foo".into() };
    assert!(e.message().contains("Git operation failed"));
    let e = BuildError::MakePkgError { source: "fail".into(), stage: "bar".into() };
    assert!(e.message().contains("makepkg failed during"));
}

#[test]
fn test_alpm_error_display() {
    let e = AlpmError::InitError("fail".into());
    assert!(e.message().contains("ALPM initialization failed"));
    let e = AlpmError::InstallError("fail".into());
    assert!(e.message().contains("Package installation failed"));
    let e = AlpmError::DatabaseError("fail".into());
    assert!(e.message().contains("Database operation failed"));
    let e = AlpmError::RemoveError("fail".into());
    assert!(e.message().contains("Package removal failed"));
    let e = AlpmError::NotFound("foo".into());
    assert!(e.message().contains("Package not found in ALPM"));
}

#[test]
fn test_error_helpers() {
    let _ = aur_request_failed("fail");
    let _ = aur_parse_error("fail");
    let _ = aur_api_error("fail");
    let _ = alpm_init_error("fail");
    let _ = alpm_install_error("fail");
    let _ = alpm_remove_error("fail");
    let _ = build_git_error("fail", "foo");
    let _ = build_makepkg_error("fail", "bar");
}

#[test]
fn test_packagebuilder_find_cached_package_none() {
    let cache = ArtifactCache::new();
    let found = PackageBuilder::find_cached_package(&cache, "notapkg");
    assert!(found.is_none());
}

#[test]
fn test_packagebuilder_read_dependency_list_empty() {
    let cache = ArtifactCache::new();
    let deps = PackageBuilder::read_dependency_list("notapkg", &cache).unwrap();
    assert!(deps.is_empty());
}

#[test]
fn test_aurpackage_struct() {
    let pkg = AurPackage {
        name: "foo".into(),
        version: "1.0".into(),
        description: Some("desc".into()),
        url: Some("http://foo".into()),
        maintainer: Some("me".into()),
        num_votes: 1,
        first_submitted: 0,
        last_modified: 0,
    };
    assert_eq!(pkg.name, "foo");
    assert_eq!(pkg.version, "1.0");
}

#[test]
fn test_alpm_wrapper_new() {
    let result = AlpmWrapper::new();
    assert!(result.is_ok());
}

#[test]
fn test_alpm_is_package_installed() {
    if let Ok(alpm) = AlpmWrapper::new() {
        let installed = alpm.is_package_installed("nonexistent-package-12345").unwrap();
        assert!(!installed);
    }
}

#[test]
fn test_error_message_exact_text() {
    let e = AurError::RequestFailed("connection reset".into());
    assert_eq!(e.message(), "AUR request failed: connection reset");
    let e = BuildError::GitError { source: "timeout".into(), package: "foo".into() };
    assert_eq!(e.message(), "Git operation failed (package: foo): timeout");
    let e = BuildError::MakePkgError { source: "oops".into(), stage: "build".into() };
    assert_eq!(e.message(), "makepkg failed during build: oops");
}

#[test]
fn test_alpm_error_into_build_error() {
    let e = AlpmError::InstallError("no space".into());
    let b = e.into_build_error();
    assert_eq!(
        b.message(),
        "makepkg failed during dependency installation: ALPM error: Package installation failed: no space"
    );
}

#[test]
fn test_cache_round_trip_find() {
    let mut cache = ArtifactCache::new();
    assert!(PackageBuilder::find_cached_package(&cache, "foo").is_none());
    PackageBuilder::cache_package(&mut cache, "foo-1.0-1-x86_64.pkg.tar.zst");
    let found = PackageBuilder::find_cached_package(&cache, "foo");
    assert_eq!(found, Some("foo-1.0-1-x86_64.pkg.tar.zst".to_string()));
}

#[test]
fn test_cache_round_trip_deps() {
    let mut cache = ArtifactCache::new();
    let deps = vec!["baz".to_string(), "qux".to_string(), "alpha".to_string()];
    PackageBuilder::save_dependency_list("foo", &mut cache, &deps);
    let read = PackageBuilder::read_dependency_list("foo", &cache).unwrap();
    assert_eq!(read, deps);
}

#[test]
fn test_cache_empty_dependency_list_round_trip() {
    let mut cache = ArtifactCache::new();
    PackageBuilder::save_dependency_list("foo", &mut cache, &vec![]);
    let read = PackageBuilder::read_dependency_list("foo", &cache).unwrap();
    assert!(read.is_empty());
}

#[test]
fn test_cache_save_deps_overwrites() {
    let mut cache = ArtifactCache::new();
    PackageBuilder::save_dependency_list("foo", &mut cache, &vec!["old".to_string()]);
    PackageBuilder::save_dependency_list("foo", &mut cache, &vec!["new".to_string()]);
    let read = PackageBuilder::read_dependency_list("foo", &cache).unwrap();
    assert_eq!(read, vec!["new".to_string()]);
}

#[test]
fn test_cache_delete_removes_artifact_and_sidecar() {
    let mut cache = ArtifactCache::new();
    PackageBuilder::cache_package(&mut cache, "foo-1.0-1-x86_64.pkg.tar.zst");
    PackageBuilder::cache_package(&mut cache, "bar-2.0-1-x86_64.pkg.tar.xz");
    PackageBuilder::save_dependency_list("foo", &mut cache, &vec!["baz".to_string()]);
    PackageBuilder::delete_cached_package(&mut cache, "foo").unwrap();
    assert!(PackageBuilder::find_cached_package(&cache, "foo").is_none());
    assert!(PackageBuilder::read_dependency_list("foo", &cache).unwrap().is_empty());
    assert!(PackageBuilder::find_cached_package(&cache, "bar").is_some());
}

#[test]
fn test_find_cached_package_needs_artifact_suffix() {
    let mut cache = ArtifactCache::new();
    PackageBuilder::cache_package(&mut cache, "foo-1.0-1-x86_64.tar.gz");
    assert!(PackageBuilder::find_cached_package(&cache, "foo").is_none());
    PackageBuilder::cache_package(&mut cache, "foo-1.0-1-x86_64.pkg.tar.xz");
    assert_eq!(
        PackageBuilder::find_cached_package(&cache, "foo"),
        Some("foo-1.0-1-x86_64.pkg.tar.xz".to_string())
    );
}

#[test]
fn test_snapshot_queries() {
    let alpm = AlpmWrapper::snapshot(vec!["foo".to_string()], vec!["bar".to_string()]);
    assert!(alpm.is_package_installed("foo").unwrap());
    assert!(!alpm.is_package_installed("bar").unwrap());
    assert!(alpm.is_package_available("bar").unwrap());
    assert!(!alpm.is_package_available("foo").unwrap());
}

#[test]
fn test_load_syncdbs_from_pacman_conf() {
    let conf =
        "[options]\nRootDir = /\nDBPath = /var/lib/pacman\n[core]\nInclude = /etc/pacman.d/mirrorlist\n[extra]\n[Multilib]\n  [community]  \nnot a section\n";
    let repos = AlpmWrapper::load_syncdbs_from_pacman_conf(conf);
    let expected: Vec<String> =
        ["core", "extra", "community"].iter().map(|s| s.to_string()).collect();
    assert_eq!(repos, expected);
}

#[test]
fn test_faulty_snapshot_fails_queries() {
    let alpm = AlpmWrapper::faulty();
    assert!(alpm.is_package_installed("foo").is_err());
    assert!(alpm.is_package_available("foo").is_err());
}

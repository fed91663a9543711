//! Tests of the dependency extractor, the classifier, the update
//! evaluator, the install batcher and the build state machine.

use lilac::alpm::AlpmWrapper;
use lilac::batch::{plan_installer_calls, InstallerCall, ResolutionResult};
use lilac::builder::{
    u32_to_string, BuildAction, BuildEvent, BuildJob, BuildState, BuilderOutcome, PackageBuilder,
};
use lilac::cache::ArtifactCache;
use lilac::classify::{classify_dependencies, classify_dependency, Tier};
use lilac::commands::{parse_artifact_filename, plan_install, plan_removal, InstallPlan};
use lilac::update::{cached_version, evaluate_update, extract_version_from_filename, UpdateDecision};

fn strings(items: &[&str]) -> Vec<String> {
    items.iter().map(|s| s.to_string()).collect()
}

#[test]
fn test_extract_dependencies_tokens_reduce() {
    let text = "depends = foo>=1.2\ndepends = foo<2\ndepends = foo=1.0\ndepends = foo\n";
    let deps = PackageBuilder::get_dependencies_from_srcinfo(text);
    assert_eq!(deps, strings(&["foo"]));
}

#[test]
fn test_extract_dependencies_is_idempotent() {
    let text = "pkgname = demo\ndepends = alpha\nmakedepends = beta>=2\ncheckdepends = gamma\ndepends = alpha\n";
    let first = PackageBuilder::get_dependencies_from_srcinfo(text);
    let second = PackageBuilder::get_dependencies_from_srcinfo(text);
    assert_eq!(first, second);
    assert_eq!(first, strings(&["alpha", "beta", "gamma"]));
}

#[test]
fn test_extract_dependencies_empty_and_keyless() {
    assert!(PackageBuilder::get_dependencies_from_srcinfo("").is_empty());
    let text = "pkgname = demo\npkgver = 1.0\nurl = https://example.com\n";
    assert!(PackageBuilder::get_dependencies_from_srcinfo(text).is_empty());
}

#[test]
fn test_extract_dependencies_trims_and_skips_empty_values() {
    let text = "  depends =   spaced.dep  \ndepends = \ndepends = <2\n\tmakedepends = tabbed\n";
    let deps = PackageBuilder::get_dependencies_from_srcinfo(text);
    assert_eq!(deps, strings(&["spaced.dep", "tabbed"]));
}

#[test]
fn test_extract_dependencies_no_trailing_newline() {
    let deps = PackageBuilder::get_dependencies_from_srcinfo("depends = last");
    assert_eq!(deps, strings(&["last"]));
}

#[test]
fn test_classify_dependency_priority() {
    // installed wins over cache presence
    let alpm = AlpmWrapper::snapshot(strings(&["both"]), vec![]);
    let mut cache = ArtifactCache::new();
    PackageBuilder::cache_package(&mut cache, "both-1.0-1-x86_64.pkg.tar.zst");
    let tier = classify_dependency("both", &alpm, &cache).unwrap();
    assert_eq!(tier, Tier::Installed);
}

#[test]
fn test_classify_dependency_each_tier() {
    let alpm = AlpmWrapper::snapshot(strings(&["ins"]), strings(&["repo"]));
    let mut cache = ArtifactCache::new();
    PackageBuilder::cache_package(&mut cache, "hit-1.0-1-x86_64.pkg.tar.zst");
    assert_eq!(classify_dependency("ins", &alpm, &cache).unwrap(), Tier::Installed);
    assert_eq!(classify_dependency("repo", &alpm, &cache).unwrap(), Tier::TrustedRepo);
    assert_eq!(classify_dependency("hit", &alpm, &cache).unwrap(), Tier::Cached);
    assert_eq!(classify_dependency("other", &alpm, &cache).unwrap(), Tier::NeedsBuild);
}

#[test]
fn test_classify_dependencies_partitions() {
    let alpm = AlpmWrapper::snapshot(strings(&["ins"]), strings(&["repo1", "repo2"]));
    let mut cache = ArtifactCache::new();
    PackageBuilder::cache_package(&mut cache, "hit-1.0-1-x86_64.pkg.tar.zst");
    let deps = strings(&["repo1", "ins", "hit", "aur1", "repo2", "aur2"]);
    let buckets = classify_dependencies(&deps, &alpm, &cache).unwrap();
    assert_eq!(buckets.installed, strings(&["ins"]));
    assert_eq!(buckets.trusted_repo, strings(&["repo1", "repo2"]));
    assert_eq!(buckets.cached, strings(&["hit"]));
    assert_eq!(buckets.cached_paths, strings(&["hit-1.0-1-x86_64.pkg.tar.zst"]));
    assert_eq!(buckets.needs_build, strings(&["aur1", "aur2"]));
    // pairwise disjoint, union = input minus installed
    let mut rejoined = Vec::new();
    rejoined.extend(buckets.trusted_repo.clone());
    rejoined.extend(buckets.cached.clone());
    rejoined.extend(buckets.needs_build.clone());
    for d in &deps {
        let expected = if d == "ins" { 0 } else { 1 };
        assert_eq!(rejoined.iter().filter(|x| x == &d).count(), expected);
    }
}

#[test]
fn test_classify_dependencies_oracle_failure_aborts() {
    let alpm = AlpmWrapper::faulty();
    let cache = ArtifactCache::new();
    let deps = strings(&["anything"]);
    let r = classify_dependencies(&deps, &alpm, &cache);
    assert!(r.is_err());
}

#[test]
fn test_newly_installed_dependencies_order_and_dedup() {
    let alpm = AlpmWrapper::snapshot(strings(&["ins"]), strings(&["repo"]));
    let mut cache = ArtifactCache::new();
    PackageBuilder::cache_package(&mut cache, "hit-1.0-1-x86_64.pkg.tar.zst");
    let deps = strings(&["ins", "repo", "aur", "hit"]);
    let buckets = classify_dependencies(&deps, &alpm, &cache).unwrap();
    let newly = PackageBuilder::newly_installed_dependencies(&buckets);
    assert_eq!(newly, strings(&["ins", "repo", "aur", "hit"]));
}

#[test]
fn test_dependency_artifact_batch_order() {
    let alpm = AlpmWrapper::snapshot(vec![], vec![]);
    let mut cache = ArtifactCache::new();
    PackageBuilder::cache_package(&mut cache, "hit-1.0-1-x86_64.pkg.tar.zst");
    let deps = strings(&["hit", "aur"]);
    let buckets = classify_dependencies(&deps, &alpm, &cache).unwrap();
    let built = strings(&["aur-2.0-1-x86_64.pkg.tar.zst"]);
    let batch = PackageBuilder::dependency_artifact_batch(&buckets, &built);
    assert_eq!(
        batch,
        strings(&["hit-1.0-1-x86_64.pkg.tar.zst", "aur-2.0-1-x86_64.pkg.tar.zst"])
    );
}

#[test]
fn test_plan_installer_calls_two_batches() {
    let r = ResolutionResult {
        trusted_repo_batch: strings(&["a", "b"]),
        artifact_batch: strings(&["x.pkg.tar.zst"]),
    };
    let calls = plan_installer_calls(r);
    assert_eq!(calls.len(), 2);
    match &calls[0] {
        InstallerCall::InstallFromRepo(v) => assert_eq!(v, &strings(&["a", "b"])),
        _ => panic!("first call must be the trusted-repo batch"),
    }
    match &calls[1] {
        InstallerCall::InstallFromFiles(v) => assert_eq!(v, &strings(&["x.pkg.tar.zst"])),
        _ => panic!("second call must be the artifact batch"),
    }
}

#[test]
fn test_plan_installer_calls_skips_empty_batches() {
    let calls = plan_installer_calls(ResolutionResult {
        trusted_repo_batch: vec![],
        artifact_batch: vec![],
    });
    assert!(calls.is_empty());
    let calls = plan_installer_calls(ResolutionResult {
        trusted_repo_batch: vec![],
        artifact_batch: strings(&["x.pkg.tar.zst"]),
    });
    assert_eq!(calls.len(), 1);
    match &calls[0] {
        InstallerCall::InstallFromFiles(v) => assert_eq!(v, &strings(&["x.pkg.tar.zst"])),
        _ => panic!("lone artifact batch must be a file install"),
    }
}

#[test]
fn test_extract_version_from_filename() {
    let v = extract_version_from_filename("ripgrep-0.7.7-1-x86_64.pkg.tar.zst", "ripgrep");
    assert_eq!(v, Some("0.7.7-1".to_string()));
    assert_eq!(extract_version_from_filename("other-1.0-1-x86_64.pkg.tar.zst", "ripgrep"), None);
    assert_eq!(extract_version_from_filename("ripgrep-nodigits", "ripgrep"), None);
}

#[test]
fn test_update_decision_up_to_date_on_equal() {
    let alpm = AlpmWrapper::snapshot(strings(&["foo"]), vec![]);
    let mut cache = ArtifactCache::new();
    PackageBuilder::cache_package(&mut cache, "foo-1.0-1-x86_64.pkg.tar.zst");
    assert_eq!(cached_version(&cache, "foo"), "1.0-1");
    let d = evaluate_update("foo", "1.0-1", &alpm, &cache).unwrap();
    assert_eq!(d, UpdateDecision::UpToDate);
}

#[test]
fn test_update_decision_rebuild_on_newer_remote() {
    let alpm = AlpmWrapper::snapshot(strings(&["foo"]), vec![]);
    let mut cache = ArtifactCache::new();
    PackageBuilder::cache_package(&mut cache, "foo-1.0-1-x86_64.pkg.tar.zst");
    let d = evaluate_update("foo", "1.0-2", &alpm, &cache).unwrap();
    assert_eq!(d, UpdateDecision::Rebuild);
}

#[test]
fn test_update_decision_not_installed() {
    let alpm = AlpmWrapper::snapshot(vec![], vec![]);
    let cache = ArtifactCache::new();
    let d = evaluate_update("foo", "1.0-1", &alpm, &cache).unwrap();
    assert_eq!(d, UpdateDecision::NotInstalled);
}

#[test]
fn test_update_unknown_cached_version_rebuilds() {
    let alpm = AlpmWrapper::snapshot(strings(&["foo"]), vec![]);
    let cache = ArtifactCache::new();
    assert_eq!(cached_version(&cache, "foo"), "unknown");
    let d = evaluate_update("foo", "1.0-1", &alpm, &cache).unwrap();
    assert_eq!(d, UpdateDecision::Rebuild);
}

#[test]
fn test_u32_to_string_exact() {
    assert_eq!(u32_to_string(0), "0");
    assert_eq!(u32_to_string(7), "7");
    assert_eq!(u32_to_string(42), "42");
    assert_eq!(u32_to_string(255), "255");
    assert_eq!(u32_to_string(1000), "1000");
}

#[test]
fn test_parse_artifact_filename_cases() {
    let p = parse_artifact_filename("foo-1.2-1-x86_64.pkg.tar.zst").unwrap();
    assert_eq!(p, ("foo".to_string(), "1.2-1".to_string()));
    let p = parse_artifact_filename("my-tool-0.3-2-any.pkg.tar.xz").unwrap();
    assert_eq!(p, ("my-tool".to_string(), "0.3-2".to_string()));
    let p = parse_artifact_filename("nodigits.pkg.tar.zst").unwrap();
    assert_eq!(p, ("nodigits".to_string(), "unknown".to_string()));
    assert_eq!(parse_artifact_filename("foo-1.2-1.tar.gz"), None);
}

#[test]
fn test_scenario_already_installed() {
    // an installed package: no build, no install call
    let alpm = AlpmWrapper::snapshot(strings(&["foo"]), vec![]);
    let cache = ArtifactCache::new();
    let plan = plan_install("foo", &alpm, &cache).unwrap();
    assert!(matches!(plan, InstallPlan::AlreadyInstalled));
}

#[test]
fn test_scenario_cached_with_installed_dep() {
    // bar is not installed and not in the trusted repo, but cached with a
    // sidecar dependency baz that is already installed: the plan installs
    // exactly bar's cached artifact and issues no build
    let alpm = AlpmWrapper::snapshot(strings(&["baz"]), vec![]);
    let mut cache = ArtifactCache::new();
    PackageBuilder::cache_package(&mut cache, "bar-1.0-1-x86_64.pkg.tar.zst");
    PackageBuilder::save_dependency_list("bar", &mut cache, &strings(&["baz"]));
    let plan = plan_install("bar", &alpm, &cache).unwrap();
    match plan {
        InstallPlan::InstallCached { artifact, dependencies } => {
            assert_eq!(artifact, "bar-1.0-1-x86_64.pkg.tar.zst");
            assert_eq!(dependencies, strings(&["baz"]));
            // classifying the sidecar deps discards the installed baz
            let buckets = classify_dependencies(&dependencies, &alpm, &cache).unwrap();
            assert_eq!(buckets.installed, strings(&["baz"]));
            assert!(buckets.trusted_repo.is_empty());
            assert!(buckets.cached.is_empty());
            assert!(buckets.needs_build.is_empty());
            // a single installer call: bar's artifact alone
            let calls = plan_installer_calls(ResolutionResult {
                trusted_repo_batch: buckets.trusted_repo,
                artifact_batch: vec![artifact],
            });
            assert_eq!(calls.len(), 1);
            match &calls[0] {
                InstallerCall::InstallFromFiles(v) => {
                    assert_eq!(v, &strings(&["bar-1.0-1-x86_64.pkg.tar.zst"]))
                },
                _ => panic!("expected an artifact-file install"),
            }
        },
        _ => panic!("expected the cached plan"),
    }
}

#[test]
fn test_scenario_build_with_trusted_repo_dep() {
    // qux is nowhere; it declares dep1, which the trusted repo offers: the
    // build flow installs dep1 via the repo batch, builds qux, caches it,
    // and ends with exactly qux's artifact to install
    let alpm = AlpmWrapper::snapshot(vec![], strings(&["dep1"]));
    let mut cache = ArtifactCache::new();
    let plan = plan_install("qux", &alpm, &cache).unwrap();
    assert!(matches!(plan, InstallPlan::BuildFromSource));

    let mut job = BuildJob::new("qux".to_string());
    assert_eq!(job.state, BuildState::Requested);

    let action = job.step(BuildEvent::SourceReady);
    assert!(matches!(action, BuildAction::ReadDescription));
    assert_eq!(job.state, BuildState::SourceFetched);

    let action = job.step(BuildEvent::DescriptionRead {
        content: Some("pkgname = qux\ndepends = dep1\n".to_string()),
    });
    let declared = match action {
        BuildAction::SatisfyDependencies { dependencies } => dependencies,
        _ => panic!("expected a dependency-satisfaction action"),
    };
    assert_eq!(declared, strings(&["dep1"]));
    assert_eq!(job.state, BuildState::DepsExtracted);

    let buckets = classify_dependencies(&declared, &alpm, &cache).unwrap();
    assert_eq!(buckets.trusted_repo, strings(&["dep1"]));
    assert!(buckets.needs_build.is_empty());
    let calls = plan_installer_calls(ResolutionResult {
        trusted_repo_batch: buckets.trusted_repo.clone(),
        artifact_batch: PackageBuilder::dependency_artifact_batch(&buckets, &vec![]),
    });
    assert_eq!(calls.len(), 1);
    assert!(matches!(&calls[0], InstallerCall::InstallFromRepo(v) if v == &strings(&["dep1"])));

    let newly = PackageBuilder::newly_installed_dependencies(&buckets);
    let action = job.step(BuildEvent::DependenciesInstalled { installed: newly });
    assert!(matches!(action, BuildAction::RunBuilder));
    assert_eq!(job.state, BuildState::DepsSatisfied);

    let action = job.step(BuildEvent::BuilderExited { outcome: BuilderOutcome::Success });
    assert!(matches!(action, BuildAction::ListArtifacts));
    assert_eq!(job.state, BuildState::Built);

    let listing = strings(&[
        "qux-1.0-1-x86_64.pkg.tar.zst.sig",
        "qux-debug-1.0-1-x86_64.pkg.tar.zst",
        "qux-1.0-1-x86_64.pkg.tar.zst",
    ]);
    let action = job.step(BuildEvent::ArtifactListing { files: listing });
    let (file_name, sidecar_deps) = match action {
        BuildAction::StoreArtifact { file_name, dependencies } => (file_name, dependencies),
        _ => panic!("expected a store action"),
    };
    assert_eq!(file_name, "qux-1.0-1-x86_64.pkg.tar.zst");
    assert_eq!(sidecar_deps, strings(&["dep1"]));

    PackageBuilder::cache_package(&mut cache, &file_name);
    PackageBuilder::save_dependency_list("qux", &mut cache, &sidecar_deps);
    let action = job.step(BuildEvent::ArtifactStored);
    assert!(matches!(action, BuildAction::Finish));
    assert_eq!(job.state, BuildState::Cached);

    let artifact = job.finish().unwrap();
    assert_eq!(job.state, BuildState::Done);
    assert_eq!(artifact, "qux-1.0-1-x86_64.pkg.tar.zst");
    assert_eq!(PackageBuilder::find_cached_package(&cache, "qux"), Some(artifact.clone()));

    let final_calls = plan_installer_calls(ResolutionResult {
        trusted_repo_batch: vec![],
        artifact_batch: vec![artifact],
    });
    assert_eq!(final_calls.len(), 1);
    assert!(matches!(
        &final_calls[0],
        InstallerCall::InstallFromFiles(v) if v == &strings(&["qux-1.0-1-x86_64.pkg.tar.zst"])
    ));
}

#[test]
fn test_build_failure_on_nonzero_exit() {
    let mut job = BuildJob::new("foo".to_string());
    job.step(BuildEvent::SourceReady);
    job.step(BuildEvent::DescriptionRead { content: Some("depends = a\n".to_string()) });
    job.step(BuildEvent::DependenciesInstalled { installed: vec![] });
    let action = job.step(BuildEvent::BuilderExited {
        outcome: BuilderOutcome::Failure { exit_code: 2, output: "boom".to_string() },
    });
    assert!(matches!(action, BuildAction::Hold));
    assert_eq!(job.state, BuildState::Failed);
    let failure = job.failure.as_ref().unwrap();
    assert_eq!(failure.message(), "makepkg failed during build: Exit code: 2");
}

#[test]
fn test_build_failure_on_missing_description() {
    let mut job = BuildJob::new("foo".to_string());
    job.step(BuildEvent::SourceReady);
    let action = job.step(BuildEvent::DescriptionRead { content: None });
    assert!(matches!(action, BuildAction::Hold));
    assert_eq!(job.state, BuildState::Failed);
    let failure = job.failure.as_ref().unwrap();
    assert_eq!(
        failure.message(),
        "makepkg failed during dependency extraction: .SRCINFO file not found"
    );
}

#[test]
fn test_build_failure_on_clone_error() {
    let mut job = BuildJob::new("foo".to_string());
    let action = job.step(BuildEvent::SourceFailed { reason: "no such repository".to_string() });
    assert!(matches!(action, BuildAction::Hold));
    assert_eq!(job.state, BuildState::Failed);
    let failure = job.failure.as_ref().unwrap();
    assert_eq!(
        failure.message(),
        "Git operation failed (package: foo): Git clone failed: no such repository"
    );
}

#[test]
fn test_build_failure_on_no_artifact() {
    let mut job = BuildJob::new("foo".to_string());
    job.step(BuildEvent::SourceReady);
    job.step(BuildEvent::DescriptionRead { content: Some(String::new()) });
    job.step(BuildEvent::DependenciesInstalled { installed: vec![] });
    job.step(BuildEvent::BuilderExited { outcome: BuilderOutcome::Success });
    let action = job.step(BuildEvent::ArtifactListing {
        files: strings(&["foo-debug-1.0-1-x86_64.pkg.tar.zst", "notes.txt"]),
    });
    assert!(matches!(action, BuildAction::Hold));
    assert_eq!(job.state, BuildState::Failed);
    let failure = job.failure.as_ref().unwrap();
    assert_eq!(
        failure.message(),
        "makepkg failed during package discovery: No valid package file found for foo"
    );
}

#[test]
fn test_mismatched_event_holds() {
    let mut job = BuildJob::new("foo".to_string());
    let action = job.step(BuildEvent::ArtifactStored);
    assert!(matches!(action, BuildAction::Hold));
    assert_eq!(job.state, BuildState::Requested);
    assert!(job.finish().is_none());
    assert_eq!(job.state, BuildState::Requested);
}

#[test]
fn test_plan_removal_with_tracked_deps() {
    let alpm = AlpmWrapper::snapshot(strings(&["bar"]), vec![]);
    let mut cache = ArtifactCache::new();
    PackageBuilder::cache_package(&mut cache, "bar-1.0-1-x86_64.pkg.tar.zst");
    PackageBuilder::save_dependency_list("bar", &mut cache, &strings(&["baz"]));
    let plan = plan_removal("bar", &alpm, &cache).unwrap().unwrap();
    assert_eq!(plan.packages, strings(&["bar", "baz"]));
    assert_eq!(plan.evictions, strings(&["baz", "bar"]));
}

#[test]
fn test_plan_removal_not_installed() {
    let alpm = AlpmWrapper::snapshot(vec![], vec![]);
    let cache = ArtifactCache::new();
    assert!(plan_removal("bar", &alpm, &cache).unwrap().is_none());
}

#[test]
fn test_stale_sidecar_without_artifact_is_cache_miss() {
    // a sidecar alone does not make a package cached
    let alpm = AlpmWrapper::snapshot(vec![], vec![]);
    let mut cache = ArtifactCache::new();
    PackageBuilder::save_dependency_list("ghost", &mut cache, &strings(&["dep"]));
    let plan = plan_install("ghost", &alpm, &cache).unwrap();
    assert!(matches!(plan, InstallPlan::BuildFromSource));
}

#[test]
fn test_classification_error_aborts_install_plan() {
    let alpm = AlpmWrapper::faulty();
    let cache = ArtifactCache::new();
    assert!(plan_install("foo", &alpm, &cache).is_err());
    assert!(plan_removal("foo", &alpm, &cache).is_err());
    assert!(evaluate_update("foo", "1.0-1", &alpm, &cache).is_err());
}

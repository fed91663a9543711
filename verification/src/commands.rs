//! The command surface's decision logic: what each user command does is
//! decided here, against a database snapshot and the cache model, and the
//! surrounding program carries the decisions out.

use vstd::prelude::*;
use vstd::string::*;

use crate::alpm::AlpmWrapper;
use crate::cache::spec_read_deps;
use crate::cache::ArtifactCache;
use crate::cache::find_match;
use crate::cache::is_artifact_name;
use crate::error::AlpmError;
use crate::strutil::append_all;
use crate::strutil::clone_string_vec;
use crate::strutil::find_dash_digit;
use crate::strutil::find_dash_digit_in;
use crate::strutil::find_last;
use crate::strutil::lemma_find_dash_digit_is;
use crate::strutil::lemma_find_last_is;
use crate::strutil::rfind_char_in;
use crate::strutil::seq_ends_with;
use crate::strutil::str_ends_with;

verus! {

/// The commands the tool accepts.
pub enum Commands {
    Search { query: String },
    Install { package: String },
    Info { package: String, deps: bool },
    Remove { package: String },
    List,
    Update { package: String },
}

/// What an install request must do.
pub enum InstallPlan {
    /// The package is already installed: no build, no install call.
    AlreadyInstalled,
    /// A cached artifact serves: install its tracked dependencies first,
    /// then this artifact. No build is issued.
    InstallCached { artifact: String, dependencies: Vec<String> },
    /// Nothing serves: the package must be built from source.
    BuildFromSource,
}

/// Decides an install request: already installed wins, then a cached
/// artifact with its sidecar dependencies, then a build from source. A
/// database failure aborts the request.
pub fn plan_install(package: &str, alpm: &AlpmWrapper, cache: &ArtifactCache) -> (r: Result<
    InstallPlan,
    AlpmError,
>)
    ensures
        alpm.spec_healthy() ==> (r matches Ok(p) && (if alpm.spec_installed().contains(package@) {
            p is AlreadyInstalled
        } else {
            match find_match(cache.spec_files(), package@) {
                Some(f) => p matches InstallPlan::InstallCached { artifact, dependencies }
                    && artifact@ == f && dependencies.deep_view() == spec_read_deps(
                    cache.spec_sidecars(),
                    package@,
                ),
                None => p is BuildFromSource,
            }
        })),
        !alpm.spec_healthy() ==> (r matches Err(e) && e is DatabaseError),
{
    let installed = match alpm.is_package_installed(package) {
        Ok(b) => b,
        Err(e) => {
            return Err(e);
        },
    };
    if installed {
        return Ok(InstallPlan::AlreadyInstalled);
    }
    match cache.find_artifact(package) {
        Some(artifact) => {
            let dependencies = match crate::builder::PackageBuilder::read_dependency_list(
                package,
                cache,
            ) {
                Ok(d) => d,
                Err(_) => {
                    proof {
                        assert(false);
                    }
                    Vec::new()
                },
            };
            Ok(InstallPlan::InstallCached { artifact, dependencies })
        },
        None => Ok(InstallPlan::BuildFromSource),
    }
}

/// What a removal request must do when the package is installed: remove
/// the package and its tracked dependencies from the system, then evict
/// each dependency's cache entry and finally the package's own.
pub struct RemovalPlan {
    pub packages: Vec<String>,
    pub evictions: Vec<String>,
}

/// Decides a removal request: `None` when the package is not installed;
/// otherwise the package with its sidecar dependencies to remove, and the
/// cache evictions to perform, dependencies first.
pub fn plan_removal(package: &str, alpm: &AlpmWrapper, cache: &ArtifactCache) -> (r: Result<
    Option<RemovalPlan>,
    AlpmError,
>)
    ensures
        alpm.spec_healthy() ==> (r matches Ok(opt) && (if alpm.spec_installed().contains(
            package@,
        ) {
            opt matches Some(plan) && plan.packages.deep_view() == seq![package@]
                + spec_read_deps(cache.spec_sidecars(), package@)
                && plan.evictions.deep_view() == spec_read_deps(cache.spec_sidecars(), package@)
                + seq![package@]
        } else {
            opt is None
        })),
        !alpm.spec_healthy() ==> (r matches Err(e) && e is DatabaseError),
{
    let installed = match alpm.is_package_installed(package) {
        Ok(b) => b,
        Err(e) => {
            return Err(e);
        },
    };
    if !installed {
        return Ok(None);
    }
    let deps = match crate::builder::PackageBuilder::read_dependency_list(package, cache) {
        Ok(d) => d,
        Err(_) => {
            proof {
                assert(false);
            }
            Vec::new()
        },
    };
    let mut packages: Vec<String> = Vec::new();
    packages.push(package.to_owned());
    proof {
        assert(packages.deep_view() =~= seq![package@]);
    }
    append_all(&mut packages, &deps);
    let mut evictions = clone_string_vec(&deps);
    let ghost pre = evictions.deep_view();
    evictions.push(package.to_owned());
    proof {
        assert(evictions.deep_view() =~= pre.push(package@));
        assert(pre.push(package@) =~= spec_read_deps(cache.spec_sidecars(), package@) + seq![
            package@
        ]);
    }
    Ok(Some(RemovalPlan { packages, evictions }))
}

/// What a cache listing shows for one artifact filename: the package name
/// and the version, split where the first `-` followed by a digit starts
/// the version and the last `-` starts the architecture; a filename with
/// no recognizable version split reads as `unknown`. `None` for a file
/// that is no artifact.
pub open spec fn spec_parse_artifact(f: Seq<char>) -> Option<(Seq<char>, Seq<char>)> {
    if is_artifact_name(f) {
        let base = f.subrange(
            0,
            f.len() - (if seq_ends_with(f, ".pkg.tar.zst"@) {
                12int
            } else {
                11int
            }),
        );
        let d = find_dash_digit(base);
        if 0 <= d < base.len() {
            let va = base.subrange(d + 1, base.len() as int);
            let a = find_last(va, '-');
            let version = if a >= 0 {
                va.subrange(0, a)
            } else {
                va
            };
            Some((base.subrange(0, d), version))
        } else {
            Some((base, "unknown"@))
        }
    } else {
        None
    }
}

/// Splits a cached artifact filename into package name and version for the
/// listing.
pub fn parse_artifact_filename(file_name: &str) -> (r: Option<(String, String)>)
    ensures
        (r is Some) == (spec_parse_artifact(file_name@) is Some),
        r matches Some(p) ==> spec_parse_artifact(file_name@) == Some((p.0@, p.1@)),
{
    let n = file_name.unicode_len();
    let zst = str_ends_with(file_name, ".pkg.tar.zst");
    let xz = str_ends_with(file_name, ".pkg.tar.xz");
    if !zst && !xz {
        return None;
    }
    proof {
        reveal_strlit(".pkg.tar.zst");
        reveal_strlit(".pkg.tar.xz");
    }
    let suff: usize = if zst {
        12
    } else {
        11
    };
    let hi = n - suff;
    let ghost base = file_name@.subrange(0, hi as int);
    let d = find_dash_digit_in(file_name, hi);
    proof {
        assert forall|k: int|
            0 <= k < d implies !(#[trigger] base[k] == '-' && k + 1 < base.len()
            && crate::strutil::is_digit_char(base[k + 1])) by {
            assert(base[k] == file_name@[k]);
            if k + 1 < base.len() {
                assert(base[k + 1] == file_name@[k + 1]);
            }
        }
        if d < hi {
            assert(base[d as int] == file_name@[d as int]);
            assert(base[d as int + 1] == file_name@[d as int + 1]);
        }
        lemma_find_dash_digit_is(base, d as int);
    }
    if d < hi {
        let name = String::from_str(file_name.substring_char(0, d));
        proof {
            assert(name@ =~= base.subrange(0, d as int));
        }
        let ghost va = base.subrange(d as int + 1, base.len() as int);
        let version = match rfind_char_in(file_name, d + 1, hi, '-') {
            Some(a) => {
                proof {
                    assert forall|k: int| a - d - 1 < k < va.len() implies va[k] != '-' by {
                        assert(va[k] == file_name@[d + 1 + k]);
                    }
                    assert(va[a - d - 1] == file_name@[a as int]);
                    lemma_find_last_is(va, '-', a - d - 1);
                }
                let v = String::from_str(file_name.substring_char(d + 1, a));
                proof {
                    assert(v@ =~= va.subrange(0, a - d - 1));
                }
                v
            },
            None => {
                proof {
                    assert forall|k: int| -1 < k < va.len() implies va[k] != '-' by {
                        assert(va[k] == file_name@[d + 1 + k]);
                    }
                    lemma_find_last_is(va, '-', -1);
                }
                let v = String::from_str(file_name.substring_char(d + 1, hi));
                proof {
                    assert(v@ =~= va);
                }
                v
            },
        };
        Some((name, version))
    } else {
        let name = String::from_str(file_name.substring_char(0, hi));
        proof {
            assert(name@ =~= base);
        }
        Some((name, String::from_str("unknown")))
    }
}

} // verus!

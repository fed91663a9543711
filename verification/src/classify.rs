//! The dependency classifier: assigns each dependency name exactly one tier
//! in the fixed priority order installed, trusted repository, cached,
//! needs-build, by querying the database snapshot first and the artifact
//! cache last. A package found in an earlier tier is never checked against
//! a later one.

use vstd::prelude::*;
use vstd::string::*;

use crate::alpm::AlpmWrapper;
use crate::cache::ArtifactCache;
use crate::cache::find_match;
use crate::error::AlpmError;

verus! {

/// The tier a dependency is classified into.
#[derive(Clone, Copy, Debug, PartialEq, Eq, Structural)]
pub enum Tier {
    Installed,
    TrustedRepo,
    Cached,
    NeedsBuild,
}

/// The tier of one name against a database snapshot and the cache listing:
/// first match in the priority order decides.
pub open spec fn spec_tier(
    name: Seq<char>,
    installed: Seq<Seq<char>>,
    available: Seq<Seq<char>>,
    files: Seq<Seq<char>>,
) -> Tier {
    if installed.contains(name) {
        Tier::Installed
    } else if available.contains(name) {
        Tier::TrustedRepo
    } else if find_match(files, name) is Some {
        Tier::Cached
    } else {
        Tier::NeedsBuild
    }
}

/// The members of `deps` classified into tier `t`, in input order.
pub open spec fn bucket(
    deps: Seq<Seq<char>>,
    installed: Seq<Seq<char>>,
    available: Seq<Seq<char>>,
    files: Seq<Seq<char>>,
    t: Tier,
) -> Seq<Seq<char>> {
    deps.filter(|d: Seq<char>| spec_tier(d, installed, available, files) == t)
}

/// One classification pass's output: the four tiers of the input list,
/// each bucket preserving input order, and for every cached dependency the
/// artifact filename that the cache lookup returned.
pub struct DependencyBuckets {
    pub installed: Vec<String>,
    pub trusted_repo: Vec<String>,
    pub cached: Vec<String>,
    pub cached_paths: Vec<String>,
    pub needs_build: Vec<String>,
}

/// The tier of a single dependency, or the database error that stopped the
/// query.
pub fn classify_dependency(name: &str, alpm: &AlpmWrapper, cache: &ArtifactCache) -> (r: Result<
    Tier,
    AlpmError,
>)
    ensures
        alpm.spec_healthy() ==> r == Ok::<Tier, AlpmError>(
            spec_tier(name@, alpm.spec_installed(), alpm.spec_available(), cache.spec_files()),
        ),
        !alpm.spec_healthy() ==> (r matches Err(e) && e is DatabaseError),
{
    let installed = match alpm.is_package_installed(name) {
        Ok(b) => b,
        Err(e) => {
            return Err(e);
        },
    };
    if installed {
        return Ok(Tier::Installed);
    }
    let available = match alpm.is_package_available(name) {
        Ok(b) => b,
        Err(e) => {
            return Err(e);
        },
    };
    if available {
        return Ok(Tier::TrustedRepo);
    }
    match cache.find_artifact(name) {
        Some(_) => Ok(Tier::Cached),
        None => Ok(Tier::NeedsBuild),
    }
}

proof fn lemma_filter_take_step(s: Seq<Seq<char>>, pred: spec_fn(Seq<char>) -> bool, i: int)
    requires
        0 <= i < s.len(),
    ensures
        s.take(i + 1).filter(pred) == (if pred(s[i]) {
            s.take(i).filter(pred).push(s[i])
        } else {
            s.take(i).filter(pred)
        }),
{
    reveal(Seq::filter);
    assert(s.take(i + 1).drop_last() =~= s.take(i));
    assert(s.take(i + 1).last() == s[i]);
}

proof fn lemma_filter_membership(s: Seq<Seq<char>>, pred: spec_fn(Seq<char>) -> bool, x: Seq<char>)
    ensures
        s.filter(pred).contains(x) <==> (s.contains(x) && pred(x)),
    decreases s.len(),
{
    reveal(Seq::filter);
    if s.len() > 0 {
        lemma_filter_membership(s.drop_last(), pred, x);
        let prev = s.drop_last().filter(pred);
        let cur = s.filter(pred);
        if s.contains(x) && pred(x) {
            if s.last() == x {
                assert(cur[cur.len() - 1] == x);
                assert(cur.contains(x));
            } else {
                let k = choose|k: int| 0 <= k < s.len() && s[k] == x;
                assert(s.drop_last()[k] == x);
                assert(s.drop_last().contains(x));
                let m = choose|m: int| 0 <= m < prev.len() && prev[m] == x;
                assert(cur[m] == x);
                assert(cur.contains(x));
            }
        }
        if cur.contains(x) {
            let m = choose|m: int| 0 <= m < cur.len() && cur[m] == x;
            if pred(s.last()) {
                if m == cur.len() - 1 && s.last() == x {
                    assert(s[s.len() - 1] == x);
                    assert(s.contains(x) && pred(x));
                } else {
                    assert(prev[m] == x);
                    assert(prev.contains(x));
                    assert(s.drop_last().contains(x));
                    let k = choose|k: int| 0 <= k < s.drop_last().len() && s.drop_last()[k] == x;
                    assert(s[k] == x);
                    assert(s.contains(x) && pred(x));
                }
            } else {
                assert(prev.contains(x));
                let k = choose|k: int| 0 <= k < s.drop_last().len() && s.drop_last()[k] == x;
                assert(s[k] == x);
                assert(s.contains(x) && pred(x));
            }
        }
    }
}

/// Classification partitions: over any dependency list, the buckets are
/// pairwise disjoint, and together the three non-installed buckets hold
/// exactly the input names that are not already installed.
pub proof fn lemma_classification_partitions(
    deps: Seq<Seq<char>>,
    installed: Seq<Seq<char>>,
    available: Seq<Seq<char>>,
    files: Seq<Seq<char>>,
)
    ensures
        forall|d: Seq<char>, t1: Tier, t2: Tier|
            t1 != t2 ==> !(#[trigger] bucket(deps, installed, available, files, t1).contains(d)
                && #[trigger] bucket(deps, installed, available, files, t2).contains(d)),
        forall|d: Seq<char>|
            (#[trigger] bucket(deps, installed, available, files, Tier::TrustedRepo).contains(d)
                || bucket(deps, installed, available, files, Tier::Cached).contains(d) || bucket(
                deps,
                installed,
                available,
                files,
                Tier::NeedsBuild,
            ).contains(d)) <==> (deps.contains(d) && !installed.contains(d)),
{
    assert forall|d: Seq<char>, t1: Tier, t2: Tier| t1 != t2 implies !(#[trigger] bucket(
        deps,
        installed,
        available,
        files,
        t1,
    ).contains(d) && #[trigger] bucket(deps, installed, available, files, t2).contains(d)) by {
        lemma_filter_membership(
            deps,
            |x: Seq<char>| spec_tier(x, installed, available, files) == t1,
            d,
        );
        lemma_filter_membership(
            deps,
            |x: Seq<char>| spec_tier(x, installed, available, files) == t2,
            d,
        );
    }
    assert forall|d: Seq<char>|
        (#[trigger] bucket(deps, installed, available, files, Tier::TrustedRepo).contains(d)
            || bucket(deps, installed, available, files, Tier::Cached).contains(d) || bucket(
            deps,
            installed,
            available,
            files,
            Tier::NeedsBuild,
        ).contains(d)) <==> (deps.contains(d) && !installed.contains(d)) by {
        lemma_filter_membership(
            deps,
            |x: Seq<char>| spec_tier(x, installed, available, files) == Tier::TrustedRepo,
            d,
        );
        lemma_filter_membership(
            deps,
            |x: Seq<char>| spec_tier(x, installed, available, files) == Tier::Cached,
            d,
        );
        lemma_filter_membership(
            deps,
            |x: Seq<char>| spec_tier(x, installed, available, files) == Tier::NeedsBuild,
            d,
        );
    }
}

/// Tier priority: a package that is installed is classified `Installed`,
/// never `Cached`, whatever the cache holds.
pub proof fn lemma_tier_priority(
    name: Seq<char>,
    installed: Seq<Seq<char>>,
    available: Seq<Seq<char>>,
    files: Seq<Seq<char>>,
)
    requires
        installed.contains(name),
    ensures
        spec_tier(name, installed, available, files) == Tier::Installed,
{
}

/// Classifies every dependency in order against one snapshot, filling the
/// four buckets; any database failure aborts the whole pass.
pub fn classify_dependencies(deps: &Vec<String>, alpm: &AlpmWrapper, cache: &ArtifactCache) -> (r:
    Result<DependencyBuckets, AlpmError>)
    ensures
        (alpm.spec_healthy() || deps@.len() == 0) ==> (r matches Ok(b) && b.installed.deep_view()
            == bucket(
            deps.deep_view(),
            alpm.spec_installed(),
            alpm.spec_available(),
            cache.spec_files(),
            Tier::Installed,
        ) && b.trusted_repo.deep_view() == bucket(
            deps.deep_view(),
            alpm.spec_installed(),
            alpm.spec_available(),
            cache.spec_files(),
            Tier::TrustedRepo,
        ) && b.cached.deep_view() == bucket(
            deps.deep_view(),
            alpm.spec_installed(),
            alpm.spec_available(),
            cache.spec_files(),
            Tier::Cached,
        ) && b.cached_paths.deep_view() == bucket(
            deps.deep_view(),
            alpm.spec_installed(),
            alpm.spec_available(),
            cache.spec_files(),
            Tier::Cached,
        ).map_values(|d: Seq<char>| find_match(cache.spec_files(), d).unwrap())
            && b.needs_build.deep_view() == bucket(
            deps.deep_view(),
            alpm.spec_installed(),
            alpm.spec_available(),
            cache.spec_files(),
            Tier::NeedsBuild,
        )),
        (!alpm.spec_healthy() && deps@.len() > 0) ==> (r matches Err(e) && e is DatabaseError),
{
    let ghost dv = deps.deep_view();
    let ghost gi = alpm.spec_installed();
    let ghost ga = alpm.spec_available();
    let ghost gf = cache.spec_files();
    let mut installed_b: Vec<String> = Vec::new();
    let mut trusted_b: Vec<String> = Vec::new();
    let mut cached_b: Vec<String> = Vec::new();
    let mut cached_paths_b: Vec<String> = Vec::new();
    let mut needs_b: Vec<String> = Vec::new();
    let mut i: usize = 0;
    proof {
        reveal(Seq::filter);
        assert(dv.take(0).filter(|d: Seq<char>| spec_tier(d, gi, ga, gf) == Tier::Installed)
            =~= Seq::<Seq<char>>::empty());
    }
    while i < deps.len()
        invariant
            0 <= i <= deps@.len(),
            dv == deps.deep_view(),
            gi == alpm.spec_installed(),
            ga == alpm.spec_available(),
            gf == cache.spec_files(),
            installed_b.deep_view() == dv.take(i as int).filter(
                |d: Seq<char>| spec_tier(d, gi, ga, gf) == Tier::Installed,
            ),
            trusted_b.deep_view() == dv.take(i as int).filter(
                |d: Seq<char>| spec_tier(d, gi, ga, gf) == Tier::TrustedRepo,
            ),
            cached_b.deep_view() == dv.take(i as int).filter(
                |d: Seq<char>| spec_tier(d, gi, ga, gf) == Tier::Cached,
            ),
            cached_paths_b.deep_view() == dv.take(i as int).filter(
                |d: Seq<char>| spec_tier(d, gi, ga, gf) == Tier::Cached,
            ).map_values(|d: Seq<char>| find_match(gf, d).unwrap()),
            needs_b.deep_view() == dv.take(i as int).filter(
                |d: Seq<char>| spec_tier(d, gi, ga, gf) == Tier::NeedsBuild,
            ),
            i > 0 ==> alpm.spec_healthy(),
        decreases deps@.len() - i,
    {
        let name = &deps[i];
        let tier = match classify_dependency(name.as_str(), alpm, cache) {
            Ok(t) => t,
            Err(e) => {
                return Err(e);
            },
        };
        proof {
            assert(dv[i as int] == name@);
            lemma_filter_take_step(
                dv,
                |d: Seq<char>| spec_tier(d, gi, ga, gf) == Tier::Installed,
                i as int,
            );
            lemma_filter_take_step(
                dv,
                |d: Seq<char>| spec_tier(d, gi, ga, gf) == Tier::TrustedRepo,
                i as int,
            );
            lemma_filter_take_step(
                dv,
                |d: Seq<char>| spec_tier(d, gi, ga, gf) == Tier::Cached,
                i as int,
            );
            lemma_filter_take_step(
                dv,
                |d: Seq<char>| spec_tier(d, gi, ga, gf) == Tier::NeedsBuild,
                i as int,
            );
        }
        match tier {
            Tier::Installed => {
                let ghost pre = installed_b.deep_view();
                installed_b.push(name.clone());
                proof {
                    assert(installed_b.deep_view() =~= pre.push(name@));
                }
            },
            Tier::TrustedRepo => {
                let ghost pre = trusted_b.deep_view();
                trusted_b.push(name.clone());
                proof {
                    assert(trusted_b.deep_view() =~= pre.push(name@));
                }
            },
            Tier::Cached => {
                let ghost pre = cached_b.deep_view();
                let ghost prep = cached_paths_b.deep_view();
                cached_b.push(name.clone());
                let path = match cache.find_artifact(name.as_str()) {
                    Some(p) => p,
                    None => {
                        proof {
                            assert(false);
                        }
                        String::new()
                    },
                };
                cached_paths_b.push(path);
                proof {
                    assert(cached_b.deep_view() =~= pre.push(name@));
                    assert(cached_paths_b.deep_view() =~= prep.push(
                        find_match(gf, name@).unwrap(),
                    ));
                    assert(dv.take(i + 1).filter(
                        |d: Seq<char>| spec_tier(d, gi, ga, gf) == Tier::Cached,
                    ).map_values(|d: Seq<char>| find_match(gf, d).unwrap()) =~= dv.take(
                        i as int,
                    ).filter(|d: Seq<char>| spec_tier(d, gi, ga, gf) == Tier::Cached).map_values(
                        |d: Seq<char>| find_match(gf, d).unwrap(),
                    ).push(find_match(gf, name@).unwrap()));
                }
            },
            Tier::NeedsBuild => {
                let ghost pre = needs_b.deep_view();
                needs_b.push(name.clone());
                proof {
                    assert(needs_b.deep_view() =~= pre.push(name@));
                }
            },
        }
        i += 1;
    }
    proof {
        assert(dv.take(dv.len() as int) =~= dv);
    }
    Ok(
        DependencyBuckets {
            installed: installed_b,
            trusted_repo: trusted_b,
            cached: cached_b,
            cached_paths: cached_paths_b,
            needs_build: needs_b,
        },
    )
}

} // verus!

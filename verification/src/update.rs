//! The update evaluator: reads the cached artifact's version out of its
//! filename, compares it with the version the remote index reports, in a
//! total order over version strings, and decides whether a rebuild-and-
//! replace cycle is due. A package with no readable cached version carries
//! the sentinel `unknown`, which parses as no version and so orders below
//! any parsed remote version.

use vstd::prelude::*;
use vstd::string::*;

use crate::alpm::AlpmWrapper;
use crate::cache::ArtifactCache;
use crate::cache::find_match;
use crate::error::AlpmError;
use crate::strutil::find_from;
use crate::strutil::lemma_find_from_is;
use crate::strutil::seq_starts_with;
use crate::strutil::str_starts_with;
use crate::strutil::find_char_from;

verus! {

/// Whether version string `a` orders strictly below version string `b`,
/// in the total order of the version-comparison library.
pub uninterp spec fn version_precedes(a: Seq<char>, b: Seq<char>) -> bool;

/// Relies on versions::Version: `Version::new` parses a version string
/// (`None` for an unparsable one) and the parse results compare in the
/// crate's total order, an unparsed result ordering below any parsed one.
/// The outcome depends on the two strings alone, so equal strings compare
/// equal and neither precedes the other.
#[verifier::external_body]
fn version_lt(a: &str, b: &str) -> (r: bool)
    ensures
        r == version_precedes(a@, b@),
        a@ == b@ ==> r == false,
{
    versions::Version::new(a) < versions::Version::new(b)
}

/// The `version-release` segment embedded in an artifact filename: the text
/// between the first `-` after the exact package-name prefix and the third
/// such `-` (or the end), which joins the second and third `-`-delimited
/// fields. `None` when the prefix is absent or fewer than two `-` follow it.
pub open spec fn spec_version_from_filename(file: Seq<char>, name: Seq<char>) -> Option<Seq<char>> {
    if seq_starts_with(file, name) {
        let stripped = file.subrange(name.len() as int, file.len() as int);
        let p1 = find_from(stripped, '-');
        if p1 < stripped.len() {
            let rest1 = stripped.subrange(p1 + 1, stripped.len() as int);
            let p2 = p1 + 1 + find_from(rest1, '-');
            if p2 < stripped.len() {
                let rest2 = stripped.subrange(p2 + 1, stripped.len() as int);
                let p3 = p2 + 1 + find_from(rest2, '-');
                Some(stripped.subrange(p1 + 1, p3))
            } else {
                None
            }
        } else {
            None
        }
    } else {
        None
    }
}

/// Reads the `version-release` pair out of a cached artifact's filename.
pub fn extract_version_from_filename(file_name: &str, package_name: &str) -> (r: Option<String>)
    ensures
        r.deep_view() == spec_version_from_filename(file_name@, package_name@),
{
    if !str_starts_with(file_name, package_name) {
        return None;
    }
    let n = file_name.unicode_len();
    let start = package_name.unicode_len();
    let ghost stripped = file_name@.subrange(start as int, n as int);
    let p1 = find_char_from(file_name, start, '-');
    proof {
        assert forall|k: int| 0 <= k < p1 - start implies stripped[k] != '-' by {
            assert(stripped[k] == file_name@[start + k]);
        }
        if p1 < n {
            assert(stripped[p1 - start] == file_name@[p1 as int]);
        }
        lemma_find_from_is(stripped, '-', p1 - start);
    }
    if p1 == n {
        return None;
    }
    let p2 = find_char_from(file_name, p1 + 1, '-');
    let ghost rest1 = stripped.subrange(p1 - start + 1, stripped.len() as int);
    proof {
        assert forall|k: int| 0 <= k < p2 - p1 - 1 implies rest1[k] != '-' by {
            assert(rest1[k] == file_name@[p1 + 1 + k]);
        }
        if p2 < n {
            assert(rest1[p2 - p1 - 1] == file_name@[p2 as int]);
        }
        lemma_find_from_is(rest1, '-', p2 - p1 - 1);
    }
    if p2 == n {
        return None;
    }
    let p3 = find_char_from(file_name, p2 + 1, '-');
    let ghost rest2 = stripped.subrange(p2 - start + 1, stripped.len() as int);
    proof {
        assert forall|k: int| 0 <= k < p3 - p2 - 1 implies rest2[k] != '-' by {
            assert(rest2[k] == file_name@[p2 + 1 + k]);
        }
        if p3 < n {
            assert(rest2[p3 - p2 - 1] == file_name@[p3 as int]);
        }
        lemma_find_from_is(rest2, '-', p3 - p2 - 1);
    }
    let out = String::from_str(file_name.substring_char(p1 + 1, p3));
    proof {
        assert(stripped.subrange(p1 - start + 1, p3 - start) =~= file_name@.subrange(
            p1 + 1,
            p3 as int,
        ));
    }
    Some(out)
}

/// The version a cached artifact of the package carries, or `unknown` when
/// no artifact is cached or its filename does not parse.
pub open spec fn spec_cached_version(files: Seq<Seq<char>>, name: Seq<char>) -> Seq<char> {
    match find_match(files, name) {
        Some(f) => match spec_version_from_filename(f, name) {
            Some(v) => v,
            None => "unknown"@,
        },
        None => "unknown"@,
    }
}

/// The version string of the package's cached artifact, `unknown` if none.
pub fn cached_version(cache: &ArtifactCache, package_name: &str) -> (r: String)
    ensures
        r@ == spec_cached_version(cache.spec_files(), package_name@),
{
    match cache.find_artifact(package_name) {
        Some(f) => match extract_version_from_filename(f.as_str(), package_name) {
            Some(v) => v,
            None => String::from_str("unknown"),
        },
        None => String::from_str("unknown"),
    }
}

/// What one update check concludes.
#[derive(Clone, Copy, Debug, PartialEq, Eq, Structural)]
pub enum UpdateDecision {
    NotInstalled,
    UpToDate,
    Rebuild,
}

/// The decision owed for a package: rebuild exactly when it is installed
/// and its cached version orders strictly below the remote one.
pub open spec fn spec_update_decision(
    installed: Seq<Seq<char>>,
    files: Seq<Seq<char>>,
    name: Seq<char>,
    remote: Seq<char>,
) -> UpdateDecision {
    if !installed.contains(name) {
        UpdateDecision::NotInstalled
    } else if version_precedes(spec_cached_version(files, name), remote) {
        UpdateDecision::Rebuild
    } else {
        UpdateDecision::UpToDate
    }
}

/// Compares the cached artifact's version with the remote one and decides
/// whether to rebuild; a database failure aborts the check.
pub fn evaluate_update(
    package_name: &str,
    remote_version: &str,
    alpm: &AlpmWrapper,
    cache: &ArtifactCache,
) -> (r: Result<UpdateDecision, AlpmError>)
    ensures
        alpm.spec_healthy() ==> r == Ok::<UpdateDecision, AlpmError>(
            spec_update_decision(
                alpm.spec_installed(),
                cache.spec_files(),
                package_name@,
                remote_version@,
            ),
        ),
        !alpm.spec_healthy() ==> (r matches Err(e) && e is DatabaseError),
{
    let installed = match alpm.is_package_installed(package_name) {
        Ok(b) => b,
        Err(e) => {
            return Err(e);
        },
    };
    if !installed {
        return Ok(UpdateDecision::NotInstalled);
    }
    let cached = cached_version(cache, package_name);
    if version_lt(cached.as_str(), remote_version) {
        Ok(UpdateDecision::Rebuild)
    } else {
        Ok(UpdateDecision::UpToDate)
    }
}

} // verus!

//! The installed-state oracle and trusted-repository index, modeled as a
//! snapshot of the system package database. The live database is an external
//! resource; callers re-query it (that is, build a fresh snapshot) after
//! every mutating batch, so a snapshot is exactly what one classification
//! pass may rely on. A snapshot can also be marked unhealthy, which makes
//! every query fail the way a broken database connection would.

use vstd::prelude::*;
use vstd::string::*;

use crate::error::AlpmError;
use crate::strutil::find_char_from;
use crate::strutil::lemma_find_from_is;
use crate::strutil::spec_lines;
use crate::strutil::spec_trim;
use crate::strutil::trim_in;
use crate::strutil::vec_contains_str;

verus! {

/// Whether the two characters are equal up to ASCII case.
pub open spec fn char_eq_ignore_case(a: char, b: char) -> bool {
    a == b || (65 <= a as u32 <= 90 && a as u32 + 32 == b as u32) || (65 <= b as u32 <= 90 && b
        as u32 + 32 == a as u32)
}

/// Whether the two texts are equal up to ASCII case.
pub open spec fn eq_ignore_case(a: Seq<char>, b: Seq<char>) -> bool {
    a.len() == b.len() && forall|i: int| 0 <= i < a.len() ==> char_eq_ignore_case(a[i], b[i])
}

/// The repository a configuration line enables, if any: a trimmed line of
/// the form `[name]`, except the `options` and `multilib` sections, which
/// are skipped (case-insensitively, as the package manager reads them).
pub open spec fn repo_of_line(line: Seq<char>) -> Option<Seq<char>> {
    let t = spec_trim(line);
    if t.len() >= 2 && t[0] == '[' && t.last() == ']' {
        let name = t.subrange(1, t.len() - 1);
        if eq_ignore_case(name, "options"@) || eq_ignore_case(name, "multilib"@) {
            None
        } else {
            Some(name)
        }
    } else {
        None
    }
}

/// Every repository the configuration lines enable, in file order.
pub open spec fn repos_from_lines(lines: Seq<Seq<char>>) -> Seq<Seq<char>>
    decreases lines.len(),
{
    if lines.len() == 0 {
        Seq::empty()
    } else {
        let prev = repos_from_lines(lines.drop_last());
        match repo_of_line(lines.last()) {
            Some(name) => prev.push(name),
            None => prev,
        }
    }
}

/// The repositories a package-manager configuration text enables.
pub open spec fn spec_syncdbs(text: Seq<char>) -> Seq<Seq<char>> {
    repos_from_lines(spec_lines(text))
}

proof fn lemma_repos_push(lines: Seq<Seq<char>>, l: Seq<char>)
    ensures
        repos_from_lines(lines.push(l)) == (match repo_of_line(l) {
            Some(name) => repos_from_lines(lines).push(name),
            None => repos_from_lines(lines),
        }),
{
    assert(lines.push(l).drop_last() =~= lines);
    assert(lines.push(l).last() == l);
}

/// Whether two strings are equal up to ASCII case.
fn str_eq_ignore_case(a: &str, b: &str) -> (r: bool)
    ensures
        r == eq_ignore_case(a@, b@),
{
    let na = a.unicode_len();
    let nb = b.unicode_len();
    if na != nb {
        return false;
    }
    let mut i: usize = 0;
    while i < na
        invariant
            na == a@.len(),
            na == b@.len(),
            0 <= i <= na,
            forall|k: int| 0 <= k < i ==> char_eq_ignore_case(a@[k], b@[k]),
        decreases na - i,
    {
        let ca = a.get_char(i) as u32;
        let cb = b.get_char(i) as u32;
        let same = ca == cb || (65 <= ca && ca <= 90 && ca + 32 == cb) || (65 <= cb && cb <= 90
            && cb + 32 == ca);
        if !same {
            return false;
        }
        i += 1;
    }
    true
}

/// A snapshot of the system package database: which packages are installed
/// and which are available from the trusted repositories.
pub struct AlpmWrapper {
    installed: Vec<String>,
    available: Vec<String>,
    healthy: bool,
}

impl AlpmWrapper {
    /// The installed packages this snapshot reports.
    pub closed spec fn spec_installed(self) -> Seq<Seq<char>> {
        self.installed.deep_view()
    }

    /// The trusted-repository packages this snapshot reports.
    pub closed spec fn spec_available(self) -> Seq<Seq<char>> {
        self.available.deep_view()
    }

    /// Whether queries against this snapshot succeed.
    pub closed spec fn spec_healthy(self) -> bool {
        self.healthy
    }

    /// An empty, healthy snapshot: nothing installed, nothing available.
    pub fn new() -> (r: Result<AlpmWrapper, AlpmError>)
        ensures
            (r matches Ok(a) && a.spec_healthy() && a.spec_installed() =~= Seq::<Seq<char>>::empty()
                && a.spec_available() =~= Seq::<Seq<char>>::empty()),
    {
        Ok(AlpmWrapper { installed: Vec::new(), available: Vec::new(), healthy: true })
    }

    /// A healthy snapshot holding the given database contents.
    pub fn snapshot(installed: Vec<String>, available: Vec<String>) -> (r: AlpmWrapper)
        ensures
            r.spec_healthy(),
            r.spec_installed() == installed.deep_view(),
            r.spec_available() == available.deep_view(),
    {
        AlpmWrapper { installed, available, healthy: true }
    }

    /// A snapshot whose every query fails, as from a broken database.
    pub fn faulty() -> (r: AlpmWrapper)
        ensures
            !r.spec_healthy(),
    {
        AlpmWrapper { installed: Vec::new(), available: Vec::new(), healthy: false }
    }

    /// The sync databases a package-manager configuration text enables,
    /// in file order: each `[section]` line but `options` and `multilib`.
    /// The caller registers each of them against the live database.
    pub fn load_syncdbs_from_pacman_conf(content: &str) -> (r: Vec<String>)
        ensures
            r.deep_view() == spec_syncdbs(content@),
    {
        let mut repos: Vec<String> = Vec::new();
        let n = content.unicode_len();
        let mut pos: usize = 0;
        let ghost mut done: Seq<Seq<char>> = Seq::empty();
        proof {
            assert(content@.subrange(0, n as int) =~= content@);
            assert(done + spec_lines(content@) =~= spec_lines(content@));
            assert(repos.deep_view() =~= repos_from_lines(done));
        }
        while pos < n
            invariant
                n == content@.len(),
                0 <= pos <= n,
                spec_lines(content@) == done + spec_lines(content@.subrange(pos as int, n as int)),
                repos.deep_view() == repos_from_lines(done),
            decreases n - pos,
        {
            let j = find_char_from(content, pos, '\n');
            let ghost rest = content@.subrange(pos as int, n as int);
            proof {
                assert forall|k: int| 0 <= k < j - pos implies rest[k] != '\n' by {
                    assert(rest[k] == content@[pos + k]);
                }
                if j - pos < rest.len() {
                    assert(rest[j - pos] == content@[j as int]);
                }
                lemma_find_from_is(rest, '\n', j - pos);
            }
            let line = content.substring_char(pos, j);
            proof {
                assert(line@ =~= rest.subrange(0, j - pos));
            }
            match Self::repo_token_of_line(line) {
                Some(name) => {
                    let ghost pre = repos.deep_view();
                    let ghost nv = name@;
                    repos.push(name);
                    proof {
                        assert(repos.deep_view() =~= pre.push(nv));
                    }
                },
                None => {},
            }
            proof {
                lemma_repos_push(done, line@);
                if j < n {
                    assert(spec_lines(rest) =~= seq![line@] + spec_lines(
                        rest.subrange(j - pos + 1, rest.len() as int),
                    ));
                    assert(rest.subrange(j - pos + 1, rest.len() as int) =~= content@.subrange(
                        j + 1,
                        n as int,
                    ));
                    assert(done + spec_lines(rest) =~= done.push(line@) + spec_lines(
                        content@.subrange(j + 1, n as int),
                    ));
                } else {
                    assert(line@ =~= rest);
                    assert(spec_lines(rest) =~= seq![rest]);
                    assert(done + spec_lines(rest) =~= done.push(line@) + spec_lines(
                        content@.subrange(n as int, n as int),
                    ));
                }
                done = done.push(line@);
            }
            if j < n {
                pos = j + 1;
            } else {
                pos = n;
            }
        }
        proof {
            assert(spec_lines(content@.subrange(n as int, n as int)) =~= Seq::<Seq<char>>::empty());
            assert(done + Seq::<Seq<char>>::empty() =~= done);
        }
        repos
    }

    /// The repository one configuration line enables, if any.
    fn repo_token_of_line(line: &str) -> (r: Option<String>)
        ensures
            r.deep_view() == repo_of_line(line@),
    {
        let n = line.unicode_len();
        let (a, b) = trim_in(line, 0, n);
        proof {
            assert(line@.subrange(0, n as int) =~= line@);
        }
        let ghost t = spec_trim(line@);
        proof {
            assert(line@.subrange(a as int, b as int) == t);
        }
        if b - a < 2 {
            return None;
        }
        proof {
            assert(t[0] == line@[a as int]);
            assert(t.last() == line@[b - 1]);
        }
        if line.get_char(a) != '[' {
            return None;
        }
        if line.get_char(b - 1) != ']' {
            return None;
        }
        let name = line.substring_char(a + 1, b - 1);
        proof {
            assert(name@ =~= t.subrange(1, t.len() - 1));
        }
        if str_eq_ignore_case(name, "options") || str_eq_ignore_case(name, "multilib") {
            return None;
        }
        Some(String::from_str(name))
    }

    /// Whether the package is installed, per this snapshot.
    pub fn is_package_installed(&self, package_name: &str) -> (r: Result<bool, AlpmError>)
        ensures
            self.spec_healthy() ==> r == Ok::<bool, AlpmError>(
                self.spec_installed().contains(package_name@),
            ),
            !self.spec_healthy() ==> (r matches Err(e) && e is DatabaseError),
    {
        if !self.healthy {
            return Err(AlpmError::DatabaseError(String::from_str("Database query failed")));
        }
        Ok(vec_contains_str(&self.installed, package_name))
    }

    /// Whether the package is available in a trusted repository, per this
    /// snapshot.
    pub fn is_package_available(&self, package_name: &str) -> (r: Result<bool, AlpmError>)
        ensures
            self.spec_healthy() ==> r == Ok::<bool, AlpmError>(
                self.spec_available().contains(package_name@),
            ),
            !self.spec_healthy() ==> (r matches Err(e) && e is DatabaseError),
    {
        if !self.healthy {
            return Err(AlpmError::DatabaseError(String::from_str("Database query failed")));
        }
        Ok(vec_contains_str(&self.available, package_name))
    }
}

} // verus!

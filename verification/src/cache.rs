//! The artifact cache: an in-memory model of the cache directory, holding
//! the artifact filenames present and, per package, one sidecar recording
//! the dependency list used at build time. Lookup is by filename convention:
//! the exact package-name prefix and a recognized artifact suffix, first
//! match wins. The directory itself is an external resource; callers mirror
//! its listing into this model and replay the model's changes onto disk.

use vstd::prelude::*;
use vstd::string::*;

use crate::strutil::seq_ends_with;
use crate::strutil::seq_starts_with;
use crate::strutil::spec_lines;
use crate::strutil::str_ends_with;
use crate::strutil::str_eq;
use crate::strutil::str_starts_with;
use crate::strutil::find_from;
use crate::strutil::lemma_find_from_bounds;
use crate::strutil::lemma_find_from_is;

verus! {

/// Whether a filename carries one of the recognized artifact suffixes.
pub open spec fn is_artifact_name(f: Seq<char>) -> bool {
    seq_ends_with(f, ".pkg.tar.zst"@) || seq_ends_with(f, ".pkg.tar.xz"@)
}

/// Whether a filename names an artifact of the given package.
pub open spec fn matches_package(f: Seq<char>, name: Seq<char>) -> bool {
    seq_starts_with(f, name) && is_artifact_name(f)
}

/// The first filename in `files` that names an artifact of `name`.
pub open spec fn find_match(files: Seq<Seq<char>>, name: Seq<char>) -> Option<Seq<char>>
    decreases files.len(),
{
    if files.len() == 0 {
        None
    } else if matches_package(files.first(), name) {
        Some(files.first())
    } else {
        find_match(files.drop_first(), name)
    }
}

/// The content of the first sidecar recorded under `name`.
pub open spec fn sidecar_lookup(sc: Seq<(Seq<char>, Seq<char>)>, name: Seq<char>) -> Option<
    Seq<char>,
>
    decreases sc.len(),
{
    if sc.len() == 0 {
        None
    } else if sc.first().0 == name {
        Some(sc.first().1)
    } else {
        sidecar_lookup(sc.drop_first(), name)
    }
}

/// The sidecar text encoding of a dependency list: names joined by
/// newlines, nothing else.
pub open spec fn join_lines(items: Seq<Seq<char>>) -> Seq<char>
    decreases items.len(),
{
    if items.len() == 0 {
        Seq::empty()
    } else if items.len() == 1 {
        items.first()
    } else {
        items.first() + seq!['\n'] + join_lines(items.drop_first())
    }
}

/// An index with the first-match properties determines `find_match`.
pub proof fn lemma_find_match_at(files: Seq<Seq<char>>, name: Seq<char>, i: int)
    requires
        0 <= i <= files.len(),
        forall|k: int| 0 <= k < i ==> !matches_package(files[k], name),
        i < files.len() ==> matches_package(files[i], name),
    ensures
        find_match(files, name) == (if i < files.len() {
            Some(files[i])
        } else {
            None::<Seq<char>>
        }),
    decreases i,
{
    if i == 0 {
    } else {
        assert(!matches_package(files[0], name));
        lemma_find_match_at(files.drop_first(), name, i - 1);
    }
}

/// When no filename matches, `find_match` says so of every index.
pub proof fn lemma_find_match_none(files: Seq<Seq<char>>, name: Seq<char>)
    requires
        find_match(files, name) is None,
    ensures
        forall|i: int| 0 <= i < files.len() ==> !matches_package(files[i], name),
    decreases files.len(),
{
    if files.len() > 0 {
        lemma_find_match_none(files.drop_first(), name);
        assert forall|i: int| 0 <= i < files.len() implies !matches_package(files[i], name) by {
            if i > 0 {
                assert(!matches_package(files.drop_first()[i - 1], name));
            }
        }
    }
}

/// An index with the first-match properties determines `sidecar_lookup`.
pub proof fn lemma_sidecar_lookup_at(sc: Seq<(Seq<char>, Seq<char>)>, name: Seq<char>, i: int)
    requires
        0 <= i <= sc.len(),
        forall|k: int| 0 <= k < i ==> sc[k].0 != name,
        i < sc.len() ==> sc[i].0 == name,
    ensures
        sidecar_lookup(sc, name) == (if i < sc.len() {
            Some(sc[i].1)
        } else {
            None::<Seq<char>>
        }),
    decreases i,
{
    if i == 0 {
    } else {
        assert(sc[0].0 != name);
        lemma_sidecar_lookup_at(sc.drop_first(), name, i - 1);
    }
}

/// Removing an entry recorded under a different name leaves a lookup
/// unchanged.
proof fn lemma_lookup_remove_other(sc: Seq<(Seq<char>, Seq<char>)>, i: int, o: Seq<char>)
    requires
        0 <= i < sc.len(),
        sc[i].0 != o,
    ensures
        sidecar_lookup(sc.remove(i), o) == sidecar_lookup(sc, o),
    decreases i,
{
    if i == 0 {
        assert(sc.remove(0) =~= sc.drop_first());
    } else {
        assert(sc.remove(i).drop_first() =~= sc.drop_first().remove(i - 1));
        lemma_lookup_remove_other(sc.drop_first(), i - 1, o);
    }
}

/// Appending one more name to a sidecar text adds a newline and the name.
proof fn lemma_join_push(s: Seq<Seq<char>>, x: Seq<char>)
    ensures
        join_lines(s.push(x)) == (if s.len() == 0 {
            x
        } else {
            join_lines(s) + seq!['\n'] + x
        }),
    decreases s.len(),
{
    if s.len() == 0 {
        assert(s.push(x).len() == 1);
        assert(s.push(x).first() == x);
    } else {
        lemma_join_push(s.drop_first(), x);
        assert(s.push(x).drop_first() =~= s.drop_first().push(x));
        if s.len() == 1 {
            assert(join_lines(s) == s.first());
            assert(join_lines(s.push(x)) == s.first() + seq!['\n'] + x);
        } else {
            assert(s.first() + seq!['\n'] + (join_lines(s.drop_first()) + seq!['\n'] + x) =~= (
            s.first() + seq!['\n'] + join_lines(s.drop_first())) + seq!['\n'] + x);
        }
    }
}

/// Splitting an encoded dependency list recovers exactly the names that
/// were joined, provided each name is non-empty and newline-free.
pub proof fn lemma_dep_list_round_trip(items: Seq<Seq<char>>)
    requires
        forall|i: int| 0 <= i < items.len() ==> items[i].len() > 0,
        forall|i: int| 0 <= i < items.len() ==> !items[i].contains('\n'),
    ensures
        spec_lines(join_lines(items)) == items,
    decreases items.len(),
{
    if items.len() == 0 {
    } else {
        let first = items.first();
        assert(!first.contains('\n'));
        assert forall|k: int| 0 <= k < first.len() implies first[k] != '\n' by {
            if first[k] == '\n' {
                assert(first.contains('\n'));
            }
        }
        if items.len() == 1 {
            let j = join_lines(items);
            assert(j == first);
            lemma_find_from_is(j, '\n', j.len() as int);
            assert(spec_lines(j) =~= seq![first]);
            assert(seq![first] =~= items);
        } else {
            let rest = join_lines(items.drop_first());
            let j = first + seq!['\n'] + rest;
            assert(join_lines(items) == j);
            assert forall|k: int| 0 <= k < first.len() implies j[k] != '\n' by {
                assert(j[k] == first[k]);
            }
            assert(j[first.len() as int] == '\n');
            lemma_find_from_is(j, '\n', first.len() as int);
            assert(j.subrange(0, first.len() as int) =~= first);
            assert(j.subrange(first.len() as int + 1, j.len() as int) =~= rest);
            lemma_dep_list_round_trip(items.drop_first());
            assert(spec_lines(j) =~= seq![first] + items.drop_first());
            assert(seq![first] + items.drop_first() =~= items);
        }
    }
}

/// Inserting an artifact for a package that had none makes it the one
/// `find_match` returns.
pub proof fn lemma_find_after_insert(files: Seq<Seq<char>>, f: Seq<char>, name: Seq<char>)
    requires
        find_match(files, name) is None,
        matches_package(f, name),
    ensures
        find_match(files.push(f), name) == Some(f),
    decreases files.len(),
{
    if files.len() == 0 {
        assert(files.push(f).first() == f);
    } else {
        assert(files.push(f).first() == files.first());
        assert(files.push(f).drop_first() =~= files.drop_first().push(f));
        lemma_find_after_insert(files.drop_first(), f, name);
    }
}

/// The dependency list a sidecar records for the package: its lines, or
/// nothing when no sidecar exists.
pub open spec fn spec_read_deps(sc: Seq<(Seq<char>, Seq<char>)>, name: Seq<char>) -> Seq<
    Seq<char>,
> {
    match sidecar_lookup(sc, name) {
        Some(content) => spec_lines(content),
        None => Seq::empty(),
    }
}

/// Cache round trip, artifact half: recording an artifact file for a
/// package that had none cached makes it the one the lookup finds. The
/// hypotheses are what `record_artifact` ensures.
pub proof fn lemma_cache_insert_round_trip(
    pre_files: Seq<Seq<char>>,
    post_files: Seq<Seq<char>>,
    file: Seq<char>,
    name: Seq<char>,
)
    requires
        find_match(pre_files, name) is None,
        matches_package(file, name),
        post_files == (if pre_files.contains(file) {
            pre_files
        } else {
            pre_files.push(file)
        }),
    ensures
        find_match(post_files, name) == Some(file),
{
    lemma_find_match_none(pre_files, name);
    if pre_files.contains(file) {
        let i = choose|i: int| 0 <= i < pre_files.len() && pre_files[i] == file;
        assert(!matches_package(pre_files[i], name));
    }
    lemma_find_after_insert(pre_files, file, name);
}

/// Cache round trip, sidecar half: after a dependency list of non-empty,
/// newline-free names is saved for a package, reading the package's
/// dependency list yields exactly those names in their original order. The
/// first hypothesis is what `save_sidecar` ensures.
pub proof fn lemma_sidecar_round_trip(
    sc: Seq<(Seq<char>, Seq<char>)>,
    name: Seq<char>,
    deps: Seq<Seq<char>>,
)
    requires
        sidecar_lookup(sc, name) == Some(join_lines(deps)),
        forall|i: int| 0 <= i < deps.len() ==> deps[i].len() > 0,
        forall|i: int| 0 <= i < deps.len() ==> !deps[i].contains('\n'),
    ensures
        spec_read_deps(sc, name) == deps,
{
    lemma_dep_list_round_trip(deps);
}

/// Whether `file_name` names an artifact of `package_name`.
pub fn artifact_matches(file_name: &str, package_name: &str) -> (r: bool)
    ensures
        r == matches_package(file_name@, package_name@),
{
    str_starts_with(file_name, package_name) && (str_ends_with(file_name, ".pkg.tar.zst")
        || str_ends_with(file_name, ".pkg.tar.xz"))
}

/// Joins a dependency list into the sidecar text: names separated by
/// newlines.
pub fn encode_dep_list(deps: &Vec<String>) -> (r: String)
    ensures
        r@ == join_lines(deps.deep_view()),
{
    let mut r = String::new();
    let mut i: usize = 0;
    while i < deps.len()
        invariant
            0 <= i <= deps@.len(),
            r@ == join_lines(deps.deep_view().take(i as int)),
        decreases deps@.len() - i,
    {
        if i > 0 {
            r.append("\n");
            proof {
                reveal_strlit("\n");
                assert("\n"@ =~= seq!['\n']);
            }
        }
        r.append(deps[i].as_str());
        proof {
            let dv = deps.deep_view();
            assert(dv.take(i + 1).drop_last() =~= dv.take(i as int));
            assert(dv.take(i + 1).last() == dv[i as int]);
            lemma_join_push(dv.take(i as int), dv[i as int]);
            assert(dv.take(i + 1) =~= dv.take(i as int).push(dv[i as int]));
        }
        i += 1;
    }
    proof {
        assert(deps.deep_view().take(deps@.len() as int) =~= deps.deep_view());
    }
    r
}

/// Splits a sidecar text back into its lines, one dependency name each.
pub fn decode_dep_list(content: &str) -> (r: Vec<String>)
    ensures
        r.deep_view() == spec_lines(content@),
{
    let mut out: Vec<String> = Vec::new();
    let n = content.unicode_len();
    let mut pos: usize = 0;
    let ghost mut done: Seq<Seq<char>> = Seq::empty();
    proof {
        assert(content@.subrange(0, n as int) =~= content@);
        assert(done + spec_lines(content@) =~= spec_lines(content@));
        assert(out.deep_view() =~= done);
    }
    while pos < n
        invariant
            n == content@.len(),
            0 <= pos <= n,
            spec_lines(content@) == done + spec_lines(content@.subrange(pos as int, n as int)),
            out.deep_view() == done,
        decreases n - pos,
    {
        let j = crate::strutil::find_char_from(content, pos, '\n');
        let ghost rest = content@.subrange(pos as int, n as int);
        proof {
            assert forall|k: int| 0 <= k < j - pos implies rest[k] != '\n' by {
                assert(rest[k] == content@[pos + k]);
            }
            if j - pos < rest.len() {
                assert(rest[j - pos] == content@[j as int]);
            }
            lemma_find_from_is(rest, '\n', j - pos);
        }
        let line = content.substring_char(pos, j);
        proof {
            assert(line@ =~= rest.subrange(0, j - pos));
        }
        let ghost old_dv = out.deep_view();
        out.push(String::from_str(line));
        proof {
            assert(out.deep_view() =~= old_dv.push(line@));
            if j < n {
                assert(spec_lines(rest) =~= seq![line@] + spec_lines(
                    rest.subrange(j - pos + 1, rest.len() as int),
                ));
                assert(rest.subrange(j - pos + 1, rest.len() as int) =~= content@.subrange(
                    j + 1,
                    n as int,
                ));
                assert(done + spec_lines(rest) =~= done.push(line@) + spec_lines(
                    content@.subrange(j + 1, n as int),
                ));
            } else {
                assert(line@ =~= rest);
                assert(spec_lines(rest) =~= seq![rest]);
                assert(done + spec_lines(rest) =~= done.push(line@) + spec_lines(
                    content@.subrange(n as int, n as int),
                ));
            }
            done = done.push(line@);
        }
        if j < n {
            pos = j + 1;
        } else {
            pos = n;
        }
    }
    proof {
        assert(spec_lines(content@.subrange(n as int, n as int)) =~= Seq::<Seq<char>>::empty());
        assert(done + Seq::<Seq<char>>::empty() =~= done);
    }
    out
}

/// The in-memory model of the cache directory.
pub struct ArtifactCache {
    files: Vec<String>,
    sidecars: Vec<(String, String)>,
}

impl ArtifactCache {
    /// The artifact filenames present, in scan order.
    pub closed spec fn spec_files(self) -> Seq<Seq<char>> {
        self.files.deep_view()
    }

    /// The recorded sidecars, package name paired with sidecar text.
    pub closed spec fn spec_sidecars(self) -> Seq<(Seq<char>, Seq<char>)> {
        Seq::new(self.sidecars@.len(), |i: int| (self.sidecars@[i].0@, self.sidecars@[i].1@))
    }

    /// At most one sidecar per package name.
    pub closed spec fn wf(self) -> bool {
        forall|i: int, j: int|
            0 <= i < j < self.spec_sidecars().len() ==> self.spec_sidecars()[i].0
                != self.spec_sidecars()[j].0
    }

    /// An empty cache.
    pub fn new() -> (r: ArtifactCache)
        ensures
            r.wf(),
            r.spec_files() =~= Seq::<Seq<char>>::empty(),
            r.spec_sidecars() =~= Seq::<(Seq<char>, Seq<char>)>::empty(),
    {
        ArtifactCache { files: Vec::new(), sidecars: Vec::new() }
    }

    /// Records that an artifact file of this name is present; a name
    /// already present is not repeated, as a copy onto an existing file
    /// leaves one file.
    pub fn record_artifact(&mut self, file_name: String)
        requires
            old(self).wf(),
        ensures
            final(self).wf(),
            final(self).spec_sidecars() == old(self).spec_sidecars(),
            final(self).spec_files() == (if old(self).spec_files().contains(file_name@) {
                old(self).spec_files()
            } else {
                old(self).spec_files().push(file_name@)
            }),
    {
        if !crate::strutil::vec_contains_str(&self.files, file_name.as_str()) {
            let ghost old_dv = self.files.deep_view();
            self.files.push(file_name);
            proof {
                assert(self.files.deep_view() =~= old_dv.push(file_name@));
            }
        }
        proof {
            assert(self.spec_sidecars() =~= old(self).spec_sidecars());
        }
    }

    /// Stores the sidecar text for a package, replacing any prior one.
    pub fn save_sidecar(&mut self, package_name: &str, content: String)
        requires
            old(self).wf(),
        ensures
            final(self).wf(),
            final(self).spec_files() == old(self).spec_files(),
            sidecar_lookup(final(self).spec_sidecars(), package_name@) == Some(content@),
            forall|o: Seq<char>|
                o != package_name@ ==> sidecar_lookup(final(self).spec_sidecars(), o)
                    == sidecar_lookup(old(self).spec_sidecars(), o),
    {
        let ghost pre = self.spec_sidecars();
        let mut i: usize = 0;
        let mut found: bool = false;
        while i < self.sidecars.len() && !found
            invariant
                0 <= i <= self.sidecars@.len(),
                !found ==> forall|k: int| 0 <= k < i ==> self.spec_sidecars()[k].0 != package_name@,
                found ==> i < self.sidecars@.len() && self.spec_sidecars()[i as int].0
                    == package_name@,
                self == old(self),
            decreases self.sidecars@.len() - i + (if found {
                0int
            } else {
                1int
            }),
        {
            if str_eq(self.sidecars[i].0.as_str(), package_name) {
                found = true;
            } else {
                i += 1;
            }
        }
        if found {
            let ghost removed = pre.remove(i as int);
            self.sidecars.remove(i);
            proof {
                assert(self.spec_sidecars() =~= removed);
                assert forall|o: Seq<char>| o != package_name@ implies sidecar_lookup(removed, o)
                    == sidecar_lookup(pre, o) by {
                    lemma_lookup_remove_other(pre, i as int, o);
                }
                // uniqueness: no other entry held this name, so none is left
                assert forall|k: int| 0 <= k < removed.len() implies removed[k].0
                    != package_name@ by {
                    if k < i {
                        assert(removed[k] == pre[k]);
                    } else {
                        assert(removed[k] == pre[k + 1]);
                    }
                }
            }
        } else {
            proof {
                assert forall|k: int| 0 <= k < self.spec_sidecars().len() implies self
                    .spec_sidecars()[k].0 != package_name@ by {}
            }
        }
        let ghost mid = self.spec_sidecars();
        proof {
            assert forall|o: Seq<char>| o != package_name@ implies sidecar_lookup(mid, o)
                == sidecar_lookup(pre, o) by {
            }
            assert forall|k: int| 0 <= k < mid.len() implies mid[k].0 != package_name@ by {}
        }
        self.sidecars.insert(0, (package_name.to_owned(), content));
        proof {
            assert(self.spec_sidecars().drop_first() =~= mid);
            assert(self.spec_sidecars().first() == (package_name@, content@));
            assert(sidecar_lookup(self.spec_sidecars(), package_name@) == Some(content@));
            assert forall|o: Seq<char>| o != package_name@ implies sidecar_lookup(
                self.spec_sidecars(),
                o,
            ) == sidecar_lookup(pre, o) by {
                assert(sidecar_lookup(self.spec_sidecars(), o) == sidecar_lookup(mid, o));
            }
            assert forall|i2: int, j2: int|
                0 <= i2 < j2 < self.spec_sidecars().len() implies self.spec_sidecars()[i2].0
                != self.spec_sidecars()[j2].0 by {
                if i2 == 0 {
                    assert(self.spec_sidecars()[j2] == mid[j2 - 1]);
                } else {
                    assert(self.spec_sidecars()[i2] == mid[i2 - 1]);
                    assert(self.spec_sidecars()[j2] == mid[j2 - 1]);
                }
            }
        }
    }

    /// The sidecar text recorded for a package, if any.
    pub fn sidecar_content(&self, package_name: &str) -> (r: Option<String>)
        ensures
            r.deep_view() == sidecar_lookup(self.spec_sidecars(), package_name@),
    {
        let mut i: usize = 0;
        while i < self.sidecars.len()
            invariant
                0 <= i <= self.sidecars@.len(),
                forall|k: int| 0 <= k < i ==> self.spec_sidecars()[k].0 != package_name@,
            decreases self.sidecars@.len() - i,
        {
            if str_eq(self.sidecars[i].0.as_str(), package_name) {
                proof {
                    lemma_sidecar_lookup_at(self.spec_sidecars(), package_name@, i as int);
                }
                return Some(self.sidecars[i].1.clone());
            }
            i += 1;
        }
        proof {
            lemma_sidecar_lookup_at(
                self.spec_sidecars(),
                package_name@,
                self.spec_sidecars().len() as int,
            );
        }
        None
    }

    /// The first artifact filename matching the package, if any.
    pub fn find_artifact(&self, package_name: &str) -> (r: Option<String>)
        ensures
            r.deep_view() == find_match(self.spec_files(), package_name@),
    {
        let mut i: usize = 0;
        while i < self.files.len()
            invariant
                0 <= i <= self.files@.len(),
                forall|k: int| 0 <= k < i ==> !matches_package(self.spec_files()[k], package_name@),
            decreases self.files@.len() - i,
        {
            if artifact_matches(self.files[i].as_str(), package_name) {
                proof {
                    lemma_find_match_at(self.spec_files(), package_name@, i as int);
                }
                return Some(self.files[i].clone());
            }
            i += 1;
        }
        proof {
            lemma_find_match_at(self.spec_files(), package_name@, self.spec_files().len() as int);
        }
        None
    }

    /// Removes every artifact file of the package, and its sidecar.
    pub fn evict(&mut self, package_name: &str)
        requires
            old(self).wf(),
        ensures
            final(self).wf(),
            final(self).spec_files() == old(self).spec_files().filter(
                |f: Seq<char>| !matches_package(f, package_name@),
            ),
            sidecar_lookup(final(self).spec_sidecars(), package_name@) is None,
            forall|o: Seq<char>|
                o != package_name@ ==> sidecar_lookup(final(self).spec_sidecars(), o)
                    == sidecar_lookup(old(self).spec_sidecars(), o),
    {
        let ghost pre_files = self.spec_files();
        let ghost pred = |f: Seq<char>| !matches_package(f, package_name@);
        let mut kept: Vec<String> = Vec::new();
        let mut i: usize = 0;
        proof {
            reveal(Seq::filter);
            assert(kept.deep_view() =~= pre_files.take(0).filter(pred));
        }
        while i < self.files.len()
            invariant
                0 <= i <= self.files@.len(),
                self == old(self),
                pre_files == self.spec_files(),
                pred == (|f: Seq<char>| !matches_package(f, package_name@)),
                kept.deep_view() == pre_files.take(i as int).filter(pred),
            decreases self.files@.len() - i,
        {
            let keep = !artifact_matches(self.files[i].as_str(), package_name);
            let ghost old_dv = kept.deep_view();
            if keep {
                kept.push(self.files[i].clone());
            }
            proof {
                reveal(Seq::filter);
                assert(pre_files.take(i + 1).drop_last() =~= pre_files.take(i as int));
                assert(pre_files.take(i + 1).last() == pre_files[i as int]);
                if keep {
                    assert(kept.deep_view() =~= old_dv.push(pre_files[i as int]));
                }
            }
            i += 1;
        }
        proof {
            assert(pre_files.take(pre_files.len() as int) =~= pre_files);
        }
        self.files = kept;
        // drop the sidecar as well
        let ghost pre = self.spec_sidecars();
        let mut j: usize = 0;
        let mut found: bool = false;
        while j < self.sidecars.len() && !found
            invariant
                0 <= j <= self.sidecars@.len(),
                !found ==> forall|k: int| 0 <= k < j ==> self.spec_sidecars()[k].0 != package_name@,
                found ==> j < self.sidecars@.len() && self.spec_sidecars()[j as int].0
                    == package_name@,
                self.spec_sidecars() == pre,
                self.wf(),
            decreases self.sidecars@.len() - j + (if found {
                0int
            } else {
                1int
            }),
        {
            if str_eq(self.sidecars[j].0.as_str(), package_name) {
                found = true;
            } else {
                j += 1;
            }
        }
        if found {
            let ghost removed = pre.remove(j as int);
            self.sidecars.remove(j);
            proof {
                assert(self.spec_sidecars() =~= removed);
                assert forall|o: Seq<char>| o != package_name@ implies sidecar_lookup(removed, o)
                    == sidecar_lookup(pre, o) by {
                    lemma_lookup_remove_other(pre, j as int, o);
                }
                assert forall|k: int| 0 <= k < removed.len() implies removed[k].0
                    != package_name@ by {
                    if k < j {
                        assert(removed[k] == pre[k]);
                    } else {
                        assert(removed[k] == pre[k + 1]);
                    }
                }
                lemma_sidecar_lookup_at(removed, package_name@, removed.len() as int);
                assert forall|i2: int, j2: int|
                    0 <= i2 < j2 < removed.len() implies removed[i2].0 != removed[j2].0 by {
                    let a = if i2 < j {
                        i2
                    } else {
                        i2 + 1
                    };
                    let b = if j2 < j {
                        j2
                    } else {
                        j2 + 1
                    };
                    assert(removed[i2] == pre[a]);
                    assert(removed[j2] == pre[b]);
                }
            }
        } else {
            proof {
                lemma_sidecar_lookup_at(pre, package_name@, pre.len() as int);
            }
        }
    }
}

} // verus!

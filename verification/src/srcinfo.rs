//! The dependency extractor: parses a build-description text (line-oriented
//! `key = value` records) into the deduplicated, order-preserving list of
//! bare dependency names declared under the `depends`, `makedepends` and
//! `checkdepends` keys, a version-constraint suffix stripped from each.

use vstd::prelude::*;
use vstd::string::*;

use crate::strutil::find_char_from;
use crate::strutil::find_constraint;
use crate::strutil::find_constraint_from;
use crate::strutil::find_from;
use crate::strutil::lemma_find_constraint_bounds;
use crate::strutil::lemma_find_constraint_is;
use crate::strutil::lemma_find_from_bounds;
use crate::strutil::lemma_find_from_is;
use crate::strutil::range_starts_with;
use crate::strutil::seq_starts_with;
use crate::strutil::lemma_lines_newline_free;
use crate::strutil::lemma_subrange_newline_free;
use crate::strutil::lemma_trim_newline_free;
use crate::strutil::newline_free;
use crate::strutil::spec_lines;
use crate::strutil::spec_trim;
use crate::strutil::trim_in;
use crate::strutil::vec_contains_str;

verus! {

/// Whether a trimmed line opens with one of the recognized dependency keys,
/// each followed by ` =`.
pub open spec fn has_dep_key(t: Seq<char>) -> bool {
    seq_starts_with(t, "depends ="@) || seq_starts_with(t, "makedepends ="@) || seq_starts_with(
        t,
        "checkdepends ="@,
    )
}

/// The dependency name a single line contributes, if any: for a line whose
/// trimmed form opens with a dependency key, the text after the first `=`,
/// trimmed, truncated at the first `<`, `>`, `=` or space, and trimmed
/// again; `None` when that leaves nothing or the key is absent.
pub open spec fn dep_of_line(line: Seq<char>) -> Option<Seq<char>> {
    let t = spec_trim(line);
    if has_dep_key(t) {
        let v = spec_trim(t.subrange(find_from(t, '=') + 1, t.len() as int));
        if v.len() > 0 {
            let tok = spec_trim(v.subrange(0, find_constraint(v)));
            if tok.len() > 0 {
                Some(tok)
            } else {
                None
            }
        } else {
            None
        }
    } else {
        None
    }
}

/// The extractor's result over a sequence of lines: each line's contribution
/// in file order, a name kept only at its first occurrence.
pub open spec fn extract_from_lines(lines: Seq<Seq<char>>) -> Seq<Seq<char>>
    decreases lines.len(),
{
    if lines.len() == 0 {
        Seq::empty()
    } else {
        let prev = extract_from_lines(lines.drop_last());
        match dep_of_line(lines.last()) {
            Some(tok) => if prev.contains(tok) {
                prev
            } else {
                prev.push(tok)
            },
            None => prev,
        }
    }
}

/// The dependency names extracted from a build-description text.
pub open spec fn extract_deps(text: Seq<char>) -> Seq<Seq<char>> {
    extract_from_lines(spec_lines(text))
}

/// No name occurs twice.
pub open spec fn no_duplicate_names(s: Seq<Seq<char>>) -> bool {
    forall|i: int, j: int| 0 <= i < j < s.len() ==> s[i] != s[j]
}

proof fn lemma_extract_push(lines: Seq<Seq<char>>, l: Seq<char>)
    ensures
        extract_from_lines(lines.push(l)) == (match dep_of_line(l) {
            Some(tok) => if extract_from_lines(lines).contains(tok) {
                extract_from_lines(lines)
            } else {
                extract_from_lines(lines).push(tok)
            },
            None => extract_from_lines(lines),
        }),
{
    assert(lines.push(l).drop_last() =~= lines);
    assert(lines.push(l).last() == l);
}

proof fn lemma_extract_no_duplicates(lines: Seq<Seq<char>>)
    ensures
        no_duplicate_names(extract_from_lines(lines)),
    decreases lines.len(),
{
    if lines.len() > 0 {
        lemma_extract_no_duplicates(lines.drop_last());
        let prev = extract_from_lines(lines.drop_last());
        match dep_of_line(lines.last()) {
            Some(tok) => {
                if !prev.contains(tok) {
                    let cur = prev.push(tok);
                    assert forall|i: int, j: int| 0 <= i < j < cur.len() implies cur[i]
                        != cur[j] by {
                        if j == cur.len() - 1 {
                            assert(!prev.contains(tok));
                            assert(cur[i] == prev[i]);
                        }
                    }
                }
            },
            None => {},
        }
    }
}

/// Extraction is a function of the text alone, and its result never repeats
/// a name: re-parsing the same build-description text yields the same list,
/// and each dependency appears once, at its first occurrence.
pub proof fn lemma_extraction_idempotent(text: Seq<char>)
    ensures
        extract_deps(text) == extract_deps(text),
        no_duplicate_names(extract_deps(text)),
{
    lemma_extract_no_duplicates(spec_lines(text));
}

proof fn lemma_dep_token_clean(line: Seq<char>)
    requires
        newline_free(line),
    ensures
        (dep_of_line(line) matches Some(tok) ==> tok.len() > 0 && newline_free(tok)),
{
    let t = spec_trim(line);
    lemma_trim_newline_free(line);
    if has_dep_key(t) {
        lemma_dep_key_has_eq(t);
        lemma_subrange_newline_free(t, find_from(t, '=') + 1, t.len() as int);
        let v = spec_trim(t.subrange(find_from(t, '=') + 1, t.len() as int));
        lemma_trim_newline_free(t.subrange(find_from(t, '=') + 1, t.len() as int));
        if v.len() > 0 {
            lemma_find_constraint_bounds(v);
            lemma_subrange_newline_free(v, 0, find_constraint(v));
            lemma_trim_newline_free(v.subrange(0, find_constraint(v)));
        }
    }
}

proof fn lemma_extract_clean(lines: Seq<Seq<char>>)
    requires
        forall|i: int| 0 <= i < lines.len() ==> newline_free(#[trigger] lines[i]),
    ensures
        forall|i: int|
            0 <= i < extract_from_lines(lines).len() ==> (#[trigger] extract_from_lines(lines)[
                i
            ]).len() > 0 && newline_free(extract_from_lines(lines)[i]),
    decreases lines.len(),
{
    if lines.len() > 0 {
        assert forall|i: int| 0 <= i < lines.drop_last().len() implies newline_free(
            #[trigger] lines.drop_last()[i],
        ) by {
            assert(lines.drop_last()[i] == lines[i]);
        }
        lemma_extract_clean(lines.drop_last());
        lemma_dep_token_clean(lines.last());
        let prev = extract_from_lines(lines.drop_last());
        let cur = extract_from_lines(lines);
        assert forall|i: int| 0 <= i < cur.len() implies (#[trigger] cur[i]).len() > 0
            && newline_free(cur[i]) by {
            if i < prev.len() {
                assert(cur[i] == prev[i]);
            }
        }
    }
}

/// Every name the extractor yields is non-empty and free of newlines, so
/// a dependency list written to a sidecar reads back as itself.
pub proof fn lemma_extracted_names_well_formed(text: Seq<char>)
    ensures
        forall|i: int|
            0 <= i < extract_deps(text).len() ==> (#[trigger] extract_deps(text)[i]).len() > 0
                && newline_free(extract_deps(text)[i]),
{
    lemma_lines_newline_free(text);
    lemma_extract_clean(spec_lines(text));
}

proof fn lemma_dep_key_has_eq(t: Seq<char>)
    requires
        has_dep_key(t),
    ensures
        0 <= find_from(t, '=') < t.len(),
        t[find_from(t, '=')] == '=',
{
    lemma_find_from_bounds(t, '=');
    if seq_starts_with(t, "depends ="@) {
        reveal_strlit("depends =");
        assert(t.subrange(0, 9)[8] == t[8]);
        assert(t[8] == '=');
        assert(find_from(t, '=') < t.len()) by {
            if find_from(t, '=') == t.len() {
                assert(t[8] != '=');
            }
        }
    } else if seq_starts_with(t, "makedepends ="@) {
        reveal_strlit("makedepends =");
        assert(t.subrange(0, 13)[12] == t[12]);
        assert(t[12] == '=');
        assert(find_from(t, '=') < t.len()) by {
            if find_from(t, '=') == t.len() {
                assert(t[12] != '=');
            }
        }
    } else {
        reveal_strlit("checkdepends =");
        assert(t.subrange(0, 14)[13] == t[13]);
        assert(t[13] == '=');
        assert(find_from(t, '=') < t.len()) by {
            if find_from(t, '=') == t.len() {
                assert(t[13] != '=');
            }
        }
    }
}

/// The dependency name contributed by one line of a build description.
pub fn dep_token_of_line(line: &str) -> (r: Option<String>)
    ensures
        r.deep_view() == dep_of_line(line@),
{
    let n = line.unicode_len();
    let (a, b) = trim_in(line, 0, n);
    proof {
        assert(line@.subrange(0, n as int) =~= line@);
    }
    let ghost t = spec_trim(line@);
    proof {
        assert(line@.subrange(a as int, b as int) == t);
    }
    let k1 = range_starts_with(line, a, b, "depends =");
    let k2 = range_starts_with(line, a, b, "makedepends =");
    let k3 = range_starts_with(line, a, b, "checkdepends =");
    if !(k1 || k2 || k3) {
        return None;
    }
    let e = find_char_from(line, a, '=');
    proof {
        // the key ends in '=', so the first '=' at or after `a` lies inside
        // the trimmed range
        lemma_dep_key_has_eq(t);
        let m = find_from(t, '=');
        assert(t[m] == line@[a + m]);
        assert(e <= a + m) by {
            if e > a + m {
                assert(line@[a + m] != '=');
            }
        }
        assert(e < b);
        assert forall|k: int| 0 <= k < e - a implies t[k] != '=' by {
            assert(t[k] == line@[a + k]);
        }
        assert(t[e - a] == line@[e as int]);
        lemma_find_from_is(t, '=', e - a);
    }
    let (va, vb) = trim_in(line, e + 1, b);
    proof {
        assert(t.subrange(find_from(t, '=') + 1, t.len() as int) =~= line@.subrange(
            e + 1,
            b as int,
        ));
    }
    let ghost v = spec_trim(t.subrange(find_from(t, '=') + 1, t.len() as int));
    proof {
        assert(line@.subrange(va as int, vb as int) == v);
    }
    if va == vb {
        proof {
            assert(v.len() == 0);
        }
        return None;
    }
    let c = find_constraint_from(line, va, vb);
    proof {
        assert forall|k: int| 0 <= k < c - va implies !crate::strutil::is_constraint_char(
            v[k],
        ) by {
            assert(v[k] == line@[va + k]);
        }
        if c < vb {
            assert(v[c - va] == line@[c as int]);
        }
        lemma_find_constraint_is(v, c - va);
        assert(v.subrange(0, find_constraint(v)) =~= line@.subrange(va as int, c as int));
    }
    let (ta, tb) = trim_in(line, va, c);
    let ghost tok = spec_trim(v.subrange(0, find_constraint(v)));
    proof {
        assert(line@.subrange(ta as int, tb as int) == tok);
    }
    if ta == tb {
        proof {
            assert(tok.len() == 0);
        }
        return None;
    }
    let out = String::from_str(line.substring_char(ta, tb));
    proof {
        assert(out@ == tok);
    }
    Some(out)
}

/// Parses a build-description text into the ordered, deduplicated list of
/// bare dependency names it declares.
pub fn extract_dependencies(content: &str) -> (deps: Vec<String>)
    ensures
        deps.deep_view() == extract_deps(content@),
        no_duplicate_names(deps.deep_view()),
{
    let mut deps: Vec<String> = Vec::new();
    let n = content.unicode_len();
    let mut pos: usize = 0;
    let ghost mut done: Seq<Seq<char>> = Seq::empty();
    proof {
        assert(content@.subrange(0, n as int) =~= content@);
        assert(done + spec_lines(content@) =~= spec_lines(content@));
        assert(deps.deep_view() =~= extract_from_lines(done));
    }
    while pos < n
        invariant
            n == content@.len(),
            0 <= pos <= n,
            spec_lines(content@) == done + spec_lines(content@.subrange(pos as int, n as int)),
            deps.deep_view() == extract_from_lines(done),
        decreases n - pos,
    {
        let j = find_char_from(content, pos, '\n');
        let ghost rest = content@.subrange(pos as int, n as int);
        proof {
            assert forall|k: int| 0 <= k < j - pos implies rest[k] != '\n' by {
                assert(rest[k] == content@[pos + k]);
            }
            if j - pos < rest.len() {
                assert(rest[j - pos] == content@[j as int]);
            }
            lemma_find_from_is(rest, '\n', j - pos);
        }
        let line = content.substring_char(pos, j);
        proof {
            assert(line@ =~= rest.subrange(0, j - pos));
        }
        match dep_token_of_line(line) {
            Some(tok) => {
                if !vec_contains_str(&deps, tok.as_str()) {
                    let ghost old_dv = deps.deep_view();
                    deps.push(tok);
                    proof {
                        assert(deps.deep_view() =~= old_dv.push(tok@));
                    }
                }
            },
            None => {},
        }
        proof {
            lemma_extract_push(done, line@);
            if j < n {
                assert(spec_lines(rest) =~= seq![line@] + spec_lines(
                    rest.subrange(j - pos + 1, rest.len() as int),
                ));
                assert(rest.subrange(j - pos + 1, rest.len() as int) =~= content@.subrange(
                    j + 1,
                    n as int,
                ));
                assert(done + spec_lines(rest) =~= done.push(line@) + spec_lines(
                    content@.subrange(j + 1, n as int),
                ));
            } else {
                assert(line@ =~= rest);
                assert(spec_lines(rest) =~= seq![rest]);
                assert(done + spec_lines(rest) =~= done.push(line@) + spec_lines(
                    content@.subrange(n as int, n as int),
                ));
            }
            done = done.push(line@);
        }
        if j < n {
            pos = j + 1;
        } else {
            pos = n;
        }
    }
    proof {
        assert(spec_lines(content@.subrange(n as int, n as int)) =~= Seq::<Seq<char>>::empty());
        assert(done + Seq::<Seq<char>>::empty() =~= done);
        lemma_extract_no_duplicates(done);
    }
    deps
}

} // verus!

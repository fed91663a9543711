//! Character-sequence helpers shared by the parsing code: trimming,
//! searching, prefix/suffix tests and line splitting, each with a spec-level
//! definition and an executable counterpart proved against it.

use vstd::prelude::*;
use vstd::string::*;

verus! {

/// Whitespace as recognized by the build-description and sidecar parsers.
pub open spec fn is_space_char(c: char) -> bool {
    c == ' ' || c == '\t' || c == '\r' || c == '\n'
}

/// Characters that open a version constraint in a dependency token.
pub open spec fn is_constraint_char(c: char) -> bool {
    c == '<' || c == '>' || c == '=' || c == ' '
}

pub open spec fn seq_starts_with(s: Seq<char>, p: Seq<char>) -> bool {
    p.len() <= s.len() && s.subrange(0, p.len() as int) == p
}

pub open spec fn seq_ends_with(s: Seq<char>, p: Seq<char>) -> bool {
    p.len() <= s.len() && s.subrange(s.len() - p.len(), s.len() as int) == p
}

pub open spec fn contains_seq(s: Seq<char>, p: Seq<char>) -> bool {
    exists|i: int| 0 <= i && i + p.len() <= s.len() && #[trigger] s.subrange(i, i + p.len()) == p
}

/// Index of the first occurrence of `c` in `s`, or `s.len()` if absent.
pub open spec fn find_from(s: Seq<char>, c: char) -> int
    decreases s.len(),
{
    if s.len() == 0 {
        0
    } else if s[0] == c {
        0
    } else {
        1 + find_from(s.drop_first(), c)
    }
}

/// Index of the first constraint character in `s`, or `s.len()` if absent.
pub open spec fn find_constraint(s: Seq<char>) -> int
    decreases s.len(),
{
    if s.len() == 0 {
        0
    } else if is_constraint_char(s[0]) {
        0
    } else {
        1 + find_constraint(s.drop_first())
    }
}

/// Whether `c` is a decimal digit.
pub open spec fn is_digit_char(c: char) -> bool {
    48 <= c as u32 <= 57
}

/// The first index where `-` is immediately followed by a digit, or
/// `s.len()` when there is none: where a version starts in an artifact
/// filename.
pub open spec fn find_dash_digit(s: Seq<char>) -> int
    decreases s.len(),
{
    if s.len() == 0 {
        0
    } else if s[0] == '-' && s.len() > 1 && is_digit_char(s[1]) {
        0
    } else {
        1 + find_dash_digit(s.drop_first())
    }
}

/// The last index holding `c`, or `-1` when there is none.
pub open spec fn find_last(s: Seq<char>, c: char) -> int
    decreases s.len(),
{
    if s.len() == 0 {
        -1
    } else if s.last() == c {
        s.len() - 1
    } else {
        find_last(s.drop_last(), c)
    }
}

/// An index with the first dash-digit properties determines
/// `find_dash_digit`.
pub proof fn lemma_find_dash_digit_is(s: Seq<char>, i: int)
    requires
        0 <= i <= s.len(),
        forall|k: int|
            0 <= k < i ==> !(#[trigger] s[k] == '-' && k + 1 < s.len() && is_digit_char(s[k + 1])),
        i < s.len() ==> (s[i] == '-' && i + 1 < s.len() && is_digit_char(s[i + 1])),
    ensures
        find_dash_digit(s) == i,
    decreases i,
{
    if i == 0 {
    } else {
        assert(!(s[0] == '-' && 1 < s.len() && is_digit_char(s[1])));
        let t = s.drop_first();
        assert forall|k: int|
            0 <= k < i - 1 implies !(#[trigger] t[k] == '-' && k + 1 < t.len() && is_digit_char(
            t[k + 1],
        )) by {
            assert(t[k] == s[k + 1]);
            if k + 1 < t.len() {
                assert(t[k + 1] == s[k + 2]);
            }
        }
        if i - 1 < t.len() {
            assert(t[i - 1] == s[i]);
            assert(t[i] == s[i + 1]);
        }
        lemma_find_dash_digit_is(t, i - 1);
    }
}

/// An index with the last-occurrence properties determines `find_last`.
pub proof fn lemma_find_last_is(s: Seq<char>, c: char, i: int)
    requires
        -1 <= i < s.len(),
        forall|k: int| i < k < s.len() ==> s[k] != c,
        i >= 0 ==> s[i] == c,
    ensures
        find_last(s, c) == i,
    decreases s.len(),
{
    if s.len() == 0 {
    } else if s.last() == c {
        assert(i == s.len() - 1) by {
            if i < s.len() - 1 {
                assert(s[s.len() - 1] != c);
            }
        }
    } else {
        assert(i < s.len() - 1);
        lemma_find_last_is(s.drop_last(), c, i);
    }
}

/// Whether `c` is a decimal digit.
pub fn is_digit(c: char) -> (r: bool)
    ensures
        r == is_digit_char(c),
{
    let u = c as u32;
    48 <= u && u <= 57
}

/// The first index in `[0, hi)` where `-` is followed (within the bound)
/// by a digit, or `hi`.
pub fn find_dash_digit_in(s: &str, hi: usize) -> (r: usize)
    requires
        hi <= s@.len(),
    ensures
        r <= hi,
        r < hi ==> (s@[r as int] == '-' && r + 1 < hi && is_digit_char(s@[r as int + 1])),
        forall|k: int|
            0 <= k < r ==> !(#[trigger] s@[k] == '-' && k + 1 < hi && is_digit_char(s@[k + 1])),
{
    let mut i: usize = 0;
    while i < hi
        invariant
            hi <= s@.len(),
            0 <= i <= hi,
            forall|k: int|
                0 <= k < i ==> !(#[trigger] s@[k] == '-' && k + 1 < hi && is_digit_char(s@[k + 1])),
        decreases hi - i,
    {
        if s.get_char(i) == '-' && i + 1 < hi && is_digit(s.get_char(i + 1)) {
            return i;
        }
        i += 1;
    }
    i
}

/// The last index in `[lo, hi)` holding `c`, if any.
pub fn rfind_char_in(s: &str, lo: usize, hi: usize, c: char) -> (r: Option<usize>)
    requires
        lo <= hi <= s@.len(),
    ensures
        (r matches Some(k) && lo <= k < hi && s@[k as int] == c && (forall|m: int|
            k < m < hi ==> s@[m] != c)) || (r is None && (forall|m: int|
            lo <= m < hi ==> s@[m] != c)),
{
    let mut j = hi;
    while j > lo
        invariant
            lo <= j <= hi <= s@.len(),
            forall|m: int| j <= m < hi ==> s@[m] != c,
        decreases j,
    {
        j -= 1;
        if s.get_char(j) == c {
            return Some(j);
        }
    }
    None
}

pub open spec fn trim_front(s: Seq<char>) -> Seq<char>
    decreases s.len(),
{
    if s.len() > 0 && is_space_char(s[0]) {
        trim_front(s.drop_first())
    } else {
        s
    }
}

pub open spec fn trim_back(s: Seq<char>) -> Seq<char>
    decreases s.len(),
{
    if s.len() > 0 && is_space_char(s.last()) {
        trim_back(s.drop_last())
    } else {
        s
    }
}

/// `s` with leading and trailing whitespace removed.
pub open spec fn spec_trim(s: Seq<char>) -> Seq<char> {
    trim_back(trim_front(s))
}

/// `s` split at every newline; a trailing newline yields no empty final line.
pub open spec fn spec_lines(s: Seq<char>) -> Seq<Seq<char>>
    decreases s.len(),
{
    if s.len() == 0 {
        Seq::empty()
    } else {
        let i = find_from(s, '\n');
        if 0 <= i < s.len() {
            seq![s.subrange(0, i)] + spec_lines(s.subrange(i + 1, s.len() as int))
        } else {
            seq![s]
        }
    }
}

/// No character of `s` is a newline.
pub open spec fn newline_free(s: Seq<char>) -> bool {
    forall|k: int| 0 <= k < s.len() ==> s[k] != '\n'
}

pub proof fn lemma_find_constraint_bounds(s: Seq<char>)
    ensures
        0 <= find_constraint(s) <= s.len(),
    decreases s.len(),
{
    if s.len() > 0 && !is_constraint_char(s[0]) {
        lemma_find_constraint_bounds(s.drop_first());
    }
}

pub proof fn lemma_trim_front_newline_free(s: Seq<char>)
    requires
        newline_free(s),
    ensures
        newline_free(trim_front(s)),
    decreases s.len(),
{
    if s.len() > 0 && is_space_char(s[0]) {
        assert forall|k: int| 0 <= k < s.drop_first().len() implies s.drop_first()[k] != '\n' by {
            assert(s.drop_first()[k] == s[k + 1]);
        }
        lemma_trim_front_newline_free(s.drop_first());
    }
}

pub proof fn lemma_trim_back_newline_free(s: Seq<char>)
    requires
        newline_free(s),
    ensures
        newline_free(trim_back(s)),
    decreases s.len(),
{
    if s.len() > 0 && is_space_char(s.last()) {
        assert forall|k: int| 0 <= k < s.drop_last().len() implies s.drop_last()[k] != '\n' by {
            assert(s.drop_last()[k] == s[k]);
        }
        lemma_trim_back_newline_free(s.drop_last());
    }
}

pub proof fn lemma_trim_newline_free(s: Seq<char>)
    requires
        newline_free(s),
    ensures
        newline_free(spec_trim(s)),
{
    lemma_trim_front_newline_free(s);
    lemma_trim_back_newline_free(trim_front(s));
}

pub proof fn lemma_subrange_newline_free(s: Seq<char>, a: int, b: int)
    requires
        newline_free(s),
        0 <= a <= b <= s.len(),
    ensures
        newline_free(s.subrange(a, b)),
{
    assert forall|k: int| 0 <= k < s.subrange(a, b).len() implies s.subrange(a, b)[k] != '\n' by {
        assert(s.subrange(a, b)[k] == s[a + k]);
    }
}

/// Splitting at newlines yields lines without newlines.
pub proof fn lemma_lines_newline_free(text: Seq<char>)
    ensures
        forall|i: int|
            0 <= i < spec_lines(text).len() ==> newline_free(#[trigger] spec_lines(text)[i]),
    decreases text.len(),
{
    if text.len() > 0 {
        lemma_find_from_bounds(text, '\n');
        let j = find_from(text, '\n');
        if 0 <= j < text.len() {
            let head = text.subrange(0, j);
            assert(newline_free(head)) by {
                assert forall|k: int| 0 <= k < head.len() implies head[k] != '\n' by {
                    assert(head[k] == text[k]);
                }
            }
            let tail = text.subrange(j + 1, text.len() as int);
            lemma_lines_newline_free(tail);
            assert forall|i: int|
                0 <= i < spec_lines(text).len() implies newline_free(
                #[trigger] spec_lines(text)[i],
            ) by {
                if i == 0 {
                    assert(spec_lines(text)[0] == head);
                } else {
                    assert(spec_lines(text)[i] == spec_lines(tail)[i - 1]);
                }
            }
        } else {
            assert(newline_free(text));
            assert(spec_lines(text)[0] == text);
        }
    }
}

pub proof fn lemma_find_from_bounds(s: Seq<char>, c: char)
    ensures
        0 <= find_from(s, c) <= s.len(),
        find_from(s, c) < s.len() ==> s[find_from(s, c)] == c,
        forall|k: int| 0 <= k < find_from(s, c) ==> s[k] != c,
    decreases s.len(),
{
    if s.len() > 0 && s[0] != c {
        lemma_find_from_bounds(s.drop_first(), c);
        assert forall|k: int| 0 <= k < find_from(s, c) implies s[k] != c by {
            if k > 0 {
                assert(s.drop_first()[k - 1] != c);
            }
        }
    }
}

/// An index with the first-occurrence properties is `find_from`.
pub proof fn lemma_find_from_is(s: Seq<char>, c: char, i: int)
    requires
        0 <= i <= s.len(),
        forall|k: int| 0 <= k < i ==> s[k] != c,
        i < s.len() ==> s[i] == c,
    ensures
        find_from(s, c) == i,
    decreases i,
{
    if i == 0 {
    } else {
        assert(s[0] != c);
        lemma_find_from_is(s.drop_first(), c, i - 1);
    }
}

pub proof fn lemma_find_constraint_is(s: Seq<char>, i: int)
    requires
        0 <= i <= s.len(),
        forall|k: int| 0 <= k < i ==> !is_constraint_char(s[k]),
        i < s.len() ==> is_constraint_char(s[i]),
    ensures
        find_constraint(s) == i,
    decreases i,
{
    if i == 0 {
    } else {
        assert(!is_constraint_char(s[0]));
        lemma_find_constraint_is(s.drop_first(), i - 1);
    }
}

/// Skipping `i` leading spaces, up to the first non-space, is `trim_front`.
pub proof fn lemma_trim_front_is(s: Seq<char>, i: int)
    requires
        0 <= i <= s.len(),
        forall|k: int| 0 <= k < i ==> is_space_char(s[k]),
        i < s.len() ==> !is_space_char(s[i]),
    ensures
        trim_front(s) == s.subrange(i, s.len() as int),
    decreases i,
{
    if i == 0 {
        assert(s.subrange(0, s.len() as int) =~= s);
    } else {
        assert(is_space_char(s[0]));
        lemma_trim_front_is(s.drop_first(), i - 1);
        assert(s.drop_first().subrange(i - 1, s.drop_first().len() as int) =~= s.subrange(
            i,
            s.len() as int,
        ));
    }
}

/// Dropping the trailing spaces after position `i` is `trim_back`.
pub proof fn lemma_trim_back_is(s: Seq<char>, i: int)
    requires
        0 <= i <= s.len(),
        forall|k: int| i <= k < s.len() ==> is_space_char(s[k]),
        i > 0 ==> !is_space_char(s[i - 1]),
    ensures
        trim_back(s) == s.subrange(0, i),
    decreases s.len() - i,
{
    if i == s.len() {
        if s.len() == 0 {
            assert(s.subrange(0, 0) =~= s);
        } else {
            assert(!is_space_char(s.last()));
            assert(s.subrange(0, s.len() as int) =~= s);
        }
    } else {
        assert(is_space_char(s.last()));
        lemma_trim_back_is(s.drop_last(), i);
        assert(s.drop_last().subrange(0, i) =~= s.subrange(0, i));
    }
}

/// Whether `c` is whitespace, as the parsers define it.
pub fn is_space(c: char) -> (r: bool)
    ensures
        r == is_space_char(c),
{
    c == ' ' || c == '\t' || c == '\r' || c == '\n'
}

/// Whether `c` opens a version constraint.
pub fn is_constraint(c: char) -> (r: bool)
    ensures
        r == is_constraint_char(c),
{
    c == '<' || c == '>' || c == '=' || c == ' '
}

/// Character-wise equality of two string slices.
pub fn str_eq(a: &str, b: &str) -> (r: bool)
    ensures
        r == (a@ == b@),
{
    let na = a.unicode_len();
    let nb = b.unicode_len();
    if na != nb {
        return false;
    }
    let mut i: usize = 0;
    while i < na
        invariant
            na == a@.len(),
            na == b@.len(),
            0 <= i <= na,
            forall|k: int| 0 <= k < i ==> a@[k] == b@[k],
        decreases na - i,
    {
        if a.get_char(i) != b.get_char(i) {
            return false;
        }
        i += 1;
    }
    proof {
        assert(a@ =~= b@);
    }
    true
}

/// The first index at or after `from` holding `c`, or the length of `s`.
pub fn find_char_from(s: &str, from: usize, c: char) -> (r: usize)
    requires
        from <= s@.len(),
    ensures
        from <= r <= s@.len(),
        r < s@.len() ==> s@[r as int] == c,
        forall|k: int| from <= k < r ==> s@[k] != c,
{
    let n = s.unicode_len();
    let mut i = from;
    while i < n
        invariant
            n == s@.len(),
            from <= i <= n,
            forall|k: int| from <= k < i ==> s@[k] != c,
        decreases n - i,
    {
        if s.get_char(i) == c {
            return i;
        }
        i += 1;
    }
    i
}

/// The first index in `[from, hi)` holding a constraint character, or `hi`.
pub fn find_constraint_from(s: &str, from: usize, hi: usize) -> (r: usize)
    requires
        from <= hi <= s@.len(),
    ensures
        from <= r <= hi,
        r < hi ==> is_constraint_char(s@[r as int]),
        forall|k: int| from <= k < r ==> !is_constraint_char(s@[k]),
{
    let mut i = from;
    while i < hi
        invariant
            from <= i <= hi <= s@.len(),
            forall|k: int| from <= k < i ==> !is_constraint_char(s@[k]),
        decreases hi - i,
    {
        if is_constraint(s.get_char(i)) {
            return i;
        }
        i += 1;
    }
    i
}

/// The sub-range of `[lo, hi)` left after trimming whitespace on both sides.
pub fn trim_in(s: &str, lo: usize, hi: usize) -> (r: (usize, usize))
    requires
        lo <= hi <= s@.len(),
    ensures
        lo <= r.0 <= r.1 <= hi,
        s@.subrange(r.0 as int, r.1 as int) == spec_trim(s@.subrange(lo as int, hi as int)),
{
    let mut a = lo;
    while a < hi && is_space(s.get_char(a))
        invariant
            lo <= a <= hi <= s@.len(),
            forall|k: int| lo <= k < a ==> is_space_char(s@[k]),
        decreases hi - a,
    {
        a += 1;
    }
    let mut b = hi;
    while b > a && is_space(s.get_char(b - 1))
        invariant
            lo <= a <= b <= hi <= s@.len(),
            forall|k: int| b <= k < hi ==> is_space_char(s@[k]),
        decreases b,
    {
        b -= 1;
    }
    proof {
        let sub = s@.subrange(lo as int, hi as int);
        lemma_trim_front_is(sub, a - lo);
        let tf = sub.subrange(a - lo, sub.len() as int);
        assert(tf =~= s@.subrange(a as int, hi as int));
        assert forall|k: int| b - a <= k < tf.len() implies is_space_char(tf[k]) by {
            assert(tf[k] == s@[a + k]);
        }
        if b > a {
            assert(tf[b - a - 1] == s@[b - 1]);
        }
        lemma_trim_back_is(tf, b - a);
        assert(tf.subrange(0, b - a) =~= s@.subrange(a as int, b as int));
    }
    (a, b)
}

/// Whether the sub-range `[lo, hi)` of `s` starts with `p`.
pub fn range_starts_with(s: &str, lo: usize, hi: usize, p: &str) -> (r: bool)
    requires
        lo <= hi <= s@.len(),
    ensures
        r == seq_starts_with(s@.subrange(lo as int, hi as int), p@),
{
    let np = p.unicode_len();
    if np > hi - lo {
        return false;
    }
    let mut i: usize = 0;
    while i < np
        invariant
            np == p@.len(),
            lo <= hi <= s@.len(),
            np <= hi - lo,
            0 <= i <= np,
            forall|k: int| 0 <= k < i ==> s@[lo + k] == p@[k],
        decreases np - i,
    {
        if s.get_char(lo + i) != p.get_char(i) {
            proof {
                let sub = s@.subrange(lo as int, hi as int);
                assert(sub.subrange(0, np as int)[i as int] == s@[lo + i]);
            }
            return false;
        }
        i += 1;
    }
    proof {
        let sub = s@.subrange(lo as int, hi as int);
        assert(sub.subrange(0, np as int) =~= p@);
    }
    true
}

/// Whether `s` ends with `p`.
pub fn str_ends_with(s: &str, p: &str) -> (r: bool)
    ensures
        r == seq_ends_with(s@, p@),
{
    let n = s.unicode_len();
    let np = p.unicode_len();
    if np > n {
        return false;
    }
    let off = n - np;
    let mut i: usize = 0;
    while i < np
        invariant
            n == s@.len(),
            np == p@.len(),
            off == n - np,
            0 <= i <= np,
            forall|k: int| 0 <= k < i ==> s@[off + k] == p@[k],
        decreases np - i,
    {
        if s.get_char(off + i) != p.get_char(i) {
            proof {
                assert(s@.subrange(s@.len() - p@.len(), s@.len() as int)[i as int] == s@[
                    off + i
                ]);
            }
            return false;
        }
        i += 1;
    }
    proof {
        assert(s@.subrange(s@.len() - p@.len(), s@.len() as int) =~= p@);
    }
    true
}

/// Whether `s` starts with `p`.
pub fn str_starts_with(s: &str, p: &str) -> (r: bool)
    ensures
        r == seq_starts_with(s@, p@),
{
    let n = s.unicode_len();
    let r = range_starts_with(s, 0, n, p);
    proof {
        assert(s@.subrange(0, s@.len() as int) =~= s@);
    }
    r
}

/// Whether the characters of `p` occur contiguously anywhere in `s`.
pub fn str_contains(s: &str, p: &str) -> (r: bool)
    ensures
        r == contains_seq(s@, p@),
{
    let n = s.unicode_len();
    let np = p.unicode_len();
    if np > n {
        return false;
    }
    if np == 0 {
        proof {
            assert(s@.subrange(0, 0 + p@.len() as int) =~= p@);
        }
        return true;
    }
    let mut i: usize = 0;
    while i <= n - np
        invariant
            n == s@.len(),
            np == p@.len(),
            0 < np <= n,
            0 <= i <= n - np + 1,
            forall|j: int| 0 <= j < i ==> #[trigger] s@.subrange(j, j + p@.len()) != p@,
        decreases n - i,
    {
        if match_at(s, i, p) {
            proof {
                assert(contains_seq(s@, p@)) by {
                    assert(s@.subrange(i as int, i + p@.len()) == p@);
                }
            }
            return true;
        }
        i += 1;
    }
    proof {
        assert forall|j: int| 0 <= j && j + p@.len() <= s@.len() implies #[trigger] s@.subrange(
            j,
            j + p@.len(),
        ) != p@ by {
            assert(j < i);
        }
    }
    false
}

/// Whether one of the strings in `v` has exactly the characters of `x`.
pub fn vec_contains_str(v: &Vec<String>, x: &str) -> (r: bool)
    ensures
        r == v.deep_view().contains(x@),
{
    let mut i: usize = 0;
    while i < v.len()
        invariant
            0 <= i <= v@.len(),
            forall|k: int| 0 <= k < i ==> v.deep_view()[k] != x@,
        decreases v@.len() - i,
    {
        if str_eq(v[i].as_str(), x) {
            proof {
                assert(v.deep_view()[i as int] == x@);
            }
            return true;
        }
        i += 1;
    }
    proof {
        assert forall|k: int| 0 <= k < v.deep_view().len() implies v.deep_view()[k] != x@ by {}
    }
    false
}

/// A copy of a vector of strings, character-identical to the original.
pub fn clone_string_vec(v: &Vec<String>) -> (r: Vec<String>)
    ensures
        r.deep_view() == v.deep_view(),
{
    let mut r: Vec<String> = Vec::new();
    let mut i: usize = 0;
    proof {
        assert(r.deep_view() =~= v.deep_view().take(0));
    }
    while i < v.len()
        invariant
            0 <= i <= v@.len(),
            r.deep_view() == v.deep_view().take(i as int),
        decreases v@.len() - i,
    {
        let ghost pre = r.deep_view();
        r.push(v[i].clone());
        proof {
            assert(r.deep_view() =~= pre.push(v.deep_view()[i as int]));
            assert(v.deep_view().take(i + 1) =~= pre.push(v.deep_view()[i as int]));
        }
        i += 1;
    }
    proof {
        assert(v.deep_view().take(v.deep_view().len() as int) =~= v.deep_view());
    }
    r
}

/// Appends a copy of every string in `src` to `dst`, in order.
pub fn append_all(dst: &mut Vec<String>, src: &Vec<String>)
    ensures
        final(dst).deep_view() == old(dst).deep_view() + src.deep_view(),
{
    let ghost base = dst.deep_view();
    let ghost sv = src.deep_view();
    let mut i: usize = 0;
    proof {
        assert(dst.deep_view() =~= base + sv.take(0));
    }
    while i < src.len()
        invariant
            0 <= i <= src@.len(),
            base == old(dst).deep_view(),
            sv == src.deep_view(),
            dst.deep_view() == base + sv.take(i as int),
        decreases src@.len() - i,
    {
        let ghost pre = dst.deep_view();
        dst.push(src[i].clone());
        proof {
            assert(dst.deep_view() =~= pre.push(sv[i as int]));
            assert(base + sv.take(i + 1) =~= pre.push(sv[i as int]));
        }
        i += 1;
    }
    proof {
        assert(base + sv.take(sv.len() as int) =~= base + sv);
    }
}

/// Whether `p` occurs in `s` at exactly position `at`.
fn match_at(s: &str, at: usize, p: &str) -> (r: bool)
    requires
        at + p@.len() <= s@.len(),
    ensures
        r == (s@.subrange(at as int, at + p@.len()) == p@),
{
    let n = s.unicode_len();
    let np = p.unicode_len();
    let mut i: usize = 0;
    while i < np
        invariant
            n == s@.len(),
            np == p@.len(),
            at + np <= n,
            0 <= i <= np,
            forall|k: int| 0 <= k < i ==> s@[at + k] == p@[k],
        decreases np - i,
    {
        if s.get_char(at + i) != p.get_char(i) {
            proof {
                assert(s@.subrange(at as int, at + p@.len())[i as int] == s@[at + i]);
            }
            return false;
        }
        i += 1;
    }
    proof {
        assert(s@.subrange(at as int, at + p@.len()) =~= p@);
    }
    true
}

} // verus!

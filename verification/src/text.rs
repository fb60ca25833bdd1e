//! Verified text primitives for the filter-expression algebra.
//!
//! Filter expressions are plain strings; appending, trimming and searching
//! clauses are string edits. This module defines the mathematical meaning of
//! those edits over `Seq<char>` (substring search, removal of the first or of
//! every occurrence of a pattern, whitespace collapsing, case-insensitive
//! containment) and implements each one as executable code proved against its
//! specification.

use vstd::prelude::*;

verus! {

/// The whitespace characters recognised by the algebra: the ASCII whitespace
/// set. Expressions built by this library only ever contain plain spaces.
pub open spec fn is_space(c: char) -> bool {
    c == ' ' || c == '\t' || c == '\n' || c == '\r' || c == '\u{b}' || c == '\u{c}'
}

/// Executable test for [`is_space`].
pub fn is_space_char(c: char) -> (r: bool)
    ensures
        r == is_space(c),
{
    c == ' ' || c == '\t' || c == '\n' || c == '\r' || c == '\u{b}' || c == '\u{c}'
}

/// `pat` occurs in `s` starting at index `i`.
pub open spec fn sub_at(s: Seq<char>, pat: Seq<char>, i: int) -> bool {
    &&& 0 <= i
    &&& i + pat.len() <= s.len()
    &&& s.subrange(i, i + pat.len() as int) == pat
}

/// `pat` occurs somewhere in `s`.
pub open spec fn has_sub(s: Seq<char>, pat: Seq<char>) -> bool {
    exists|i: int| sub_at(s, pat, i)
}

/// Index of the first occurrence of `pat` in `s` at or after `from`,
/// or `-1` if there is none.
pub open spec fn find_at(s: Seq<char>, pat: Seq<char>, from: int) -> int
    decreases s.len() - from,
    when 0 <= from <= s.len()
{
    if from + pat.len() > s.len() {
        -1
    } else if pat.len() == 0 {
        from
    } else if sub_at(s, pat, from) {
        from
    } else {
        find_at(s, pat, from + 1)
    }
}

/// Index of the first occurrence of `pat` in `s`, or `-1`.
pub open spec fn find_first(s: Seq<char>, pat: Seq<char>) -> int {
    find_at(s, pat, 0)
}

/// What [`find_at`] returns: the first occurrence at or after `from`.
pub proof fn lemma_find_at(s: Seq<char>, pat: Seq<char>, from: int)
    requires
        0 <= from <= s.len(),
    ensures
        find_at(s, pat, from) == -1 ==> forall|j: int| from <= j ==> !sub_at(s, pat, j),
        find_at(s, pat, from) != -1 ==> {
            let r = find_at(s, pat, from);
            &&& from <= r
            &&& sub_at(s, pat, r)
            &&& forall|j: int| from <= j < r ==> !sub_at(s, pat, j)
        },
    decreases s.len() - from,
{
    if from + pat.len() > s.len() {
        assert forall|j: int| from <= j implies !sub_at(s, pat, j) by {
            assert(j + pat.len() > s.len());
        }
    } else if pat.len() == 0 {
        assert(s.subrange(from, from) =~= pat);
        assert(sub_at(s, pat, from));
    } else if sub_at(s, pat, from) {
    } else {
        lemma_find_at(s, pat, from + 1);
    }
}

/// If `pat` first occurs at `i`, then [`find_first`] returns `i`.
pub proof fn lemma_find_first_is(s: Seq<char>, pat: Seq<char>, i: int)
    requires
        sub_at(s, pat, i),
        forall|j: int| 0 <= j < i ==> !sub_at(s, pat, j),
    ensures
        find_first(s, pat) == i,
{
    lemma_find_at(s, pat, 0);
}

/// If `pat` occurs nowhere, [`find_first`] returns `-1`.
pub proof fn lemma_find_first_none(s: Seq<char>, pat: Seq<char>)
    requires
        forall|j: int| !sub_at(s, pat, j),
    ensures
        find_first(s, pat) == -1,
{
    lemma_find_at(s, pat, 0);
}

/// [`find_first`] succeeds exactly on the strings that contain the pattern.
pub proof fn lemma_has_sub_find(s: Seq<char>, pat: Seq<char>)
    ensures
        has_sub(s, pat) <==> find_first(s, pat) != -1,
{
    lemma_find_at(s, pat, 0);
    if find_first(s, pat) != -1 {
        assert(sub_at(s, pat, find_first(s, pat)));
    }
}

/// `s` with the first occurrence of `pat` removed; `s` itself if `pat` does
/// not occur.
pub open spec fn remove_first(s: Seq<char>, pat: Seq<char>) -> Seq<char> {
    let i = find_first(s, pat);
    if i < 0 {
        s
    } else {
        s.subrange(0, i) + s.subrange(i + pat.len() as int, s.len() as int)
    }
}

/// `s` with every occurrence of `pat` removed, scanning left to right and
/// resuming after each removed occurrence. An empty pattern removes nothing.
pub open spec fn remove_all(s: Seq<char>, pat: Seq<char>) -> Seq<char>
    decreases s.len(),
    via remove_all_decreases
{
    if pat.len() == 0 {
        s
    } else {
        let i = find_first(s, pat);
        if i < 0 {
            s
        } else {
            s.subrange(0, i) + remove_all(
                s.subrange(i + pat.len() as int, s.len() as int),
                pat,
            )
        }
    }
}

#[via_fn]
proof fn remove_all_decreases(s: Seq<char>, pat: Seq<char>) {
    if pat.len() > 0 {
        lemma_find_at(s, pat, 0);
    }
}

/// `s` without leading and trailing whitespace.
pub open spec fn trim_spec(s: Seq<char>) -> Seq<char>
    decreases s.len(),
{
    if s.len() == 0 {
        s
    } else if is_space(s[0]) {
        trim_spec(s.subrange(1, s.len() as int))
    } else if is_space(s[s.len() - 1]) {
        trim_spec(s.subrange(0, s.len() - 1))
    } else {
        s
    }
}

/// Trimming a string whose ends are not whitespace leaves it unchanged.
pub proof fn lemma_trim_noop(s: Seq<char>)
    requires
        s.len() == 0 || (!is_space(s[0]) && !is_space(s[s.len() - 1])),
    ensures
        trim_spec(s) == s,
{
}

/// A string of whitespace trims to the empty string.
pub proof fn lemma_trim_all_space(s: Seq<char>)
    requires
        forall|k: int| 0 <= k < s.len() ==> is_space(#[trigger] s[k]),
    ensures
        trim_spec(s) == Seq::<char>::empty(),
    decreases s.len(),
{
    if s.len() == 0 {
        assert(s =~= Seq::<char>::empty());
    } else {
        lemma_trim_all_space(s.subrange(1, s.len() as int));
    }
}

/// Trimming keeps exactly the span from the first to the last non-whitespace
/// character.
pub proof fn lemma_trim_middle(s: Seq<char>, a: int, b: int)
    requires
        0 <= a <= b < s.len(),
        !is_space(s[a]),
        !is_space(s[b]),
        forall|k: int| 0 <= k < a ==> is_space(#[trigger] s[k]),
        forall|k: int| b < k < s.len() ==> is_space(#[trigger] s[k]),
    ensures
        trim_spec(s) == s.subrange(a, b + 1),
    decreases s.len(),
{
    if a > 0 {
        let t = s.subrange(1, s.len() as int);
        lemma_trim_middle(t, a - 1, b - 1);
        assert(t.subrange(a - 1, b) =~= s.subrange(a, b + 1));
    } else if b + 1 < s.len() {
        let t = s.subrange(0, s.len() - 1);
        lemma_trim_middle(t, a, b);
        assert(t.subrange(a, b + 1) =~= s.subrange(a, b + 1));
    } else {
        assert(s.subrange(a, b + 1) =~= s);
    }
}

/// Trimming never lengthens a string.
pub proof fn lemma_trim_len(s: Seq<char>)
    ensures
        trim_spec(s).len() <= s.len(),
    decreases s.len(),
{
    if s.len() == 0 {
    } else if is_space(s[0]) {
        lemma_trim_len(s.subrange(1, s.len() as int));
    } else if is_space(s[s.len() - 1]) {
        lemma_trim_len(s.subrange(0, s.len() - 1));
    }
}

/// `s` with every maximal run of whitespace between words replaced by one
/// space, and leading and trailing whitespace dropped.
pub open spec fn collapse(s: Seq<char>) -> Seq<char>
    decreases s.len(), 0int,
{
    if s.len() == 0 {
        Seq::<char>::empty()
    } else if is_space(s[0]) {
        collapse(s.subrange(1, s.len() as int))
    } else {
        seq![s[0]] + collapse_in_word(s.subrange(1, s.len() as int))
    }
}

/// [`collapse`] continued from a position known to sit right after a
/// non-whitespace character.
pub open spec fn collapse_in_word(s: Seq<char>) -> Seq<char>
    decreases s.len(), 1int,
{
    if s.len() == 0 {
        Seq::<char>::empty()
    } else if !is_space(s[0]) {
        seq![s[0]] + collapse_in_word(s.subrange(1, s.len() as int))
    } else {
        let rest = collapse(s.subrange(1, s.len() as int));
        if rest.len() == 0 {
            Seq::<char>::empty()
        } else {
            seq![' '] + rest
        }
    }
}

/// The character code compared by case-insensitive matching: ASCII upper-case
/// letters are mapped onto their lower-case counterparts, every other
/// character onto itself.
pub open spec fn lower_code(c: char) -> int {
    if 'A' as int <= c as int && c as int <= 'Z' as int {
        c as int + 32
    } else {
        c as int
    }
}

/// Two characters are equal up to ASCII case.
pub open spec fn chars_eq_ci(a: char, b: char) -> bool {
    lower_code(a) == lower_code(b)
}

/// `pat` occurs at index `i` of `s`, comparing characters up to ASCII case.
pub open spec fn ci_sub_at(s: Seq<char>, pat: Seq<char>, i: int) -> bool {
    &&& 0 <= i
    &&& i + pat.len() <= s.len()
    &&& forall|j: int| 0 <= j < pat.len() ==> chars_eq_ci(s[i + j], #[trigger] pat[j])
}

/// `pat` occurs somewhere in `s`, up to ASCII case.
pub open spec fn ci_contains(s: Seq<char>, pat: Seq<char>) -> bool {
    exists|i: int| ci_sub_at(s, pat, i)
}

/// Executable test for [`chars_eq_ci`].
pub fn chars_eq_ci_exec(a: char, b: char) -> (r: bool)
    ensures
        r == chars_eq_ci(a, b),
{
    lower_code_exec(a) == lower_code_exec(b)
}

fn lower_code_exec(c: char) -> (r: u32)
    ensures
        r as int == lower_code(c),
{
    let x = c as u32;
    if 'A' as u32 <= x && x <= 'Z' as u32 {
        x + 32
    } else {
        x
    }
}

/// Whether `pat` matches `s` exactly at index `i`.
fn match_at(s: &str, pat: &str, i: usize) -> (r: bool)
    requires
        i + pat@.len() <= s@.len(),
    ensures
        r == sub_at(s@, pat@, i as int),
{
    let n = s.unicode_len();
    let m = pat.unicode_len();
    let mut j: usize = 0;
    while j < m
        invariant
            0 <= j <= m,
            n == s@.len(),
            m == pat@.len(),
            i + m <= n,
            forall|k: int| 0 <= k < j ==> s@[i + k] == pat@[k],
        decreases m - j,
    {
        if s.get_char(i + j) != pat.get_char(j) {
            proof {
                assert(s@.subrange(i as int, i + m as int)[j as int] == s@[i + j]);
            }
            return false;
        }
        j += 1;
    }
    proof {
        assert(s@.subrange(i as int, i + m as int) =~= pat@);
    }
    true
}

/// Index of the first occurrence of `pat` in `s`, if any.
pub fn find_sub(s: &str, pat: &str) -> (r: Option<usize>)
    ensures
        match r {
            Some(i) => find_first(s@, pat@) == i as int,
            None => find_first(s@, pat@) == -1,
        },
{
    let n = s.unicode_len();
    let m = pat.unicode_len();
    if m > n {
        proof {
            lemma_find_first_none(s@, pat@);
        }
        return None;
    }
    if m == 0 {
        return Some(0);
    }
    let mut i: usize = 0;
    while i <= n - m
        invariant
            0 <= i <= n - m + 1,
            n == s@.len(),
            m == pat@.len(),
            1 <= m <= n,
            forall|j: int| 0 <= j < i ==> !sub_at(s@, pat@, j),
        decreases n - m + 1 - i,
    {
        if match_at(s, pat, i) {
            proof {
                lemma_find_first_is(s@, pat@, i as int);
            }
            return Some(i);
        }
        i += 1;
    }
    proof {
        assert forall|j: int| !sub_at(s@, pat@, j) by {
            if i <= j {
                assert(j + pat@.len() > s@.len());
            }
        }
        lemma_find_first_none(s@, pat@);
    }
    None
}

/// Whether `pat` occurs in `s`.
pub fn contains_sub(s: &str, pat: &str) -> (r: bool)
    ensures
        r == has_sub(s@, pat@),
{
    proof {
        lemma_has_sub_find(s@, pat@);
    }
    find_sub(s, pat).is_some()
}

/// Whether `pat` occurs in `s`, comparing up to ASCII case.
pub fn contains_ci(s: &str, pat: &str) -> (r: bool)
    ensures
        r == ci_contains(s@, pat@),
{
    let n = s.unicode_len();
    let m = pat.unicode_len();
    if m > n {
        return false;
    }
    if m == 0 {
        assert(ci_sub_at(s@, pat@, 0));
        return true;
    }
    let mut i: usize = 0;
    while i <= n - m
        invariant
            0 <= i <= n - m + 1,
            n == s@.len(),
            m == pat@.len(),
            1 <= m <= n,
            forall|j: int| 0 <= j < i ==> !ci_sub_at(s@, pat@, j),
        decreases n - m + 1 - i,
    {
        if ci_match_at(s, pat, i) {
            return true;
        }
        i += 1;
    }
    assert forall|j: int| !ci_sub_at(s@, pat@, j) by {
        if i <= j {
            assert(j + pat@.len() > s@.len());
        }
    }
    false
}

fn ci_match_at(s: &str, pat: &str, i: usize) -> (r: bool)
    requires
        i + pat@.len() <= s@.len(),
    ensures
        r == ci_sub_at(s@, pat@, i as int),
{
    let n = s.unicode_len();
    let m = pat.unicode_len();
    let mut j: usize = 0;
    while j < m
        invariant
            0 <= j <= m,
            n == s@.len(),
            m == pat@.len(),
            i + m <= n,
            forall|k: int| 0 <= k < j ==> chars_eq_ci(s@[i + k], #[trigger] pat@[k]),
        decreases m - j,
    {
        if !chars_eq_ci_exec(s.get_char(i + j), pat.get_char(j)) {
            return false;
        }
        j += 1;
    }
    true
}

/// `s` without leading and trailing whitespace, as a fresh string.
pub fn trim_ends(s: &str) -> (r: String)
    ensures
        r@ == trim_spec(s@),
{
    let n = s.unicode_len();
    let mut a: usize = 0;
    loop
        invariant
            0 <= a <= n,
            n == s@.len(),
            forall|k: int| 0 <= k < a ==> is_space(#[trigger] s@[k]),
        ensures
            0 <= a <= n,
            forall|k: int| 0 <= k < a ==> is_space(#[trigger] s@[k]),
            a == n || !is_space(s@[a as int]),
        decreases n - a,
    {
        if a == n {
            break ;
        }
        if !is_space_char(s.get_char(a)) {
            break ;
        }
        a += 1;
    }
    if a == n {
        proof {
            lemma_trim_all_space(s@);
        }
        return String::new();
    }
    let mut b: usize = n - 1;
    loop
        invariant
            a <= b < n,
            n == s@.len(),
            !is_space(s@[a as int]),
            forall|k: int| b < k < n ==> is_space(#[trigger] s@[k]),
        ensures
            a <= b < n,
            !is_space(s@[b as int]),
            forall|k: int| b < k < n ==> is_space(#[trigger] s@[k]),
        decreases b,
    {
        if !is_space_char(s.get_char(b)) {
            break ;
        }
        b -= 1;
    }
    let r = s.substring_char(a, b + 1);
    proof {
        lemma_trim_middle(s@, a as int, b as int);
    }
    r.to_owned()
}

/// `s` with the first occurrence of `pat` removed.
pub fn remove_first_sub(s: &str, pat: &str) -> (r: String)
    ensures
        r@ == remove_first(s@, pat@),
{
    let n = s.unicode_len();
    let m = pat.unicode_len();
    match find_sub(s, pat) {
        None => s.to_owned(),
        Some(i) => {
            proof {
                lemma_find_at(s@, pat@, 0);
            }
            let pre = s.substring_char(0, i);
            let post = s.substring_char(i + m, n);
            String::from_str(pre).concat(post)
        },
    }
}

/// `s` with every occurrence of `pat` removed.
pub fn remove_all_sub(s: &str, pat: &str) -> (r: String)
    ensures
        r@ == remove_all(s@, pat@),
    decreases s@.len(),
{
    let n = s.unicode_len();
    let m = pat.unicode_len();
    if m == 0 {
        return s.to_owned();
    }
    match find_sub(s, pat) {
        None => s.to_owned(),
        Some(i) => {
            proof {
                lemma_find_at(s@, pat@, 0);
            }
            let pre = s.substring_char(0, i);
            let rest = s.substring_char(i + m, n);
            let cleaned = remove_all_sub(rest, pat);
            String::from_str(pre).concat(cleaned.as_str())
        },
    }
}

/// `s` with whitespace collapsed: words joined by single spaces, ends bare.
pub fn collapse_ws(s: &str) -> (r: String)
    ensures
        r@ == collapse(s@),
    decreases s@.len(), 0int,
{
    let n = s.unicode_len();
    if n == 0 {
        String::new()
    } else {
        let c = s.get_char(0);
        let rest = s.substring_char(1, n);
        if is_space_char(c) {
            collapse_ws(rest)
        } else {
            let head = s.substring_char(0, 1);
            let tail = collapse_word(rest);
            proof {
                assert(head@ =~= seq![s@[0]]);
            }
            String::from_str(head).concat(tail.as_str())
        }
    }
}

fn collapse_word(s: &str) -> (r: String)
    ensures
        r@ == collapse_in_word(s@),
    decreases s@.len(), 1int,
{
    let n = s.unicode_len();
    if n == 0 {
        String::new()
    } else {
        let c = s.get_char(0);
        if !is_space_char(c) {
            let head = s.substring_char(0, 1);
            let rest = s.substring_char(1, n);
            let tail = collapse_word(rest);
            proof {
                assert(head@ =~= seq![s@[0]]);
            }
            String::from_str(head).concat(tail.as_str())
        } else {
            let rest = collapse_ws(s);
            if rest.unicode_len() == 0 {
                proof {
                    assert(collapse(s@) == collapse(s@.subrange(1, s@.len() as int)));
                }
                String::new()
            } else {
                proof {
                    reveal_strlit(" ");
                    assert(" "@ =~= seq![' ']);
                }
                String::from_str(" ").concat(rest.as_str())
            }
        }
    }
}

/// Every whitespace character in `s` is a plain space, and each space is
/// followed (within bounds) by a non-space character: spaces are single and
/// never trailing.
pub open spec fn tail_norm(s: Seq<char>) -> bool {
    &&& forall|i: int| 0 <= i < s.len() && is_space(#[trigger] s[i]) ==> s[i] == ' '
    &&& forall|i: int| 0 <= i < s.len() && #[trigger] s[i] == ' ' ==> i + 1 < s.len() && s[i + 1]
        != ' '
}

/// [`tail_norm`], and additionally no leading space: the string is already in
/// the form [`collapse`] produces.
pub open spec fn norm(s: Seq<char>) -> bool {
    &&& tail_norm(s)
    &&& s.len() > 0 ==> s[0] != ' '
}

/// A normalized string is a fixed point of [`collapse`], with or without one
/// trailing space.
pub proof fn lemma_collapse_norm(s: Seq<char>)
    requires
        norm(s),
    ensures
        collapse(s) == s,
        collapse(s + seq![' ']) == s,
    decreases s.len(),
{
    let sp = seq![' '];
    if s.len() == 0 {
        assert(s =~= Seq::<char>::empty());
        assert((s + sp) =~= sp);
        assert(sp.subrange(1, 1) =~= Seq::<char>::empty());
        assert(collapse(sp) == collapse(sp.subrange(1, 1)));
    } else {
        assert(!is_space(s[0]));
        let t = s.subrange(1, s.len() as int);
        assert(tail_norm(t)) by {
            assert(forall|i: int| 0 <= i < t.len() ==> t[i] == s[i + 1]);
        }
        lemma_collapse_in_word_norm(t);
        assert((s + sp)[0] == s[0]);
        assert((s + sp).subrange(1, (s + sp).len() as int) =~= t + sp);
        assert(seq![s[0]] + t =~= s);
        assert(collapse(s) == seq![s[0]] + collapse_in_word(t));
        assert(collapse(s + sp) == seq![s[0]] + collapse_in_word(t + sp));
    }
}

/// As [`lemma_collapse_norm`], for the in-word continuation: a string whose
/// spaces are single and non-trailing is a fixed point of
/// [`collapse_in_word`], with or without one trailing space.
pub proof fn lemma_collapse_in_word_norm(t: Seq<char>)
    requires
        tail_norm(t),
    ensures
        collapse_in_word(t) == t,
        collapse_in_word(t + seq![' ']) == t,
    decreases t.len(),
{
    let sp = seq![' '];
    if t.len() == 0 {
        assert(t =~= Seq::<char>::empty());
        assert((t + sp) =~= sp);
        assert(is_space(sp[0]));
        assert(sp.subrange(1, 1) =~= Seq::<char>::empty());
        assert(collapse(sp.subrange(1, 1)) == Seq::<char>::empty());
        assert(collapse_in_word(t + sp) == Seq::<char>::empty());
    } else if !is_space(t[0]) {
        let u = t.subrange(1, t.len() as int);
        assert(tail_norm(u)) by {
            assert(forall|i: int| 0 <= i < u.len() ==> u[i] == t[i + 1]);
        }
        lemma_collapse_in_word_norm(u);
        assert((t + sp)[0] == t[0]);
        assert((t + sp).subrange(1, (t + sp).len() as int) =~= u + sp);
        assert(seq![t[0]] + u =~= t);
        assert(collapse_in_word(t) == seq![t[0]] + collapse_in_word(u));
        assert(collapse_in_word(t + sp) == seq![t[0]] + collapse_in_word(u + sp));
    } else {
        // t starts with a single interior space: a word follows.
        assert(t[0] == ' ');
        assert(1 < t.len() && t[1] != ' ');
        let u = t.subrange(1, t.len() as int);
        assert(u[0] == t[1]);
        assert(!is_space(u[0]));
        assert(norm(u)) by {
            assert(forall|i: int| 0 <= i < u.len() ==> u[i] == t[i + 1]);
        }
        lemma_collapse_norm(u);
        assert(u.len() > 0);
        assert(collapse(u).len() > 0);
        assert(collapse_in_word(t) == seq![' '] + collapse(t.subrange(1, t.len() as int)));
        assert(seq![' '] + u =~= t);
        assert((t + sp)[0] == ' ');
        assert(is_space((t + sp)[0]));
        assert((t + sp).subrange(1, (t + sp).len() as int) =~= u + sp);
        assert(collapse_in_word(t + sp) == seq![' '] + collapse(u + sp));
    }
}

/// Whether two string slices hold the same characters.
pub fn str_eq(a: &str, b: &str) -> (r: bool)
    ensures
        r == (a@ == b@),
{
    let n = a.unicode_len();
    let m = b.unicode_len();
    if n != m {
        proof {
            assert(a@ != b@);
        }
        return false;
    }
    let mut i: usize = 0;
    while i < n
        invariant
            0 <= i <= n,
            n == a@.len(),
            n == b@.len(),
            forall|k: int| 0 <= k < i ==> a@[k] == b@[k],
        decreases n - i,
    {
        if a.get_char(i) != b.get_char(i) {
            return false;
        }
        i += 1;
    }
    proof {
        assert(a@ =~= b@);
    }
    true
}

/// A collapsed string is bare at both ends: it never starts or ends with
/// whitespace.
pub proof fn lemma_collapse_shape(s: Seq<char>)
    ensures
        collapse(s).len() > 0 ==> !is_space(collapse(s)[0]) && !is_space(
            collapse(s)[collapse(s).len() - 1],
        ),
    decreases s.len(), 0int,
{
    if s.len() == 0 {
    } else if is_space(s[0]) {
        lemma_collapse_shape(s.subrange(1, s.len() as int));
    } else {
        let rest = s.subrange(1, s.len() as int);
        lemma_collapse_in_word_shape(rest);
        let w = collapse_in_word(rest);
        assert(collapse(s) == seq![s[0]] + w);
        if w.len() > 0 {
            assert((seq![s[0]] + w)[(seq![s[0]] + w).len() - 1] == w[w.len() - 1]);
        }
    }
}

/// The in-word continuation of a collapse never ends with whitespace.
pub proof fn lemma_collapse_in_word_shape(t: Seq<char>)
    ensures
        collapse_in_word(t).len() > 0 ==> !is_space(
            collapse_in_word(t)[collapse_in_word(t).len() - 1],
        ),
    decreases t.len(), 1int,
{
    if t.len() == 0 {
    } else if !is_space(t[0]) {
        let rest = t.subrange(1, t.len() as int);
        lemma_collapse_in_word_shape(rest);
        let w = collapse_in_word(rest);
        assert(collapse_in_word(t) == seq![t[0]] + w);
        if w.len() > 0 {
            assert((seq![t[0]] + w)[(seq![t[0]] + w).len() - 1] == w[w.len() - 1]);
        }
    } else {
        let rest = collapse(t.subrange(1, t.len() as int));
        lemma_collapse_shape(t.subrange(1, t.len() as int));
        if rest.len() > 0 {
            assert((seq![' '] + rest)[(seq![' '] + rest).len() - 1] == rest[rest.len() - 1]);
        }
    }
}

/// A string equal to its own trim is bare at both ends.
pub proof fn lemma_trim_clean_ends(s: Seq<char>)
    requires
        trim_spec(s) == s,
        s.len() > 0,
    ensures
        !is_space(s[0]),
        !is_space(s[s.len() - 1]),
{
    if is_space(s[0]) {
        lemma_trim_len(s.subrange(1, s.len() as int));
    } else if is_space(s[s.len() - 1]) {
        lemma_trim_len(s.subrange(0, s.len() - 1));
    }
}

/// How many disjoint occurrences of `pat` a left-to-right scan of `s` finds,
/// resuming after each one; an empty pattern counts zero.
pub open spec fn count_sub(s: Seq<char>, pat: Seq<char>) -> int
    decreases s.len(),
    via count_sub_decreases
{
    if pat.len() == 0 {
        0
    } else {
        let i = find_first(s, pat);
        if i < 0 {
            0
        } else {
            1 + count_sub(s.subrange(i + pat.len() as int, s.len() as int), pat)
        }
    }
}

#[via_fn]
proof fn count_sub_decreases(s: Seq<char>, pat: Seq<char>) {
    if pat.len() > 0 {
        lemma_find_at(s, pat, 0);
    }
}

/// A string without the pattern counts zero occurrences.
pub proof fn lemma_count_sub_none(s: Seq<char>, pat: Seq<char>)
    requires
        forall|j: int| !sub_at(s, pat, j),
    ensures
        count_sub(s, pat) == 0,
{
    if pat.len() > 0 {
        lemma_find_first_none(s, pat);
    }
}

/// Splicing the pattern once between `e` and a tail free of it adds exactly
/// one counted occurrence, provided no occurrence straddles either seam: the
/// hypothesis says every occurrence in the spliced string lies fully inside
/// `e` or is the spliced one itself.
pub proof fn lemma_count_sub_splice(e: Seq<char>, pat: Seq<char>, c: Seq<char>)
    requires
        pat.len() > 0,
        forall|i: int| sub_at(e + pat + c, pat, i) ==> i + pat.len() <= e.len() || i == e.len(),
        forall|j: int| !sub_at(c, pat, j),
    ensures
        count_sub(e + pat + c, pat) == count_sub(e, pat) + 1,
    decreases e.len(),
{
    let big = e + pat + c;
    assert(sub_at(big, pat, e.len() as int)) by {
        assert(big.subrange(e.len() as int, e.len() + pat.len() as int) =~= pat);
    }
    lemma_find_at(e, pat, 0);
    let fe = find_first(e, pat);
    if fe >= 0 {
        assert(sub_at(e, pat, fe));
        assert(sub_at(big, pat, fe)) by {
            assert(big.subrange(fe, fe + pat.len() as int) =~= e.subrange(
                fe,
                fe + pat.len() as int,
            ));
        }
        assert forall|j: int| 0 <= j < fe implies !sub_at(big, pat, j) by {
            if sub_at(big, pat, j) {
                assert(j + pat.len() <= e.len());
                assert(sub_at(e, pat, j)) by {
                    assert(e.subrange(j, j + pat.len() as int) =~= big.subrange(
                        j,
                        j + pat.len() as int,
                    ));
                }
            }
        }
        lemma_find_first_is(big, pat, fe);
        let off = fe + pat.len() as int;
        let e2 = e.subrange(off, e.len() as int);
        let big2 = big.subrange(off, big.len() as int);
        assert(big2 =~= e2 + pat + c);
        assert forall|i: int|
            sub_at(e2 + pat + c, pat, i) implies i + pat.len() <= e2.len() || i == e2.len() by {
            if sub_at(e2 + pat + c, pat, i) {
                assert(sub_at(big, pat, i + off)) by {
                    assert(big.subrange(i + off, i + off + pat.len() as int) =~= (e2 + pat
                        + c).subrange(i, i + pat.len() as int));
                }
            }
        }
        lemma_count_sub_splice(e2, pat, c);
        assert(count_sub(big, pat) == 1 + count_sub(big2, pat));
        assert(count_sub(e, pat) == 1 + count_sub(e2, pat));
    } else {
        assert forall|j: int| 0 <= j < e.len() implies !sub_at(big, pat, j) by {
            if sub_at(big, pat, j) {
                assert(j + pat.len() <= e.len());
                assert(sub_at(e, pat, j)) by {
                    assert(e.subrange(j, j + pat.len() as int) =~= big.subrange(
                        j,
                        j + pat.len() as int,
                    ));
                }
            }
        }
        lemma_find_first_is(big, pat, e.len() as int);
        let rest = big.subrange(e.len() + pat.len() as int, big.len() as int);
        assert(rest =~= c);
        lemma_count_sub_none(c, pat);
        assert(count_sub(big, pat) == 1 + count_sub(rest, pat));
        assert(count_sub(e, pat) == 0);
    }
}

} // verus!

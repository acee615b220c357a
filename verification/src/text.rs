//! Character-sequence utilities shared by the tokenizers and parsers.
//!
//! Input text is handled as vectors of characters; the functions here give
//! exact, executable counterparts to the spec-level sequence operations
//! (searching, whitespace handling, splitting, trimming).

use vstd::prelude::*;
use vstd::string::StringExecFns;

verus! {

/// Whether the string `a` holds exactly the characters of `lit`.
pub fn string_eq_str(a: &String, lit: &str) -> (r: bool)
    ensures
        r == (a@ == lit@),
{
    let b = String::from_str(lit);
    *a == b
}

/// The whitespace characters this engine recognizes: the Unicode
/// White_Space set, as `char::is_whitespace` defines it.
pub open spec fn is_ws(c: char) -> bool {
    ||| c == '\u{0009}'
    ||| c == '\u{000A}'
    ||| c == '\u{000B}'
    ||| c == '\u{000C}'
    ||| c == '\u{000D}'
    ||| c == ' '
    ||| c == '\u{0085}'
    ||| c == '\u{00A0}'
    ||| c == '\u{1680}'
    ||| ('\u{2000}' <= c && c <= '\u{200A}')
    ||| c == '\u{2028}'
    ||| c == '\u{2029}'
    ||| c == '\u{202F}'
    ||| c == '\u{205F}'
    ||| c == '\u{3000}'
}

/// Executable test for [`is_ws`].
pub fn is_ws_char(c: char) -> (r: bool)
    ensures
        r == is_ws(c),
{
    c == '\u{0009}' || c == '\u{000A}' || c == '\u{000B}' || c == '\u{000C}' || c == '\u{000D}'
        || c == ' ' || c == '\u{0085}' || c == '\u{00A0}' || c == '\u{1680}' || ('\u{2000}' <= c
        && c <= '\u{200A}') || c == '\u{2028}' || c == '\u{2029}' || c == '\u{202F}' || c
        == '\u{205F}' || c == '\u{3000}'
}

/// Index of the first occurrence of `c` at or after `pos`, if any.
pub open spec fn find_from(s: Seq<char>, pos: int, c: char) -> Option<int>
    decreases s.len() - pos,
{
    if pos < 0 || pos >= s.len() {
        None
    } else if s[pos] == c {
        Some(pos)
    } else {
        find_from(s, pos + 1, c)
    }
}

pub proof fn lemma_find_from(s: Seq<char>, pos: int, c: char)
    requires
        0 <= pos,
    ensures
        match find_from(s, pos, c) {
            Some(e) => pos <= e < s.len() && s[e] == c,
            None => true,
        },
    decreases s.len() - pos,
{
    if pos < s.len() && s[pos] != c {
        lemma_find_from(s, pos + 1, c);
    }
}

/// Executable search for a character, mirroring [`find_from`].
pub fn find_char(s: &Vec<char>, from: usize, c: char) -> (r: Option<usize>)
    ensures
        match r {
            Some(e) => find_from(s@, from as int, c) == Some(e as int),
            None => find_from(s@, from as int, c) is None,
        },
    decreases s@.len() - from,
{
    if from >= s.len() {
        None
    } else if s[from] == c {
        Some(from)
    } else {
        find_char(s, from + 1, c)
    }
}

/// Whether `pat` occurs in `s` starting exactly at `pos`.
pub open spec fn starts_with_at(s: Seq<char>, pos: int, pat: Seq<char>) -> bool {
    &&& 0 <= pos
    &&& pos + pat.len() <= s.len()
    &&& forall|k: int| 0 <= k < pat.len() ==> s[pos + k] == pat[k]
}

/// Executable prefix test, mirroring [`starts_with_at`].
pub fn starts_with_chars(s: &Vec<char>, pos: usize, pat: &Vec<char>) -> (r: bool)
    ensures
        r == starts_with_at(s@, pos as int, pat@),
{
    if pos > s.len() || pat.len() > s.len() - pos {
        return false;
    }
    let mut k: usize = 0;
    while k < pat.len()
        invariant
            0 <= k <= pat@.len(),
            pos + pat@.len() <= s@.len(),
            s@.len() <= usize::MAX,
            forall|j: int| 0 <= j < k ==> s@[pos + j] == pat@[j],
        decreases pat@.len() - k,
    {
        let idx: usize = pos + k;
        if s[idx] != pat[k] {
            return false;
        }
        k = k + 1;
    }
    true
}

/// Index of the first occurrence of the sequence `pat` at or after `pos`.
pub open spec fn find_seq_from(s: Seq<char>, pos: int, pat: Seq<char>) -> Option<int>
    decreases s.len() - pos,
{
    if pos < 0 || pos + pat.len() > s.len() {
        None
    } else if starts_with_at(s, pos, pat) {
        Some(pos)
    } else {
        find_seq_from(s, pos + 1, pat)
    }
}

pub proof fn lemma_find_seq_from(s: Seq<char>, pos: int, pat: Seq<char>)
    requires
        0 <= pos,
    ensures
        match find_seq_from(s, pos, pat) {
            Some(e) => pos <= e && e + pat.len() <= s.len() && starts_with_at(s, e, pat),
            None => true,
        },
    decreases s.len() - pos,
{
    if pos + pat.len() <= s.len() && !starts_with_at(s, pos, pat) {
        lemma_find_seq_from(s, pos + 1, pat);
    }
}

/// Executable search for a subsequence, mirroring [`find_seq_from`].
pub fn find_seq(s: &Vec<char>, from: usize, pat: &Vec<char>) -> (r: Option<usize>)
    ensures
        match r {
            Some(e) => find_seq_from(s@, from as int, pat@) == Some(e as int),
            None => find_seq_from(s@, from as int, pat@) is None,
        },
    decreases s@.len() + 1 - from,
{
    if from > s.len() || pat.len() > s.len() - from {
        return None;
    }
    if starts_with_chars(s, from, pat) {
        Some(from)
    } else {
        find_seq(s, from + 1, pat)
    }
}

/// First index at or after `pos` holding a non-whitespace character (or the
/// length of `s`).
pub open spec fn skip_ws(s: Seq<char>, pos: int) -> int
    decreases s.len() - pos,
{
    if pos < 0 || pos >= s.len() {
        pos
    } else if is_ws(s[pos]) {
        skip_ws(s, pos + 1)
    } else {
        pos
    }
}

pub proof fn lemma_skip_ws(s: Seq<char>, pos: int)
    requires
        0 <= pos <= s.len(),
    ensures
        pos <= skip_ws(s, pos) <= s.len(),
        skip_ws(s, pos) < s.len() ==> !is_ws(s[skip_ws(s, pos)]),
    decreases s.len() - pos,
{
    if pos < s.len() && is_ws(s[pos]) {
        lemma_skip_ws(s, pos + 1);
    }
}

/// Executable whitespace skip, mirroring [`skip_ws`].
pub fn skip_whitespace(s: &Vec<char>, from: usize) -> (r: usize)
    requires
        from <= s@.len(),
    ensures
        r as int == skip_ws(s@, from as int),
        from <= r <= s@.len(),
    decreases s@.len() - from,
{
    proof {
        lemma_skip_ws(s@, from as int);
    }
    if from >= s.len() {
        from
    } else if is_ws_char(s[from]) {
        skip_whitespace(s, from + 1)
    } else {
        from
    }
}

/// Copy of the characters of `s` in the range `[i, j)`.
pub fn sub_chars(s: &Vec<char>, i: usize, j: usize) -> (r: Vec<char>)
    requires
        i <= j <= s@.len(),
    ensures
        r@ == s@.subrange(i as int, j as int),
{
    let mut out: Vec<char> = Vec::new();
    let mut k: usize = i;
    while k < j
        invariant
            i <= k <= j <= s@.len(),
            out@ == s@.subrange(i as int, k as int),
        decreases j - k,
    {
        out.push(s[k]);
        proof {
            assert(out@ =~= s@.subrange(i as int, k + 1 as int));
        }
        k = k + 1;
    }
    out
}

/// Index just past the last non-whitespace character of `s` (0 if `s` is
/// all whitespace).
pub open spec fn end_trim(s: Seq<char>) -> int
    decreases s.len(),
{
    if s.len() == 0 {
        0
    } else if is_ws(s[s.len() - 1]) {
        end_trim(s.drop_last())
    } else {
        s.len() as int
    }
}

/// `s` with leading and trailing whitespace removed.
pub open spec fn trim(s: Seq<char>) -> Seq<char> {
    let r = s.subrange(0, end_trim(s));
    r.subrange(skip_ws(r, 0), r.len() as int)
}

/// Executable trim, mirroring [`trim`].
pub fn trim_chars(s: &Vec<char>) -> (out: Vec<char>)
    ensures
        out@ == trim(s@),
{
    let mut j: usize = s.len();
    proof {
        assert(s@.subrange(0, j as int) =~= s@);
    }
    while j > 0 && is_ws_char(s[j - 1])
        invariant
            0 <= j <= s@.len(),
            s@.len() <= usize::MAX,
            end_trim(s@) == end_trim(s@.subrange(0, j as int)),
        decreases j,
    {
        proof {
            assert(s@.subrange(0, j as int).drop_last() =~= s@.subrange(0, j - 1 as int));
        }
        j = j - 1;
    }
    proof {
        if j == 0 {
            assert(s@.subrange(0, 0) =~= Seq::<char>::empty());
        }
        assert(end_trim(s@) == j as int);
    }
    let ghost r = s@.subrange(0, j as int);
    let mut i: usize = 0;
    while i < j && is_ws_char(s[i])
        invariant
            0 <= i <= j <= s@.len(),
            s@.len() <= usize::MAX,
            r == s@.subrange(0, j as int),
            skip_ws(r, 0) == skip_ws(r, i as int),
        decreases j - i,
    {
        i = i + 1;
    }
    proof {
        assert(skip_ws(r, 0) == i as int);
        assert(trim(s@) =~= s@.subrange(i as int, j as int));
    }
    sub_chars(s, i, j)
}

/// `s` from `i` on, with every run of whitespace replaced by a single space;
/// `prev_space` says whether the position is at the start or just after an
/// emitted space (so further whitespace is dropped).
pub open spec fn collapse_ws(s: Seq<char>, i: int, prev_space: bool) -> Seq<char>
    decreases s.len() - i,
{
    if i < 0 || i >= s.len() {
        Seq::empty()
    } else if is_ws(s[i]) {
        if prev_space {
            collapse_ws(s, i + 1, true)
        } else {
            seq![' '] + collapse_ws(s, i + 1, true)
        }
    } else {
        seq![s[i]] + collapse_ws(s, i + 1, false)
    }
}

/// Whitespace-normalized form of a value: internal whitespace collapsed to
/// single spaces, leading and trailing whitespace removed.
pub open spec fn norm_value(s: Seq<char>) -> Seq<char> {
    let t = collapse_ws(s, 0, true);
    if t.len() > 0 && t.last() == ' ' {
        t.drop_last()
    } else {
        t
    }
}

/// Executable whitespace normalization, mirroring [`norm_value`].
pub fn normalize_value(s: &Vec<char>) -> (out: Vec<char>)
    ensures
        out@ == norm_value(s@),
{
    let n: usize = s.len();
    let mut acc: Vec<char> = Vec::new();
    let mut i: usize = 0;
    let mut prev: bool = true;
    while i < n
        invariant
            0 <= i <= n == s@.len(),
            n <= usize::MAX,
            acc@ + collapse_ws(s@, i as int, prev) == collapse_ws(s@, 0, true),
        decreases s@.len() - i,
    {
        if is_ws_char(s[i]) {
            if !prev {
                acc.push(' ');
                proof {
                    assert(acc@ + collapse_ws(s@, i + 1, true) =~= collapse_ws(s@, 0, true));
                }
            }
            prev = true;
        } else {
            acc.push(s[i]);
            proof {
                assert(acc@ + collapse_ws(s@, i + 1, false) =~= collapse_ws(s@, 0, true));
            }
            prev = false;
        }
        i = i + 1;
    }
    proof {
        assert(acc@ =~= collapse_ws(s@, 0, true));
    }
    if acc.len() > 0 && acc[acc.len() - 1] == ' ' {
        acc.pop();
    }
    acc
}

/// The pieces of `s` between occurrences of the separator `c`; an empty
/// input yields one empty piece, as `str::split` does.
pub open spec fn split_char(s: Seq<char>, c: char) -> Seq<Seq<char>>
    decreases s.len(),
    via split_char_dec
{
    match find_from(s, 0, c) {
        Option::None => seq![s],
        Option::Some(e) => seq![s.subrange(0, e)] + split_char(
            s.subrange(e + 1, s.len() as int),
            c,
        ),
    }
}

#[via_fn]
proof fn split_char_dec(s: Seq<char>, c: char) {
    lemma_find_from(s, 0, c);
}

/// Executable split on a separator character, mirroring [`split_char`].
pub fn split_on_char(s: &Vec<char>, c: char) -> (out: Vec<Vec<char>>)
    ensures
        out.deep_view() == split_char(s@, c),
    decreases s@.len(),
{
    proof {
        lemma_find_from(s@, 0, c);
    }
    match find_char(s, 0, c) {
        Option::None => {
            let piece = sub_chars(s, 0, s.len());
            let mut out: Vec<Vec<char>> = Vec::new();
            out.push(piece);
            proof {
                assert(piece@ =~= s@);
                assert(out.deep_view() =~~= split_char(s@, c));
            }
            out
        },
        Option::Some(e) => {
            let n: usize = s.len();
            let piece = sub_chars(s, 0, e);
            let suffix = sub_chars(s, e + 1, n);
            let ghost piece_view = piece@;
            let mut out = split_on_char(&suffix, c);
            out.insert(0, piece);
            proof {
                assert(out.deep_view() =~~= seq![piece_view] + split_char(suffix@, c));
                assert(out.deep_view() =~~= split_char(s@, c));
            }
            out
        },
    }
}

/// First index at or after `pos` holding a whitespace character (or the
/// length of `s`).
pub open spec fn find_ws(s: Seq<char>, pos: int) -> int
    decreases s.len() - pos,
{
    if pos < 0 || pos >= s.len() {
        s.len() as int
    } else if is_ws(s[pos]) {
        pos
    } else {
        find_ws(s, pos + 1)
    }
}

pub proof fn lemma_find_ws(s: Seq<char>, pos: int)
    requires
        0 <= pos <= s.len(),
    ensures
        pos <= find_ws(s, pos) <= s.len(),
    decreases s.len() - pos,
{
    if pos < s.len() && !is_ws(s[pos]) {
        lemma_find_ws(s, pos + 1);
    }
}

/// Executable search for whitespace, mirroring [`find_ws`].
pub fn find_whitespace(s: &Vec<char>, from: usize) -> (r: usize)
    requires
        from <= s@.len(),
    ensures
        r as int == find_ws(s@, from as int),
        from <= r <= s@.len(),
    decreases s@.len() - from,
{
    proof {
        lemma_find_ws(s@, from as int);
    }
    if from >= s.len() {
        s.len()
    } else if is_ws_char(s[from]) {
        from
    } else {
        find_whitespace(s, from + 1)
    }
}

/// The maximal whitespace-free runs of `s` from `pos` on, in order, as
/// `str::split_whitespace` lists them.
pub open spec fn split_ws_from(s: Seq<char>, pos: int) -> Seq<Seq<char>>
    decreases s.len() - pos,
    via split_ws_from_dec
{
    if pos < 0 {
        Seq::empty()
    } else {
        let p = skip_ws(s, pos);
        if p >= s.len() {
            Seq::empty()
        } else {
            let e = find_ws(s, p);
            seq![s.subrange(p, e)] + split_ws_from(s, e)
        }
    }
}

#[via_fn]
proof fn split_ws_from_dec(s: Seq<char>, pos: int) {
    if pos >= 0 && pos <= s.len() {
        lemma_skip_ws(s, pos);
        let p = skip_ws(s, pos);
        if p < s.len() {
            lemma_find_ws(s, p);
            assert(!is_ws(s[p]));
            assert(find_ws(s, p) == find_ws(s, p + 1));
            lemma_find_ws(s, p + 1);
        }
    }
}

/// Executable whitespace split, mirroring [`split_ws_from`].
pub fn split_whitespace_chars(s: &Vec<char>, from: usize) -> (out: Vec<Vec<char>>)
    requires
        from <= s@.len(),
    ensures
        out.deep_view() == split_ws_from(s@, from as int),
    decreases s@.len() - from,
{
    let p = skip_whitespace(s, from);
    if p >= s.len() {
        let out: Vec<Vec<char>> = Vec::new();
        proof {
            assert(out.deep_view() =~~= split_ws_from(s@, from as int));
        }
        out
    } else {
        proof {
            lemma_skip_ws(s@, from as int);
            assert(!is_ws(s@[p as int]));
            assert(find_ws(s@, p as int) == find_ws(s@, p + 1));
            lemma_find_ws(s@, p + 1);
        }
        let e = find_whitespace(s, p);
        let piece = sub_chars(s, p, e);
        let ghost piece_view = piece@;
        let mut out = split_whitespace_chars(s, e);
        out.insert(0, piece);
        proof {
            assert(out.deep_view() =~~= seq![piece_view] + split_ws_from(s@, e as int));
            assert(out.deep_view() =~~= split_ws_from(s@, from as int));
        }
        out
    }
}

/// Converts a string slice to the vector of its characters.
/// Relies on `str::chars` together with `Iterator::collect`: the resulting
/// characters are exactly the view of the string.
#[verifier::external_body]
pub fn str_to_chars(s: &str) -> (r: Vec<char>)
    ensures
        r@ == s@,
{
    s.chars().collect()
}

/// Builds a `String` from a vector of characters.
/// Relies on `Iterator::collect` for `String`: the resulting string's
/// characters are exactly the elements of the vector.
#[verifier::external_body]
pub fn chars_to_string(v: &Vec<char>) -> (r: String)
    ensures
        r@ == v@,
{
    v.iter().collect()
}

/// [`sub_chars`] packaged as a `String`.
pub fn sub_string(s: &Vec<char>, i: usize, j: usize) -> (r: String)
    requires
        i <= j <= s@.len(),
    ensures
        r@ == s@.subrange(i as int, j as int),
{
    let piece = sub_chars(s, i, j);
    chars_to_string(&piece)
}


/// Whether two character vectors hold the same characters.
pub fn chars_eq(a: &Vec<char>, b: &Vec<char>) -> (r: bool)
    ensures
        r == (a@ == b@),
{
    let n: usize = a.len();
    if n != b.len() {
        return false;
    }
    let mut k: usize = 0;
    while k < n
        invariant
            0 <= k <= n,
            n == a@.len() == b@.len(),
            forall|j: int| 0 <= j < k ==> a@[j] == b@[j],
        decreases n - k,
    {
        if a[k] != b[k] {
            return false;
        }
        k = k + 1;
    }
    proof {
        assert(a@ =~= b@);
    }
    true
}

/// Whether the string `a` begins with the characters of `pat`.
pub fn string_starts_with(a: &String, pat: &str) -> (r: bool)
    ensures
        r == starts_with_at(a@, 0, pat@),
{
    let av = str_to_chars(a.as_str());
    let pv = str_to_chars(pat);
    starts_with_chars(&av, 0, &pv)
}

} // verus!

//! Character, line and token utilities shared by every parser.
//!
//! The router's command output is plain text: lines separated by newlines,
//! fields separated by runs of blanks, and `key : value` pairs. The spec
//! functions here define those decompositions mathematically; the exec
//! functions compute them and are proved equal to the spec.

use vstd::prelude::*;

verus! {

// --- character classes ---

/// A blank inside a line.
pub open spec fn is_space_char(c: char) -> bool {
    c == ' ' || c == '\t'
}

/// Any whitespace, including line breaks.
pub open spec fn is_ws_char(c: char) -> bool {
    is_space_char(c) || c == '\n' || c == '\r'
}

pub open spec fn is_digit_char(c: char) -> bool {
    '0' <= c && c <= '9'
}

pub open spec fn digit_value(c: char) -> int {
    c as int - '0' as int
}

/// Entirely whitespace (an empty sequence counts).
pub open spec fn is_blank(s: Seq<char>) -> bool {
    forall|i: int| 0 <= i < s.len() ==> is_ws_char(#[trigger] s[i])
}

pub open spec fn all_digits(s: Seq<char>) -> bool {
    forall|i: int| 0 <= i < s.len() ==> is_digit_char(#[trigger] s[i])
}

pub fn space_char(c: char) -> (r: bool)
    ensures
        r == is_space_char(c),
{
    c == ' ' || c == '\t'
}

pub fn ws_char(c: char) -> (r: bool)
    ensures
        r == is_ws_char(c),
{
    c == ' ' || c == '\t' || c == '\n' || c == '\r'
}

pub fn digit_char(c: char) -> (r: bool)
    ensures
        r == is_digit_char(c),
{
    '0' <= c && c <= '9'
}

// --- leading runs and searches ---

/// Offset of the first occurrence of `c`, or the length if absent.
pub open spec fn find_off(s: Seq<char>, c: char) -> nat
    decreases s.len(),
{
    if s.len() == 0 {
        0
    } else if s[0] == c {
        0
    } else {
        1 + find_off(s.skip(1), c)
    }
}

/// Length of the leading run of blanks.
pub open spec fn space_run(s: Seq<char>) -> nat
    decreases s.len(),
{
    if s.len() == 0 {
        0
    } else if is_space_char(s[0]) {
        1 + space_run(s.skip(1))
    } else {
        0
    }
}

/// Length of the leading run of non-blanks.
pub open spec fn nonspace_run(s: Seq<char>) -> nat
    decreases s.len(),
{
    if s.len() == 0 {
        0
    } else if is_space_char(s[0]) {
        0
    } else {
        1 + nonspace_run(s.skip(1))
    }
}

pub proof fn lemma_find_off(s: Seq<char>, c: char)
    ensures
        find_off(s, c) <= s.len(),
        find_off(s, c) < s.len() ==> s[find_off(s, c) as int] == c,
        forall|j: int| 0 <= j < find_off(s, c) ==> s[j] != c,
    decreases s.len(),
{
    if s.len() > 0 && s[0] != c {
        lemma_find_off(s.skip(1), c);
        assert forall|j: int| 0 <= j < find_off(s, c) implies s[j] != c by {
            if j > 0 {
                assert(s.skip(1)[j - 1] == s[j]);
            }
        }
    }
}

pub proof fn lemma_space_run(s: Seq<char>)
    ensures
        space_run(s) <= s.len(),
        space_run(s) < s.len() ==> !is_space_char(s[space_run(s) as int]),
        forall|j: int| 0 <= j < space_run(s) ==> is_space_char(#[trigger] s[j]),
    decreases s.len(),
{
    if s.len() > 0 && is_space_char(s[0]) {
        lemma_space_run(s.skip(1));
        assert forall|j: int| 0 <= j < space_run(s) implies is_space_char(s[j]) by {
            if j > 0 {
                assert(s.skip(1)[j - 1] == s[j]);
            }
        }
    }
}

pub proof fn lemma_nonspace_run(s: Seq<char>)
    ensures
        nonspace_run(s) <= s.len(),
        nonspace_run(s) < s.len() ==> is_space_char(s[nonspace_run(s) as int]),
        forall|j: int| 0 <= j < nonspace_run(s) ==> !is_space_char(#[trigger] s[j]),
    decreases s.len(),
{
    if s.len() > 0 && !is_space_char(s[0]) {
        lemma_nonspace_run(s.skip(1));
        assert forall|j: int| 0 <= j < nonspace_run(s) implies !is_space_char(s[j]) by {
            if j > 0 {
                assert(s.skip(1)[j - 1] == s[j]);
            }
        }
    }
}

/// Index of the first `c` at or after `from`, or the length if absent.
pub fn find_char(s: &Vec<char>, from: usize, c: char) -> (r: usize)
    requires
        from <= s@.len(),
    ensures
        r == from + find_off(s@.skip(from as int), c),
        from <= r <= s@.len(),
        r < s@.len() ==> s@[r as int] == c,
        forall|j: int| from <= j < r ==> s@[j] != c,
    decreases s@.len() - from,
{
    proof {
        lemma_find_off(s@.skip(from as int), c);
    }
    if from == s.len() {
        assert(s@.skip(from as int) =~= Seq::<char>::empty());
        from
    } else if s[from] == c {
        from
    } else {
        let r = find_char(s, from + 1, c);
        proof {
            assert(s@.skip(from as int).skip(1) =~= s@.skip(from as int + 1));
        }
        r
    }
}

/// Index of the end of the blank run starting at `from`.
pub fn skip_spaces(s: &Vec<char>, from: usize) -> (r: usize)
    requires
        from <= s@.len(),
    ensures
        r == from + space_run(s@.skip(from as int)),
        from <= r <= s@.len(),
    decreases s@.len() - from,
{
    proof {
        lemma_space_run(s@.skip(from as int));
    }
    if from == s.len() {
        assert(s@.skip(from as int) =~= Seq::<char>::empty());
        from
    } else if space_char(s[from]) {
        let r = skip_spaces(s, from + 1);
        proof {
            assert(s@.skip(from as int).skip(1) =~= s@.skip(from as int + 1));
        }
        r
    } else {
        from
    }
}

/// Index of the end of the non-blank run starting at `from`.
pub fn token_end(s: &Vec<char>, from: usize) -> (r: usize)
    requires
        from <= s@.len(),
    ensures
        r == from + nonspace_run(s@.skip(from as int)),
        from <= r <= s@.len(),
    decreases s@.len() - from,
{
    proof {
        lemma_nonspace_run(s@.skip(from as int));
    }
    if from == s.len() {
        assert(s@.skip(from as int) =~= Seq::<char>::empty());
        from
    } else if space_char(s[from]) {
        from
    } else {
        let r = token_end(s, from + 1);
        proof {
            assert(s@.skip(from as int).skip(1) =~= s@.skip(from as int + 1));
        }
        r
    }
}

// --- lines ---

/// The lines of `s` from `from` on: pieces between newline characters,
/// the final line unterminated or terminated alike, none for empty input.
pub open spec fn line_split_from(s: Seq<char>, from: int) -> Seq<Seq<char>>
    decreases s.len() - from,
{
    if from < 0 || from >= s.len() {
        seq![]
    } else {
        let e = from + find_off(s.skip(from), '\n');
        if e >= s.len() {
            seq![s.subrange(from, s.len() as int)]
        } else {
            seq![s.subrange(from, e)] + line_split_from(s, e + 1)
        }
    }
}

pub open spec fn line_split(s: Seq<char>) -> Seq<Seq<char>> {
    line_split_from(s, 0)
}

fn split_lines_from(s: &Vec<char>, from: usize) -> (r: Vec<Vec<char>>)
    requires
        from <= s@.len(),
    ensures
        r.deep_view() == line_split_from(s@, from as int),
    decreases s@.len() - from,
{
    if from == s.len() {
        let r: Vec<Vec<char>> = Vec::new();
        assert(r.deep_view() =~~= line_split_from(s@, from as int));
        return r;
    }
    let e = find_char(s, from, '\n');
    let head = copy_range(s, from, e);
    if e == s.len() {
        let mut r: Vec<Vec<char>> = Vec::new();
        r.push(head);
        assert(r.deep_view() =~~= line_split_from(s@, from as int));
        r
    } else {
        let mut r = split_lines_from(s, e + 1);
        r.insert(0, head);
        assert(r.deep_view() =~~= seq![head@] + line_split_from(s@, e as int + 1));
        r
    }
}

/// Splits the input into its lines.
pub fn split_lines(s: &Vec<char>) -> (r: Vec<Vec<char>>)
    ensures
        r.deep_view() == line_split(s@),
{
    split_lines_from(s, 0)
}

// --- tokens ---

/// The whitespace-separated tokens of `s` from `from` on.
pub open spec fn tokens_from(s: Seq<char>, from: int) -> Seq<Seq<char>>
    decreases s.len() - from,
    via tokens_from_decreases
{
    if from < 0 || from >= s.len() {
        seq![]
    } else if is_space_char(s[from]) {
        tokens_from(s, from + 1)
    } else {
        let e = from + nonspace_run(s.skip(from));
        seq![s.subrange(from, e)] + tokens_from(s, e)
    }
}

#[via_fn]
proof fn tokens_from_decreases(s: Seq<char>, from: int) {
    if 0 <= from < s.len() && !is_space_char(s[from]) {
        lemma_nonspace_run(s.skip(from));
        assert(s.skip(from)[0] == s[from]);
    }
}

/// The whitespace-separated tokens of a line.
pub open spec fn line_tokens(s: Seq<char>) -> Seq<Seq<char>> {
    tokens_from(s, 0)
}

pub fn tokenize_from(s: &Vec<char>, from: usize) -> (r: Vec<Vec<char>>)
    requires
        from <= s@.len(),
    ensures
        r.deep_view() == tokens_from(s@, from as int),
    decreases s@.len() - from,
{
    if from == s.len() {
        let r: Vec<Vec<char>> = Vec::new();
        assert(r.deep_view() =~~= tokens_from(s@, from as int));
        return r;
    }
    if space_char(s[from]) {
        return tokenize_from(s, from + 1);
    }
    let e = token_end(s, from);
    proof {
        lemma_nonspace_run(s@.skip(from as int));
        assert(s@.skip(from as int)[0] == s@[from as int]);
    }
    let head = copy_range(s, from, e);
    let mut r = tokenize_from(s, e);
    r.insert(0, head);
    assert(r.deep_view() =~~= seq![head@] + tokens_from(s@, e as int));
    r
}

/// Splits a line into its whitespace-separated tokens.
pub fn tokenize(s: &Vec<char>) -> (r: Vec<Vec<char>>)
    ensures
        r.deep_view() == line_tokens(s@),
{
    tokenize_from(s, 0)
}

// --- separator-delimited fields ---

/// The pieces of `s` from `from` on, between occurrences of the separator
/// `c`: `n` separators make `n + 1` pieces, empty pieces included.
pub open spec fn sep_split_from(s: Seq<char>, from: int, c: char) -> Seq<Seq<char>>
    decreases s.len() - from,
{
    if from < 0 || from > s.len() {
        seq![]
    } else {
        let e = from + find_off(s.skip(from), c);
        if e >= s.len() {
            seq![s.subrange(from, s.len() as int)]
        } else {
            seq![s.subrange(from, e)] + sep_split_from(s, e + 1, c)
        }
    }
}

/// The separator-delimited pieces of `s`.
pub open spec fn sep_split(s: Seq<char>, c: char) -> Seq<Seq<char>> {
    sep_split_from(s, 0, c)
}

fn sep_split_chars_from(s: &Vec<char>, from: usize, c: char) -> (r: Vec<Vec<char>>)
    requires
        from <= s@.len(),
    ensures
        r.deep_view() == sep_split_from(s@, from as int, c),
        r@.len() > 0,
    decreases s@.len() - from,
{
    let e = find_char(s, from, c);
    let head = copy_range(s, from, e);
    if e == s.len() {
        let mut r: Vec<Vec<char>> = Vec::new();
        r.push(head);
        assert(r.deep_view() =~~= sep_split_from(s@, from as int, c));
        r
    } else {
        let mut r = sep_split_chars_from(s, e + 1, c);
        r.insert(0, head);
        assert(r.deep_view() =~~= seq![head@] + sep_split_from(s@, e as int + 1, c));
        r
    }
}

/// Splits `s` at every occurrence of the separator `c`.
pub fn sep_split_chars(s: &Vec<char>, c: char) -> (r: Vec<Vec<char>>)
    ensures
        r.deep_view() == sep_split(s@, c),
        r@.len() > 0,
{
    sep_split_chars_from(s, 0, c)
}

// --- ranges and conversions ---

/// Copies the characters of `s` between `from` and `to`.
pub fn copy_range(s: &Vec<char>, from: usize, to: usize) -> (r: Vec<char>)
    requires
        from <= to <= s@.len(),
    ensures
        r@ == s@.subrange(from as int, to as int),
{
    let mut r: Vec<char> = Vec::new();
    let mut i = from;
    while i < to
        invariant
            from <= i <= to <= s@.len(),
            r@ == s@.subrange(from as int, i as int),
        decreases to - i,
    {
        r.push(s[i]);
        proof {
            assert(s@.subrange(from as int, i as int + 1) =~= s@.subrange(
                from as int,
                i as int,
            ).push(s@[i as int]));
        }
        i += 1;
    }
    r
}

/// The characters of a borrowed string.
pub fn str_chars(s: &str) -> (r: Vec<char>)
    ensures
        r@ == s@,
{
    let n = s.unicode_len();
    let mut r: Vec<char> = Vec::new();
    let mut i: usize = 0;
    while i < n
        invariant
            i <= n,
            n == s@.len(),
            r@ == s@.subrange(0, i as int),
        decreases n - i,
    {
        r.push(s.get_char(i));
        proof {
            assert(s@.subrange(0, i as int + 1) =~= s@.subrange(0, i as int).push(s@[i as int]));
        }
        i += 1;
    }
    proof {
        assert(s@.subrange(0, n as int) =~= s@);
    }
    r
}

/// Relies on `String`'s `FromIterator` over `char`: collecting an iterator
/// of characters yields the string of exactly those characters in order.
#[verifier::external_body]
pub fn chars_string(s: &[char]) -> (r: String)
    ensures
        r@ == s@,
{
    s.iter().collect()
}

/// The substring of `s` between `from` and `to`, as an owned string.
pub fn extract(s: &Vec<char>, from: usize, to: usize) -> (r: String)
    requires
        from <= to <= s@.len(),
    ensures
        r@ == s@.subrange(from as int, to as int),
{
    let piece = copy_range(s, from, to);
    chars_string(piece.as_slice())
}

/// Whether the characters of `s` between `from` and `to` equal `lit`.
pub fn range_eq_str(s: &Vec<char>, from: usize, to: usize, lit: &str) -> (r: bool)
    requires
        from <= to <= s@.len(),
    ensures
        r == (s@.subrange(from as int, to as int) == lit@),
{
    let n = lit.unicode_len();
    if n != to - from {
        proof {
            assert(s@.subrange(from as int, to as int).len() == to - from);
        }
        return false;
    }
    let mut i: usize = 0;
    while i < n
        invariant
            i <= n,
            n == lit@.len(),
            n == to - from,
            from <= to <= s@.len(),
            forall|j: int| 0 <= j < i ==> s@[from + j] == lit@[j],
        decreases n - i,
    {
        if s[from + i] != lit.get_char(i) {
            proof {
                assert(s@.subrange(from as int, to as int)[i as int] == s@[from + i]);
            }
            return false;
        }
        i += 1;
    }
    proof {
        assert(s@.subrange(from as int, to as int) =~= lit@);
    }
    true
}

/// Whether the whole of `s` equals `lit`.
pub fn chars_eq_str(s: &Vec<char>, lit: &str) -> (r: bool)
    ensures
        r == (s@ == lit@),
{
    let r = range_eq_str(s, 0, s.len(), lit);
    proof {
        assert(s@.subrange(0, s@.len() as int) =~= s@);
    }
    r
}

/// Whether every character of `s` is whitespace.
pub fn chars_blank(s: &Vec<char>) -> (r: bool)
    ensures
        r == is_blank(s@),
{
    let mut i: usize = 0;
    while i < s.len()
        invariant
            i <= s@.len(),
            forall|j: int| 0 <= j < i ==> is_ws_char(#[trigger] s@[j]),
        decreases s@.len() - i,
    {
        if !ws_char(s[i]) {
            return false;
        }
        i += 1;
    }
    true
}

} // verus!

//! `key : value` lines and first-match lookup inside a block of lines.
//!
//! Most of the router's reports are blocks of `key : value` lines in no
//! fixed order. A parser reads such a block as a builder: for each key it
//! takes the value of the first line that carries the key, ignores lines
//! it does not recognize, and checks at the end of the block that every
//! mandatory key was seen.

use vstd::prelude::*;
use crate::text::{is_space_char, skip_spaces, space_run, range_eq_str};

verus! {

/// The value of a `key : value` line: the key at the start, optional
/// blanks, a colon, optional blanks, then the rest of the line.
pub open spec fn kv_of(line: Seq<char>, key: Seq<char>) -> Option<Seq<char>> {
    if line.len() >= key.len() && line.take(key.len() as int) == key {
        let a = key.len() + space_run(line.skip(key.len() as int));
        if a < line.len() && line[a as int] == ':' {
            let b = a + 1 + space_run(line.skip(a as int + 1));
            Some(line.skip(b as int))
        } else {
            None
        }
    } else {
        None
    }
}

/// `kv_of` after the line's leading indentation.
pub open spec fn kv_line(line: Seq<char>, key: Seq<char>) -> Option<Seq<char>> {
    kv_of(line.skip(space_run(line) as int), key)
}

/// The value of the first line in `lines[lo..hi]` that carries `key`.
pub open spec fn block_kv(lines: Seq<Seq<char>>, lo: int, hi: int, key: Seq<char>) -> Option<
    Seq<char>,
>
    decreases hi - lo,
{
    if lo < 0 || lo >= hi || hi > lines.len() {
        None
    } else {
        match kv_line(lines[lo], key) {
            Some(v) => Some(v),
            None => block_kv(lines, lo + 1, hi, key),
        }
    }
}

/// Extracts the value of a `key : value` line, as its start index.
pub fn kv_value_start(line: &Vec<char>, key: &str) -> (r: Option<usize>)
    ensures
        match r {
            Some(b) => b <= line@.len() && kv_line(line@, key@) == Some(line@.skip(b as int)),
            None => kv_line(line@, key@) is None,
        },
{
    let st = skip_spaces(line, 0);
    let ghost trimmed = line@.skip(st as int);
    proof {
        assert(line@.skip(0int) =~= line@);
    }
    let kn = key.unicode_len();
    if line.len() - st < kn {
        return None;
    }
    if !range_eq_str(line, st, st + kn, key) {
        proof {
            assert(trimmed.take(kn as int) =~= line@.subrange(st as int, (st + kn) as int));
        }
        return None;
    }
    proof {
        assert(trimmed.take(kn as int) =~= line@.subrange(st as int, (st + kn) as int));
        assert(trimmed.skip(kn as int) =~= line@.skip((st + kn) as int));
    }
    let a = skip_spaces(line, st + kn);
    if a == line.len() || line[a] != ':' {
        proof {
            if a < line@.len() {
                assert(trimmed[a - st] == line@[a as int]);
            }
        }
        return None;
    }
    proof {
        assert(trimmed[a - st] == line@[a as int]);
        assert(trimmed.skip(a - st + 1) =~= line@.skip(a as int + 1));
    }
    let b = skip_spaces(line, a + 1);
    proof {
        assert(trimmed.skip(b - st) =~= line@.skip(b as int));
    }
    Some(b)
}

/// Extracts the value of a `key : value` line, as an owned buffer.
pub fn kv_value(line: &Vec<char>, key: &str) -> (r: Option<Vec<char>>)
    ensures
        match r {
            Some(v) => kv_line(line@, key@) == Some(v@),
            None => kv_line(line@, key@) is None,
        },
{
    match kv_value_start(line, key) {
        Some(b) => {
            let v = crate::text::copy_range(line, b, line.len());
            proof {
                assert(v@ =~= line@.skip(b as int));
            }
            Some(v)
        },
        None => None,
    }
}

/// Looks `key` up in `lines[lo..hi]`: the value of the first line that
/// carries it.
#[verifier::loop_isolation(false)]
pub fn block_kv_value(lines: &Vec<Vec<char>>, lo: usize, hi: usize, key: &str) -> (r: Option<
    Vec<char>,
>)
    requires
        lo <= hi <= lines@.len(),
    ensures
        match r {
            Some(v) => block_kv(lines.deep_view(), lo as int, hi as int, key@) == Some(v@),
            None => block_kv(lines.deep_view(), lo as int, hi as int, key@) is None,
        },
{
    let ghost ls = lines.deep_view();
    let mut i = lo;
    while i < hi
        invariant
            lo <= i <= hi,
            block_kv(ls, lo as int, hi as int, key@) == block_kv(ls, i as int, hi as int, key@),
        decreases hi - i,
    {
        proof {
            assert(lines@[i as int]@ == ls[i as int]);
        }
        match kv_value(&lines[i], key) {
            Some(v) => {
                return Some(v);
            },
            None => {},
        }
        i += 1;
    }
    None
}

/// A line is blank when only whitespace stands on it.
pub fn line_blank(line: &Vec<char>) -> (r: bool)
    ensures
        r == crate::text::is_blank(line@),
{
    crate::text::chars_blank(line)
}

/// Length of the trailing run of blanks.
pub open spec fn space_run_end(s: Seq<char>) -> nat
    decreases s.len(),
{
    if s.len() == 0 {
        0
    } else if is_space_char(s.last()) {
        1 + space_run_end(s.drop_last())
    } else {
        0
    }
}

pub proof fn lemma_space_run_end(s: Seq<char>)
    ensures
        space_run_end(s) <= s.len(),
    decreases s.len(),
{
    if s.len() > 0 && is_space_char(s.last()) {
        lemma_space_run_end(s.drop_last());
    }
}

/// The line without its trailing blanks.
pub open spec fn trim_end_spec(s: Seq<char>) -> Seq<char> {
    s.take(s.len() - space_run_end(s))
}

/// The index where the trailing blanks start.
pub fn trim_end(s: &Vec<char>) -> (r: usize)
    ensures
        r <= s@.len(),
        s@.subrange(0, r as int) == trim_end_spec(s@),
    decreases s@.len(),
{
    proof {
        lemma_space_run_end(s@);
        assert(s@.subrange(0, s@.len() as int) =~= s@);
    }
    trim_end_from(s, s.len())
}

fn trim_end_from(s: &Vec<char>, hi: usize) -> (r: usize)
    requires
        hi <= s@.len(),
    ensures
        r <= hi,
        s@.subrange(0, r as int) == trim_end_spec(s@.subrange(0, hi as int)),
    decreases hi,
{
    let ghost t = s@.subrange(0, hi as int);
    proof {
        lemma_space_run_end(t);
    }
    if hi == 0 {
        proof {
            assert(t =~= Seq::<char>::empty());
            assert(s@.subrange(0, 0) =~= trim_end_spec(t));
        }
        return 0;
    }
    if crate::text::space_char(s[hi - 1]) {
        proof {
            assert(t.last() == s@[hi - 1]);
            assert(t.drop_last() =~= s@.subrange(0, hi as int - 1));
        }
        let r = trim_end_from(s, hi - 1);
        proof {
            assert(t.take(t.len() - space_run_end(t)) =~= s@.subrange(0, hi as int - 1).take(
                s@.subrange(0, hi as int - 1).len() - space_run_end(t.drop_last()),
            ));
        }
        r
    } else {
        proof {
            assert(t.last() == s@[hi - 1]);
            assert(t.take(t.len() - space_run_end(t)) =~= t);
            assert(s@.subrange(0, hi as int) =~= trim_end_spec(t));
        }
        hi
    }
}

} // verus!

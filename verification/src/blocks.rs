//! Blank-line-separated blocks of lines.
//!
//! Several reports are sequences of blocks: runs of non-blank lines with
//! blank lines between them. `seg_chain` pins the decomposition down: the
//! segments are exactly the maximal non-blank runs, in order, covering the
//! whole report.

use vstd::prelude::*;
use crate::text::is_blank;

verus! {

/// The first index at or after `i` whose line is not blank, or the length.
pub open spec fn skip_blank_lines(ls: Seq<Seq<char>>, i: int) -> int
    decreases ls.len() - i,
{
    if i < 0 || i >= ls.len() {
        ls.len() as int
    } else if is_blank(ls[i]) {
        skip_blank_lines(ls, i + 1)
    } else {
        i
    }
}

/// The first index at or after `i` whose line is blank, or the length.
pub open spec fn nonblank_end(ls: Seq<Seq<char>>, i: int) -> int
    decreases ls.len() - i,
{
    if i < 0 || i >= ls.len() {
        ls.len() as int
    } else if is_blank(ls[i]) {
        i
    } else {
        nonblank_end(ls, i + 1)
    }
}

/// `segs` is exactly the sequence of maximal non-blank runs of `ls`.
pub open spec fn seg_chain(ls: Seq<Seq<char>>, segs: Seq<(usize, usize)>) -> bool {
    &&& forall|j: int|
        0 <= j < segs.len() ==> (#[trigger] segs[j]).0 < segs[j].1 && segs[j].1 <= ls.len()
            && segs[j].1 == nonblank_end(ls, segs[j].0 as int)
    &&& (segs.len() > 0 ==> segs[0].0 == skip_blank_lines(ls, 0))
    &&& forall|j: int|
        0 <= j < segs.len() - 1 ==> (#[trigger] segs[j + 1]).0 == skip_blank_lines(
            ls,
            segs[j].1 as int,
        )
    &&& (if segs.len() == 0 {
        skip_blank_lines(ls, 0) == ls.len()
    } else {
        skip_blank_lines(ls, segs.last().1 as int) == ls.len()
    })
}

/// The first non-blank line at or after `from`, computed.
pub fn find_nonblank(lines: &Vec<Vec<char>>, from: usize) -> (r: usize)
    requires
        from <= lines@.len(),
    ensures
        r == skip_blank_lines(lines.deep_view(), from as int),
        from <= r <= lines@.len(),
        r < lines@.len() ==> !is_blank(lines.deep_view()[r as int]),
    decreases lines@.len() - from,
{
    let ghost ls = lines.deep_view();
    if from == lines.len() {
        return from;
    }
    proof {
        assert(lines@[from as int]@ == ls[from as int]);
    }
    if crate::fields::line_blank(&lines[from]) {
        find_nonblank(lines, from + 1)
    } else {
        from
    }
}

/// The first blank line at or after `from`, computed.
pub fn find_blank(lines: &Vec<Vec<char>>, from: usize) -> (r: usize)
    requires
        from <= lines@.len(),
    ensures
        r == nonblank_end(lines.deep_view(), from as int),
        from <= r <= lines@.len(),
    decreases lines@.len() - from,
{
    let ghost ls = lines.deep_view();
    if from == lines.len() {
        return from;
    }
    proof {
        assert(lines@[from as int]@ == ls[from as int]);
    }
    if crate::fields::line_blank(&lines[from]) {
        from
    } else {
        find_blank(lines, from + 1)
    }
}

/// Decomposes the lines into their maximal non-blank runs.
#[verifier::loop_isolation(false)]
pub fn segment_lines(lines: &Vec<Vec<char>>) -> (r: Vec<(usize, usize)>)
    ensures
        seg_chain(lines.deep_view(), r@),
{
    let ghost ls = lines.deep_view();
    let mut segs: Vec<(usize, usize)> = Vec::new();
    let mut i = find_nonblank(lines, 0);
    while i < lines.len()
        invariant
            i <= lines@.len(),
            forall|j: int|
                0 <= j < segs@.len() ==> (#[trigger] segs@[j]).0 < segs@[j].1 && segs@[j].1
                    <= ls.len() && segs@[j].1 == nonblank_end(ls, segs@[j].0 as int),
            (segs@.len() > 0 ==> segs@[0].0 == skip_blank_lines(ls, 0)),
            forall|j: int|
                0 <= j < segs@.len() - 1 ==> (#[trigger] segs@[j + 1]).0 == skip_blank_lines(
                    ls,
                    segs@[j].1 as int,
                ),
            (if segs@.len() == 0 {
                i == skip_blank_lines(ls, 0)
            } else {
                i == skip_blank_lines(ls, segs@.last().1 as int)
            }),
            i < lines@.len() ==> !is_blank(ls[i as int]),
        decreases lines@.len() - i,
    {
        let e = find_blank(lines, i + 1);
        proof {
            assert(e == nonblank_end(ls, i as int));
        }
        segs.push((i, e));
        i = find_nonblank(lines, e);
    }
    segs
}

} // verus!

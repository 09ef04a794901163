//! Source positions: 1-based line and column of a byte offset in the program text.
use vstd::prelude::*;

verus! {

/// Offsets at which the lines of `text` start: 0, then one past each newline.
pub open spec fn line_starts_of(text: Seq<u8>) -> Seq<usize>
    decreases text.len(),
{
    if text.len() == 0 {
        seq![0usize]
    } else if text.last() == 10u8 {
        line_starts_of(text.drop_last()).push(text.len() as usize)
    } else {
        line_starts_of(text.drop_last())
    }
}

/// The offsets at which the lines of `text` start.
pub fn line_starts(text: &[u8]) -> (r: Vec<usize>)
    ensures
        r@ == line_starts_of(text@),
{
    let mut r: Vec<usize> = Vec::new();
    r.push(0);
    let mut i: usize = 0;
    assert(text@.subrange(0, 0) =~= Seq::<u8>::empty());
    while i < text.len()
        invariant
            i <= text@.len(),
            r@ == line_starts_of(text@.subrange(0, i as int)),
        decreases text@.len() - i,
    {
        assert(text@.subrange(0, i + 1).drop_last() =~= text@.subrange(0, i as int));
        if text[i] == 10u8 {
            r.push(i + 1);
        }
        i = i + 1;
    }
    assert(text@.subrange(0, i as int) =~= text@);
    r
}

/// The first line number `l >= from` whose next line starts after `offset`.
pub open spec fn line_from(starts: Seq<usize>, offset: usize, from: int) -> int
    decreases starts.len() - from,
{
    if from >= starts.len() || starts[from] > offset {
        from
    } else {
        line_from(starts, offset, from + 1)
    }
}

proof fn lemma_line_from(starts: Seq<usize>, offset: usize, from: int)
    requires
        1 <= from <= starts.len(),
        starts[from - 1] <= offset,
    ensures
        from <= line_from(starts, offset, from) <= starts.len(),
        starts[line_from(starts, offset, from) - 1] <= offset,
    decreases starts.len() - from,
{
    if from < starts.len() && starts[from] <= offset {
        lemma_line_from(starts, offset, from + 1);
    }
}

/// Line of `offset`: one past the last line start (after the first) at or before it.
pub open spec fn line_of(starts: Seq<usize>, offset: usize) -> int {
    line_from(starts, offset, 1)
}

/// The 1-based line and column of byte `offset`, given the line starts.
pub fn locate(starts: &Vec<usize>, offset: usize) -> (r: (usize, usize))
    requires
        starts@.len() > 0,
        starts@[0] <= offset < usize::MAX,
    ensures
        r.0 == line_of(starts@, offset),
        r.1 == offset - starts@[line_of(starts@, offset) - 1] + 1,
{
    proof {
        lemma_line_from(starts@, offset, 1);
    }
    let mut l: usize = 1;
    while l < starts.len() && starts[l] <= offset
        invariant
            1 <= l <= starts@.len(),
            starts@[l - 1] <= offset,
            line_from(starts@, offset, l as int) == line_of(starts@, offset),
        decreases starts@.len() - l,
    {
        l = l + 1;
    }
    (l, offset - starts[l - 1] + 1)
}

} // verus!

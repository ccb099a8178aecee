//! Line and column lookup for diagnostics.

use vstd::prelude::*;

verus! {

/// A half-open byte range `[start, end)` into a source text.
#[derive(Clone, Copy, Debug, PartialEq, Eq, Structural)]
pub struct TextRange {
    pub start: usize,
    pub end: usize,
}

impl TextRange {
    pub open spec fn valid_in(self, len: nat) -> bool {
        self.start <= self.end && self.end <= len
    }
}

/// The offset of an inner slice from the start of an enclosing one.
pub trait SubsliceOffset {
    /// Where `inner` starts, counted from the start of `self`, if it starts
    /// within `self` or right at its end.
    spec fn offset_of(&self, inner: &Self) -> Option<usize>;

    /// Returns the byte offset of `inner` relative to `self`, or `None` when
    /// `inner` does not start within `self`.
    fn subslice_offset(&self, inner: &Self) -> (r: Option<usize>)
        ensures
            r == self.offset_of(inner),
    ;
}

impl SubsliceOffset for TextRange {
    open spec fn offset_of(&self, inner: &Self) -> Option<usize> {
        if inner.start < self.start || inner.start > self.end {
            None
        } else {
            Some((inner.start - self.start) as usize)
        }
    }

    fn subslice_offset(&self, inner: &Self) -> (r: Option<usize>) {
        if inner.start < self.start || inner.start > self.end {
            None
        } else {
            Some(inner.start - self.start)
        }
    }
}

/// Whether a byte ends a line (`\n` and `\r` each count as one separator).
pub open spec fn is_line_separator(b: u8) -> bool {
    b == 10u8 || b == 13u8
}

/// Number of line separators in `s`.
pub open spec fn count_separators(s: Seq<u8>) -> nat
    decreases s.len(),
{
    if s.len() == 0 {
        0
    } else {
        count_separators(s.drop_last()) + if is_line_separator(s.last()) { 1nat } else { 0nat }
    }
}

/// `start` is where the line holding `offset` begins.
pub open spec fn is_line_start_of(s: Seq<u8>, offset: int, start: int) -> bool {
    &&& 0 <= start <= offset <= s.len()
    &&& (start == 0 || is_line_separator(s[start - 1]))
    &&& forall|k: int| start <= k < offset ==> !is_line_separator(#[trigger] s[k])
}

/// `end` is where the line holding `offset` ends (before its separator).
pub open spec fn is_line_end_of(s: Seq<u8>, offset: int, end: int) -> bool {
    &&& 0 <= offset <= end <= s.len()
    &&& (end == s.len() || is_line_separator(s[end]))
    &&& forall|k: int| offset <= k < end ==> !is_line_separator(#[trigger] s[k])
}

proof fn lemma_count_separators_bound(s: Seq<u8>)
    ensures
        count_separators(s) <= s.len(),
    decreases s.len(),
{
    if s.len() > 0 {
        lemma_count_separators_bound(s.drop_last());
    }
}

/// Locates byte `offset` of `input`: its 1-based line, its 1-based column,
/// and the range of the whole line that holds it (without the separator).
/// An offset equal to the length of the input lies on the last line.
pub fn get_line_and_column_of_subslice(input: &[u8], offset: usize) -> (r: (usize, usize, TextRange))
    requires
        offset <= input@.len(),
        input@.len() < usize::MAX,
    ensures
        r.0 == 1 + count_separators(input@.subrange(0, offset as int)),
        is_line_start_of(input@, offset as int, r.2.start as int),
        is_line_end_of(input@, offset as int, r.2.end as int),
        r.1 == offset - r.2.start + 1,
{
    let mut lines: usize = 1;
    let mut line_start: usize = 0;
    let mut i: usize = 0;
    while i < offset
        invariant
            i <= offset <= input@.len(),
            input@.len() < usize::MAX,
            lines == 1 + count_separators(input@.subrange(0, i as int)),
            lines <= i + 1,
            0 <= line_start <= i,
            line_start == 0 || is_line_separator(input@[line_start - 1]),
            forall|k: int| line_start <= k < i ==> !is_line_separator(#[trigger] input@[k]),
        decreases offset - i,
    {
        proof {
            assert(input@.subrange(0, i + 1).drop_last() == input@.subrange(0, i as int));
            lemma_count_separators_bound(input@.subrange(0, i as int));
        }
        let b = input[i];
        if b == 10u8 || b == 13u8 {
            lines = lines + 1;
            line_start = i + 1;
        }
        i = i + 1;
    }
    let mut line_end: usize = offset;
    while line_end < input.len() && !(input[line_end] == 10u8 || input[line_end] == 13u8)
        invariant
            offset <= line_end <= input@.len(),
            forall|k: int| offset <= k < line_end ==> !is_line_separator(#[trigger] input@[k]),
        decreases input@.len() - line_end,
    {
        line_end = line_end + 1;
    }
    (lines, offset - line_start + 1, TextRange { start: line_start, end: line_end })
}

} // verus!

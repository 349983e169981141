//! Offset indexer: precomputes the starting byte offset of every line of a
//! source buffer and converts an absolute byte offset into a zero-indexed
//! (line, column) pair, the column being a byte offset from the line start.

use vstd::prelude::*;

verus! {

/// The line-start offsets of the first `n` bytes of `s`: offset 0 always
/// starts a line, and every byte that follows a newline starts one.
pub open spec fn line_offsets_upto(s: Seq<u8>, n: int) -> Seq<usize>
    decreases n,
{
    if n <= 1 {
        seq![0usize]
    } else {
        let prefix = line_offsets_upto(s, n - 1);
        if s[n - 2] == 10u8 {
            prefix.push((n - 1) as usize)
        } else {
            prefix
        }
    }
}

/// The line-start offsets of the whole buffer `s`, in increasing order.
pub open spec fn line_offsets(s: Seq<u8>) -> Seq<usize> {
    line_offsets_upto(s, s.len() as int)
}

/// What makes a sequence of offsets a valid line-start table: nonempty,
/// beginning at offset 0, and strictly increasing.
pub open spec fn wf_offsets(offsets: Seq<usize>) -> bool {
    &&& offsets.len() >= 1
    &&& offsets[0] == 0
    &&& forall|i: int, j: int| 0 <= i < j < offsets.len() ==> offsets[i] < offsets[j]
}

/// Whether line `l` is the line that byte offset `off` falls on: the last
/// line whose start is at or before `off`.
pub open spec fn line_post(offsets: Seq<usize>, off: int, l: int) -> bool {
    &&& 0 <= l < offsets.len()
    &&& offsets[l] <= off
    &&& l == offsets.len() - 1 || off < offsets[l + 1]
}

/// The line that byte offset `off` falls on.
pub open spec fn line_of(offsets: Seq<usize>, off: int) -> int {
    choose|l: int| line_post(offsets, off, l)
}

/// The column of byte offset `off`: its distance from the start of its line.
pub open spec fn col_of(offsets: Seq<usize>, off: int) -> int {
    off - offsets[line_of(offsets, off)]
}

pub proof fn lemma_line_offsets_upto_wf(s: Seq<u8>, n: int)
    requires
        n <= usize::MAX,
    ensures
        wf_offsets(line_offsets_upto(s, n)),
        forall|i: int|
            0 <= i < line_offsets_upto(s, n).len() ==> line_offsets_upto(s, n)[i] == 0
                || line_offsets_upto(s, n)[i] < n,
    decreases n,
{
    if n <= 1 {
    } else {
        lemma_line_offsets_upto_wf(s, n - 1);
        let prefix = line_offsets_upto(s, n - 1);
        if s[n - 2] == 10u8 {
            let full = prefix.push((n - 1) as usize);
            assert(forall|i: int| 0 <= i < prefix.len() ==> prefix[i] < n - 1);
            assert(forall|i: int| 0 <= i < full.len() - 1 ==> full[i] == prefix[i]);
            assert(wf_offsets(full));
        }
    }
}

/// The line-start table of any buffer is well formed.
pub proof fn lemma_line_offsets_wf(s: Seq<u8>)
    requires
        s.len() <= usize::MAX,
    ensures
        wf_offsets(line_offsets(s)),
{
    lemma_line_offsets_upto_wf(s, s.len() as int);
}

/// In a well-formed table every line has a home for every offset: some line
/// start is at or before `off` with the next line start beyond it.
pub proof fn lemma_line_exists(offsets: Seq<usize>, off: int)
    requires
        wf_offsets(offsets),
        off >= 0,
    ensures
        exists|l: int| line_post(offsets, off, l),
    decreases offsets.len(),
{
    let last = offsets.len() - 1;
    if offsets[last] <= off {
        assert(line_post(offsets, off, last));
    } else {
        let prefix = offsets.drop_last();
        lemma_line_exists(prefix, off);
        let l = choose|l: int| line_post(prefix, off, l);
        assert(line_post(offsets, off, l));
    }
}

/// Only one line can be the home of an offset.
pub proof fn lemma_line_unique(offsets: Seq<usize>, off: int, l1: int, l2: int)
    requires
        wf_offsets(offsets),
        line_post(offsets, off, l1),
        line_post(offsets, off, l2),
    ensures
        l1 == l2,
{
    if l1 < l2 {
        assert(off < offsets[l1 + 1]);
        assert(offsets[l1 + 1] <= offsets[l2]);
    }
    if l2 < l1 {
        assert(off < offsets[l2 + 1]);
        assert(offsets[l2 + 1] <= offsets[l1]);
    }
}

/// `line_of` and `col_of` are the unique decomposition of an offset.
pub proof fn lemma_line_col_characterize(offsets: Seq<usize>, off: int)
    requires
        wf_offsets(offsets),
        off >= 0,
    ensures
        line_post(offsets, off, line_of(offsets, off)),
        0 <= col_of(offsets, off) <= off,
        offsets[line_of(offsets, off)] + col_of(offsets, off) == off,
{
    lemma_line_exists(offsets, off);
}

/// The first byte of line `l` decomposes to `(l, 0)`: line starts map to
/// column zero of their own line.
pub proof fn lemma_line_start_is_col_zero(offsets: Seq<usize>, l: int)
    requires
        wf_offsets(offsets),
        0 <= l < offsets.len(),
    ensures
        line_of(offsets, offsets[l] as int) == l,
        col_of(offsets, offsets[l] as int) == 0,
{
    let off = offsets[l] as int;
    assert(line_post(offsets, off, l)) by {
        if l < offsets.len() - 1 {
            assert(offsets[l] < offsets[l + 1]);
        }
    }
    lemma_line_exists(offsets, off);
    lemma_line_unique(offsets, off, l, line_of(offsets, off));
}

/// Positions ordered by offset are ordered in reading order: a smaller offset
/// never lands on a later line, nor further right on the same line.
pub proof fn lemma_line_col_monotone(offsets: Seq<usize>, off1: int, off2: int)
    requires
        wf_offsets(offsets),
        0 <= off1 <= off2,
    ensures
        line_of(offsets, off1) <= line_of(offsets, off2),
        line_of(offsets, off1) == line_of(offsets, off2) ==> col_of(offsets, off1) <= col_of(
            offsets,
            off2,
        ),
{
    lemma_line_col_characterize(offsets, off1);
    lemma_line_col_characterize(offsets, off2);
    let l1 = line_of(offsets, off1);
    let l2 = line_of(offsets, off2);
    if l1 > l2 {
        assert(off2 < offsets[l2 + 1]);
        assert(offsets[l2 + 1] <= offsets[l1]);
        assert(false);
    }
}

/// A line index is never larger than the offset of its line start: with
/// strictly increasing offsets that begin at 0, `offsets[l] >= l`.
pub proof fn lemma_offsets_dominate_index(offsets: Seq<usize>, l: int)
    requires
        wf_offsets(offsets),
        0 <= l < offsets.len(),
    ensures
        offsets[l] >= l,
    decreases l,
{
    if l > 0 {
        lemma_offsets_dominate_index(offsets, l - 1);
    }
}

/// Largest byte offset the packed, `i32`-valued range form can address.
pub const MAX_PACKABLE_OFFSET: usize = 0x7fff_ffff;

/// The canonical packed range of the span `start..end`: the 3-element
/// same-line form `[line, startCol, endCol]` when both ends fall on one line,
/// else the 4-element cross-line form `[startLine, startCol, endLine, endCol]`.
pub open spec fn spec_range(offsets: Seq<usize>, start: int, end: int) -> Seq<i32> {
    let sl = line_of(offsets, start);
    let sc = col_of(offsets, start);
    let el = line_of(offsets, end);
    let ec = col_of(offsets, end);
    if sl == el {
        seq![sl as i32, sc as i32, ec as i32]
    } else {
        seq![sl as i32, sc as i32, el as i32, ec as i32]
    }
}

/// Precomputed per-line start offsets of one source buffer.
pub struct LineManager {
    pub offsets: Vec<usize>,
}

impl LineManager {
    /// The line-start table of this manager.
    pub open spec fn view(self) -> Seq<usize> {
        self.offsets@
    }

    /// Builds the table for `source`: one entry per line, in order.
    pub fn new(source: &Vec<u8>) -> (m: LineManager)
        ensures
            m@ == line_offsets(source@),
            wf_offsets(m@),
    {
        let n = source.len();
        proof {
            lemma_line_offsets_wf(source@);
        }
        let mut offsets: Vec<usize> = Vec::new();
        offsets.push(0);
        let mut i: usize = 1;
        while i < n
            invariant
                1 <= i,
                n == source@.len(),
                n > 0 ==> i <= n,
                n == 0 ==> i == 1,
                offsets@ == line_offsets_upto(source@, i as int),
            decreases n - i,
        {
            if source[i - 1] == 10 {
                offsets.push(i);
            }
            i = i + 1;
        }
        LineManager { offsets }
    }

    /// Converts an absolute byte offset to its zero-indexed (line, column)
    /// pair; offsets beyond the final line start fall on the final line.
    pub fn line_and_col(&self, offset: usize) -> (r: (usize, usize))
        requires
            wf_offsets(self@),
        ensures
            r.0 as int == line_of(self@, offset as int),
            r.1 as int == col_of(self@, offset as int),
            line_post(self@, offset as int, r.0 as int),
    {
        let mut lo: usize = 0;
        let mut hi: usize = self.offsets.len() - 1;
        while lo < hi
            invariant
                wf_offsets(self@),
                0 <= lo <= hi < self@.len(),
                self@[lo as int] <= offset,
                hi as int == self@.len() - 1 || offset < self@[hi as int + 1],
            decreases hi - lo,
        {
            let mid = hi - (hi - lo) / 2;
            if self.offsets[mid] <= offset {
                lo = mid;
            } else {
                hi = mid - 1;
            }
        }
        proof {
            assert(line_post(self@, offset as int, lo as int));
            lemma_line_exists(self@, offset as int);
            lemma_line_unique(
                self@,
                offset as int,
                lo as int,
                line_of(self@, offset as int),
            );
        }
        (lo, offset - self.offsets[lo])
    }

    /// Packs the span `start..end` into its canonical range: the same-line
    /// form has 3 elements, the cross-line form 4.
    pub fn range(&self, start: usize, end: usize) -> (r: Vec<i32>)
        requires
            wf_offsets(self@),
            start <= MAX_PACKABLE_OFFSET,
            end <= MAX_PACKABLE_OFFSET,
        ensures
            r@ == spec_range(self@, start as int, end as int),
            (line_of(self@, start as int) == line_of(self@, end as int)) <==> r@.len() == 3,
            (line_of(self@, start as int) != line_of(self@, end as int)) <==> r@.len() == 4,
    {
        let (start_line, start_col) = self.line_and_col(start);
        let (end_line, end_col) = self.line_and_col(end);
        proof {
            lemma_line_col_characterize(self@, start as int);
            lemma_line_col_characterize(self@, end as int);
            lemma_offsets_dominate_index(self@, start_line as int);
            lemma_offsets_dominate_index(self@, end_line as int);
        }
        let mut r: Vec<i32> = Vec::new();
        if start_line == end_line {
            r.push(start_line as i32);
            r.push(start_col as i32);
            r.push(end_col as i32);
        } else {
            r.push(start_line as i32);
            r.push(start_col as i32);
            r.push(end_line as i32);
            r.push(end_col as i32);
        }
        proof {
            assert(r@ =~= spec_range(self@, start as int, end as int));
        }
        r
    }
}

} // verus!

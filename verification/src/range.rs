//! Range packer: the decoded form of a packed range and the total order used
//! to sort ranges, keyed on (startLine, endLine, startCol). The end column is
//! deliberately left out of the key: two ranges that differ only there compare
//! as equal for sorting purposes.

use vstd::prelude::*;

verus! {

/// A packed range decoded into its four position fields.
#[derive(Clone, Copy, Debug, Eq, PartialEq, Structural)]
pub struct PackedRange {
    pub start_line: i32,
    pub start_col: i32,
    pub end_line: i32,
    pub end_col: i32,
}

/// The decoding of a packed range vector: the 3-element form names one line,
/// the 4-element form a start and an end line.
pub open spec fn spec_from_vec(v: Seq<i32>) -> PackedRange {
    if v.len() == 3 {
        PackedRange { start_line: v[0], start_col: v[1], end_line: v[0], end_col: v[2] }
    } else {
        PackedRange { start_line: v[0], start_col: v[1], end_line: v[2], end_col: v[3] }
    }
}

/// Whether a packed range vector has one of the two canonical lengths.
pub open spec fn packed_len_ok(v: Seq<i32>) -> bool {
    v.len() == 3 || v.len() == 4
}

/// The sorting order over ranges: lexicographic on
/// (start_line, end_line, start_col); the end column does not take part.
pub open spec fn range_le(a: PackedRange, b: PackedRange) -> bool {
    ||| a.start_line < b.start_line
    ||| (a.start_line == b.start_line && a.end_line < b.end_line)
    ||| (a.start_line == b.start_line && a.end_line == b.end_line && a.start_col <= b.start_col)
}

/// The order is total: any two ranges compare one way or the other.
pub proof fn lemma_range_le_total(a: PackedRange, b: PackedRange)
    ensures
        range_le(a, b) || range_le(b, a),
{
}

/// The order is transitive.
pub proof fn lemma_range_le_transitive(a: PackedRange, b: PackedRange, c: PackedRange)
    requires
        range_le(a, b),
        range_le(b, c),
    ensures
        range_le(a, c),
{
}

impl PackedRange {
    /// Decodes a packed range vector; only the two canonical lengths are
    /// meaningful, anything else is a contract violation by the producer.
    pub fn from_vec(v: &Vec<i32>) -> (r: PackedRange)
        requires
            packed_len_ok(v@),
        ensures
            r == spec_from_vec(v@),
    {
        match v.len() {
            3 => PackedRange { start_line: v[0], start_col: v[1], end_line: v[0], end_col: v[2] },
            _ => PackedRange { start_line: v[0], start_col: v[1], end_line: v[2], end_col: v[3] },
        }
    }

    /// Whether `self` sorts at or before `other` in the range order.
    pub fn le(&self, other: &PackedRange) -> (r: bool)
        ensures
            r == range_le(*self, *other),
    {
        if self.start_line != other.start_line {
            self.start_line < other.start_line
        } else if self.end_line != other.end_line {
            self.end_line < other.end_line
        } else {
            self.start_col <= other.start_col
        }
    }
}

impl PartialOrd for PackedRange {
    /// The comparison behind the range order, as `partial_cmp`: total, so it
    /// always returns a value.
    fn partial_cmp(&self, other: &Self) -> (r: Option<core::cmp::Ordering>) {
        if self.start_line != other.start_line {
            if self.start_line < other.start_line {
                Some(core::cmp::Ordering::Less)
            } else {
                Some(core::cmp::Ordering::Greater)
            }
        } else if self.end_line != other.end_line {
            if self.end_line < other.end_line {
                Some(core::cmp::Ordering::Less)
            } else {
                Some(core::cmp::Ordering::Greater)
            }
        } else if self.start_col != other.start_col {
            if self.start_col < other.start_col {
                Some(core::cmp::Ordering::Less)
            } else {
                Some(core::cmp::Ordering::Greater)
            }
        } else {
            Some(core::cmp::Ordering::Equal)
        }
    }
}

impl vstd::std_specs::cmp::PartialOrdSpecImpl for PackedRange {
    open spec fn obeys_partial_cmp_spec() -> bool {
        true
    }

    open spec fn partial_cmp_spec(&self, other: &Self) -> Option<core::cmp::Ordering> {
        if self.start_line != other.start_line {
            if self.start_line < other.start_line {
                Some(core::cmp::Ordering::Less)
            } else {
                Some(core::cmp::Ordering::Greater)
            }
        } else if self.end_line != other.end_line {
            if self.end_line < other.end_line {
                Some(core::cmp::Ordering::Less)
            } else {
                Some(core::cmp::Ordering::Greater)
            }
        } else if self.start_col != other.start_col {
            if self.start_col < other.start_col {
                Some(core::cmp::Ordering::Less)
            } else {
                Some(core::cmp::Ordering::Greater)
            }
        } else {
            Some(core::cmp::Ordering::Equal)
        }
    }
}

} // verus!

//! Selecting lines of a text by their 1-based line number.
//!
//! A line range is written `N` (one line) or `N:M` (lines `N` through `M`,
//! both included). [`LineSpec`] reads such a text and answers whether a given
//! line number lies in the range; [`getline`] takes the lines of the range
//! out of a text.

pub mod args;
pub mod decimal;
pub mod fragment;
pub mod linespec;

pub use linespec::LineSpec;

use vstd::prelude::*;

verus! {

/// The lines of `lines` that `line_spec` selects, in their order. The first
/// line of `lines` has number 1.
pub fn getline(lines: &Vec<String>, line_spec: &LineSpec) -> (kept: Vec<String>)
    ensures
        kept@ == line_spec@.select(lines@),
{
    let count: usize = lines.len();
    let start: u32 = line_spec.start();
    let end: u32 = line_spec.end();
    let first: usize = if ((start - 1) as usize) < count {
        (start - 1) as usize
    } else {
        count
    };
    let last: usize = if (end as usize) < count {
        end as usize
    } else {
        count
    };
    let mut kept: Vec<String> = Vec::new();
    let mut index: usize = first;
    while index < last
        invariant
            first <= index <= last <= lines.len(),
            kept@ == lines@.subrange(first as int, index as int),
        decreases last - index,
    {
        kept.push(lines[index].clone());
        index = index + 1;
    }
    kept
}

} // verus!

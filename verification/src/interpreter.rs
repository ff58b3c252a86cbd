use vstd::prelude::*;

verus! {

/// The input and output that running a program would use.
pub trait IO {}

} // verus!

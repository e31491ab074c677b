use vstd::prelude::*;

verus! {

/// The notation a number is written and shown in.
#[derive(Clone, Copy, Debug, PartialEq, Eq, Structural)]
pub enum NumberFormat {
    Dec,
    Hex,
    Oct,
    Bin,
    Exp,
}

} // verus!

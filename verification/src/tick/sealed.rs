//! The seal on [`super::TickWidth`]: only the three widths implement it.
use vstd::prelude::*;

verus! {

/// Implemented by the three tick widths and nothing else.
pub trait Sealed {

}

} // verus!

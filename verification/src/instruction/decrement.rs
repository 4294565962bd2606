//! The side effect that an indirect operand has on the cell it points through.

use crate::utils::pick;
use vstd::prelude::*;

verus! {

/// What resolving an indirect field does to the pointer it reads.
#[derive(Clone, Copy, Debug, PartialEq, Eq, Structural)]
pub enum Decrement {
    /// Plain indirection: the pointer is left as it is.
    Plain,
    /// The pointer is decremented before it is read.
    Predecrement,
    /// The pointer is incremented after it was read.
    Postincrement,
}

impl Decrement {
    /// One of the three, at random.
    pub fn get_random() -> (r: Decrement) {
        let all = [Decrement::Plain, Decrement::Predecrement, Decrement::Postincrement];
        pick(all.as_slice())
    }
}

} // verus!

//! Integer and buffer logic of a small polyphonic synthesiser.
use vstd::prelude::*;

pub mod delay;
pub mod frame;
pub mod keys;
pub mod pool;

verus! {

} // verus!

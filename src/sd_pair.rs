//! A base buffer and its update, held together.
use vstd::prelude::*;

use crate::sd_buffer::SmDtonBuffer;

verus! {

/// A base buffer (`raw`) and the buffer that patches it (`update`).
pub struct SmDtonPair {
    pub raw: SmDtonBuffer,
    pub update: SmDtonBuffer,
}

impl SmDtonPair {
    pub fn new(raw: SmDtonBuffer, update: SmDtonBuffer) -> (r: Self)
        ensures
            r.raw == raw,
            r.update == update,
    {
        SmDtonPair { raw, update }
    }
}

} // verus!

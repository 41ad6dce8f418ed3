//! A node staged by a builder.
use vstd::prelude::*;

verus! {

/// A map or array node under construction: its entries as indices into the
/// builder's key and value lists.
pub struct SmDtonNode {
    /// Type tag: map or array.
    pub smdt: u8,
    /// Node id.
    pub oid: usize,
    /// Key index of each entry (map nodes only).
    pub keys: Vec<usize>,
    /// Value index of each entry.
    pub values: Vec<usize>,
}

impl SmDtonNode {
    pub fn new(smdt: u8, oid: usize) -> (r: Self)
        ensures
            r.smdt == smdt,
            r.oid == oid,
            r.keys@.len() == 0,
            r.values@.len() == 0,
    {
        SmDtonNode { smdt, oid, keys: Vec::with_capacity(4), values: Vec::with_capacity(4) }
    }
}

} // verus!

//! Type tags and the staged value model.
use vstd::prelude::*;
use vstd::slice::slice_to_vec;
use vstd::string::StringSliceAdditionalSpecFns;

use crate::b64::{base64_bytes, decode_base64};
use crate::sd_node::SmDtonNode;
use crate::su::{int_bytes, le_bytes, pow256};

verus! {

/// The format's constant tags.
pub struct ST {}

impl ST {
    /// Format tag in the first byte of every buffer.
    pub const SMTY_DTR: u8 = 0x01;

    /// Node type: map.
    pub const SMDT_MAP: u8 = 0x01;
    /// Node type: array.
    pub const SMDT_ARR: u8 = 0x02;

    pub const SMDT_BOO: u8 = 0x11;
    pub const SMDT_UI8: u8 = 0x12;

    pub const SMDT_I16: u8 = 0x13;
    pub const SMDT_U16: u8 = 0x14;

    pub const SMDT_I32: u8 = 0x15;
    pub const SMDT_U32: u8 = 0x16;
    pub const SMDT_F32: u8 = 0x17;

    pub const SMDT_I64: u8 = 0x18;
    pub const SMDT_U64: u8 = 0x19;
    pub const SMDT_F64: u8 = 0x1a;

    pub const SMDT_STR: u8 = 0x21;
    pub const SMDT_BIN: u8 = 0x22;

    pub const SMDT_B64: u8 = 0xB2;
}

/// The bytes of the text prefix `$B64$` that marks a string carrying
/// base64-encoded binary data.
pub open spec fn b64_mark() -> Seq<u8> {
    seq![0x24u8, 0x42u8, 0x36u8, 0x34u8, 0x24u8]
}

/// The non-negative integer of `w` bytes that stands for the signed `v`.
pub open spec fn twos(v: int, w: nat) -> nat {
    if v < 0 {
        (v + pow256(w)) as nat
    } else {
        v as nat
    }
}

/// A value staged for the value segment.
pub struct SmDtonData {
    /// Type tag.
    pub smdt: u8,
    /// Payload length in bytes.
    pub len: usize,
    /// Whether a length-or-id field follows the tag.
    pub has_len: bool,
    /// Payload bytes, written after the tag and the optional length field.
    pub v8a: Vec<u8>,
    /// Referenced node id, for a node reference.
    pub oid: usize,
}

impl SmDtonData {
    /// The payload length is the length of the payload bytes.
    pub open spec fn wf(&self) -> bool {
        self.len == self.v8a@.len()
    }

    /// What the length-or-id field holds: the node id for a node reference,
    /// else the payload length.
    pub open spec fn len_field(&self) -> nat {
        if self.smdt < 0x10 {
            self.oid as nat
        } else {
            self.len as nat
        }
    }

    /// The bytes of this value in the value segment, at offset width `w`.
    pub open spec fn encoded(&self, w: nat) -> Seq<u8> {
        seq![self.smdt] + (if self.has_len {
            int_bytes(self.len_field(), w)
        } else {
            Seq::empty()
        }) + self.v8a@
    }

    /// Number of offset slots the value takes (its length field).
    pub open spec fn slots(&self) -> nat {
        if self.has_len {
            1
        } else {
            0
        }
    }

    /// A fixed-width value with the given tag and payload.
    pub open spec fn is_fixed(&self, smdt: u8, payload: Seq<u8>) -> bool {
        &&& self.smdt == smdt
        &&& !self.has_len
        &&& self.v8a@ == payload
        &&& self.oid == 0
        &&& self.wf()
    }

    pub fn new_bool(data: bool) -> (r: Self)
        ensures
            r.is_fixed(ST::SMDT_BOO, seq![if data { 1u8 } else { 0u8 }]),
    {
        let mut d: u8 = 0;
        if data {
            d = 1;
        }
        let v: Vec<u8> = vec![d];
        assert(v@ =~= seq![d]);
        SmDtonData { smdt: ST::SMDT_BOO, len: 1, has_len: false, v8a: v, oid: 0 }
    }

    pub fn new_u8(data: u8) -> (r: Self)
        ensures
            r.is_fixed(ST::SMDT_UI8, seq![data]),
    {
        let v: Vec<u8> = vec![data];
        assert(v@ =~= seq![data]);
        SmDtonData { smdt: ST::SMDT_UI8, len: 1, has_len: false, v8a: v, oid: 0 }
    }

    pub fn new_i16(data: i16) -> (r: Self)
        ensures
            r.is_fixed(ST::SMDT_I16, le_bytes(twos(data as int, 2), 2)),
    {
        let u: u64 = if data < 0 {
            (data as i64 + 65536) as u64
        } else {
            data as u64
        };
        proof {
            reveal_with_fuel(pow256, 3);
        }
        fixed(ST::SMDT_I16, u, 2)
    }

    pub fn new_u16(data: u16) -> (r: Self)
        ensures
            r.is_fixed(ST::SMDT_U16, le_bytes(data as nat, 2)),
    {
        fixed(ST::SMDT_U16, data as u64, 2)
    }

    pub fn new_i32(data: i32) -> (r: Self)
        ensures
            r.is_fixed(ST::SMDT_I32, le_bytes(twos(data as int, 4), 4)),
    {
        let u: u64 = if data < 0 {
            (data as i64 + 4294967296) as u64
        } else {
            data as u64
        };
        proof {
            reveal_with_fuel(pow256, 5);
        }
        fixed(ST::SMDT_I32, u, 4)
    }

    pub fn new_u32(data: u32) -> (r: Self)
        ensures
            r.is_fixed(ST::SMDT_U32, le_bytes(data as nat, 4)),
    {
        fixed(ST::SMDT_U32, data as u64, 4)
    }

    /// A 32-bit float, given by its IEEE 754 bit pattern.
    pub fn new_f32_bits(bits: u32) -> (r: Self)
        ensures
            r.is_fixed(ST::SMDT_F32, le_bytes(bits as nat, 4)),
    {
        fixed(ST::SMDT_F32, bits as u64, 4)
    }

    pub fn new_i64(data: i64) -> (r: Self)
        ensures
            r.is_fixed(ST::SMDT_I64, le_bytes(twos(data as int, 8), 8)),
    {
        let u: u64 = if data < 0 {
            (data as i128 + 18446744073709551616) as u64
        } else {
            data as u64
        };
        proof {
            reveal_with_fuel(pow256, 9);
        }
        fixed(ST::SMDT_I64, u, 8)
    }

    pub fn new_u64(data: u64) -> (r: Self)
        ensures
            r.is_fixed(ST::SMDT_U64, le_bytes(data as nat, 8)),
    {
        fixed(ST::SMDT_U64, data, 8)
    }

    /// A 64-bit float, given by its IEEE 754 bit pattern.
    pub fn new_f64_bits(bits: u64) -> (r: Self)
        ensures
            r.is_fixed(ST::SMDT_F64, le_bytes(bits as nat, 8)),
    {
        fixed(ST::SMDT_F64, bits, 8)
    }

    /// A string value: its UTF-8 bytes and a terminating NUL.
    pub fn new_string(data: &str) -> (r: Self)
        requires
            data.spec_bytes().len() < usize::MAX,
        ensures
            r.smdt == ST::SMDT_STR,
            r.has_len,
            r.v8a@ == data.spec_bytes().push(0),
            r.oid == 0,
            r.wf(),
    {
        let mut v = slice_to_vec(data.as_bytes());
        v.push(0);
        SmDtonData { smdt: ST::SMDT_STR, len: v.len(), has_len: true, v8a: v, oid: 0 }
    }

    /// A binary blob.
    pub fn new_bin(data: &[u8]) -> (r: Self)
        ensures
            r.smdt == ST::SMDT_BIN,
            r.has_len,
            r.v8a@ == data@,
            r.oid == 0,
            r.wf(),
    {
        let v = slice_to_vec(data);
        SmDtonData { smdt: ST::SMDT_BIN, len: v.len(), has_len: true, v8a: v, oid: 0 }
    }

    /// The blob that the marked base64 text `t` carries: `None` where `t` is
    /// shorter than the marker or the rest is no valid base64.
    pub open spec fn b64_of(t: Seq<u8>) -> Option<Seq<u8>> {
        if t.len() < 5 {
            None
        } else {
            base64_bytes(t.skip(5))
        }
    }

    /// A blob decoded from a marked base64 string: `None` where the text after
    /// the five marker bytes is no valid base64.
    pub fn new_b64(data: &str) -> (r: Option<Self>)
        ensures
            match Self::b64_of(data.spec_bytes()) {
                Some(b) => r matches Some(d) && d.smdt == ST::SMDT_B64 && d.has_len && d.v8a@ == b
                    && d.oid == 0 && d.wf(),
                None => r is None,
            },
    {
        let bytes = data.as_bytes();
        if bytes.len() < 5 {
            return None;
        }
        let piece = vstd::slice::slice_subrange(bytes, 5, bytes.len());
        assert(piece@ == data.spec_bytes().skip(5));
        match decode_base64(piece) {
            Some(v) => Some(
                SmDtonData { smdt: ST::SMDT_B64, len: v.len(), has_len: true, v8a: v, oid: 0 },
            ),
            None => None,
        }
    }

    /// A reference to a staged node, by its tag and id.
    pub fn new_node(data: &SmDtonNode) -> (r: Self)
        ensures
            r.smdt == data.smdt,
            r.has_len,
            r.v8a@.len() == 0,
            r.oid == data.oid,
            r.wf(),
    {
        SmDtonData { smdt: data.smdt, len: 0, has_len: true, v8a: Vec::new(), oid: data.oid }
    }
}

/// The `w` low bytes of `v`, least significant first, as a vector.
pub fn le_vec(v: u64, w: usize) -> (r: Vec<u8>)
    ensures
        r@ == le_bytes(v as nat, w as nat),
{
    let mut r: Vec<u8> = Vec::new();
    let mut x: u64 = v;
    let mut i: usize = 0;
    while i < w
        invariant
            i <= w,
            r@ + le_bytes(x as nat, (w - i) as nat) == le_bytes(v as nat, w as nat),
        decreases w - i,
    {
        let b: u8 = (x % 256) as u8;
        assert(le_bytes(x as nat, (w - i) as nat) == seq![b] + le_bytes(
            (x / 256) as nat,
            (w - i - 1) as nat,
        ));
        assert(r@.push(b) + le_bytes((x / 256) as nat, (w - i - 1) as nat) =~= r@ + (seq![b]
            + le_bytes((x / 256) as nat, (w - i - 1) as nat)));
        r.push(b);
        x = x / 256;
        i = i + 1;
    }
    assert(r@ + le_bytes(x as nat, 0) =~= r@);
    r
}

fn fixed(smdt: u8, v: u64, w: usize) -> (r: SmDtonData)
    ensures
        r.is_fixed(smdt, le_bytes(v as nat, w as nat)),
{
    let b = le_vec(v, w);
    SmDtonData { smdt, len: b.len(), has_len: false, v8a: b, oid: 0 }
}

} // verus!

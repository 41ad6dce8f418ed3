//! Zero-copy reads from a laid-out buffer.
use vstd::prelude::*;
use vstd::string::StringSliceAdditionalSpecFns;
use vstd::utf8::{decode_utf8, encode_utf8, encode_utf8_decode_utf8, encode_utf8_valid_utf8, valid_utf8};

use crate::b64::{base64_text, encode_base64};
use crate::sd_builder::bytes_eq;
use crate::sd_json::{set_one, JsonNode};
use vstd::string::StringExecFns;
use crate::sd_data::ST;
use crate::su::{get_int, le_uint, lemma_le_uint_bound, read_int, valid_width};

verus! {

/// Relies on `std::str::from_utf8`: it succeeds exactly on valid UTF-8, and
/// the text it gives has the same bytes.
#[verifier::external_body]
pub(crate) fn utf8_str<'b>(b: &'b [u8]) -> (r: Option<&'b str>)
    ensures
        r is Some <==> valid_utf8(b@),
        r matches Some(s) ==> s.spec_bytes() == b@,
{
    std::str::from_utf8(b).ok()
}

/// The signed value of the `w`-byte two's-complement integer `u`.
pub open spec fn signed(u: nat, w: nat) -> int {
    if w == 2 {
        if u >= 0x8000 { u - 0x1_0000 } else { u as int }
    } else if w == 4 {
        if u >= 0x8000_0000 { u - 0x1_0000_0000 } else { u as int }
    } else {
        if u >= 0x8000_0000_0000_0000 { u - 0x1_0000_0000_0000_0000 } else { u as int }
    }
}

/// `q` is a reader over `b`, as `SmDtonReader::new` makes it.
pub open spec fn reads(q: SmDtonReader, b: Seq<u8>) -> bool {
    &&& q.wf()
    &&& q.u8a@ == b
    &&& q.oz == (if b.len() >= 2 { b[1] as usize } else { 0 })
    &&& q.nnum == read_int(b, 2, q.oz as nat)
}

/// Where `o` holds a key that is valid UTF-8, one of the listed keys has
/// its text.
pub open spec fn key_listed(mp: Seq<(String, usize)>, o: Option<Seq<u8>>) -> bool {
    match o {
        Some(t) => valid_utf8(t) ==> lists(mp, decode_utf8(t)),
        None => true,
    }
}

/// Whether one of the listed keys has text `c`.
pub open spec fn lists(mp: Seq<(String, usize)>, c: Seq<char>) -> bool {
    exists|j: int| 0 <= j < mp.len() && #[trigger] mp[j].0@ == c
}

/// The text of the marker that prefixes base64 blobs in JSON.
pub open spec fn b64_mark_text() -> Seq<char> {
    seq!['$', 'B', '6', '4', '$']
}

/// `o` mapped through `f`.
pub open spec fn as_json(o: Option<nat>, f: spec_fn(nat) -> JsonNode) -> Option<JsonNode> {
    match o {
        Some(v) => Some(f(v)),
        None => None,
    }
}

/// A read-only view over a buffer: its width, node count and where the node
/// table starts.
#[derive(Clone, Copy)]
pub struct SmDtonReader<'a> {
    /// The buffer.
    pub u8a: &'a [u8],
    /// Offset width.
    pub oz: usize,
    /// Number of nodes.
    pub nnum: usize,
    /// Where the node table starts.
    pub node_off: usize,
}

impl<'a> SmDtonReader<'a> {
    /// The header fields agree with each other.
    pub open spec fn wf(&self) -> bool {
        &&& self.oz <= 255
        &&& self.node_off == 3 + 3 * self.oz
        &&& self.nnum <= 0xFFFF_FFFF
    }

    pub open spec fn bytes(&self) -> Seq<u8> {
        self.u8a@
    }

    /// The integer at `off`, at the buffer's width; 0 out of range.
    pub open spec fn rd(&self, off: int) -> nat {
        read_int(self.u8a@, off, self.oz as nat)
    }

    /// The byte at `off`, if there is one.
    pub open spec fn byte(&self, off: int) -> Option<u8> {
        if 0 <= off < self.u8a@.len() {
            Some(self.u8a@[off])
        } else {
            None
        }
    }

    /// Whether `oid` is a node id of the buffer.
    pub open spec fn has_node(&self, oid: int) -> bool {
        1 <= oid <= self.nnum
    }

    /// Offset of node `oid`'s entry in the node table.
    pub open spec fn n_off(&self, oid: int) -> int {
        self.node_off + (oid - 1) * (1 + self.oz)
    }

    /// Offset of node `oid`'s property table.
    pub open spec fn p_off(&self, oid: int) -> nat {
        self.rd(self.n_off(oid) + 1)
    }

    /// Entry count of node `oid`.
    pub open spec fn sub_num(&self, oid: int) -> nat {
        self.rd(self.p_off(oid) as int)
    }

    /// Type tag of node `oid`: 0 for no such node.
    pub open spec fn type_of(&self, oid: int) -> u8 {
        if self.has_node(oid) {
            match self.byte(self.n_off(oid)) {
                Some(t) => t,
                None => 0,
            }
        } else {
            0
        }
    }

    /// Offset of the `i`-th map entry of the property table at `p`.
    pub open spec fn pair_off(&self, p: int, i: int) -> int {
        p + self.oz + 2 * self.oz * i
    }

    /// The text bytes of the key stored at `key_off`, where its length field
    /// and text lie in the buffer.
    pub open spec fn key_text(&self, key_off: int) -> Option<Seq<u8>> {
        let kw = self.rd(key_off);
        if kw >= 1 && key_off + self.oz + kw - 1 <= self.u8a@.len() {
            Some(self.u8a@.subrange(key_off + self.oz, key_off + self.oz + kw - 1))
        } else {
            None
        }
    }

    /// Whether map entry `i` of the table at `p` has the key `kbs`.
    pub open spec fn key_is(&self, p: int, i: int, kbs: Seq<u8>) -> bool {
        self.key_text(self.rd(self.pair_off(p, i)) as int) == Some(kbs)
    }

    /// Value offset of the last of the first `n` map entries of the table at
    /// `p` whose key is `kbs`; 0 where none is.
    pub open spec fn find_field(&self, p: int, n: int, kbs: Seq<u8>) -> nat
        decreases n,
    {
        if n <= 0 {
            0
        } else if self.key_is(p, n - 1, kbs) {
            self.rd(self.pair_off(p, n - 1) + self.oz)
        } else {
            self.find_field(p, n - 1, kbs)
        }
    }

    /// Value offset of the latest field `kbs` of node `oid`; 0 for none.
    pub open spec fn field_voff(&self, oid: int, kbs: Seq<u8>) -> nat {
        if self.has_node(oid) {
            self.find_field(self.p_off(oid) as int, self.sub_num(oid) as int, kbs)
        } else {
            0
        }
    }

    /// Value offset of entry `index` of node `oid`; 0 for none.
    pub open spec fn sub_voff(&self, oid: int, index: int) -> nat {
        if self.has_node(oid) && 0 <= index < self.sub_num(oid) {
            let p = self.p_off(oid) as int;
            if self.type_of(oid) == ST::SMDT_MAP {
                self.rd(self.pair_off(p, index) + self.oz)
            } else {
                self.rd(p + self.oz + self.oz * index)
            }
        } else {
            0
        }
    }

    /// The key bytes of entry `index` of map node `oid`.
    pub open spec fn sub_key_bytes(&self, oid: int, index: int) -> Option<Seq<u8>> {
        if self.has_node(oid) && self.type_of(oid) == ST::SMDT_MAP && 0 <= index < self.sub_num(
            oid,
        ) {
            self.key_text(self.rd(self.pair_off(self.p_off(oid) as int, index)) as int)
        } else {
            None
        }
    }

    /// Entry `i` of map node `oid` has key text `k` and value offset `v`.
    pub open spec fn entry_is(&self, oid: int, i: int, k: Seq<char>, v: nat) -> bool {
        &&& 0 <= i < self.sub_num(oid)
        &&& match self.sub_key_bytes(oid, i) {
            Some(t) => k == decode_utf8(t) && v == self.sub_voff(oid, i),
            None => false,
        }
    }

    /// Whether `e` is the key text and value offset of an entry of map node
    /// `oid`.
    pub open spec fn listed(&self, oid: int, e: (String, usize)) -> bool {
        exists|i: int| #[trigger] self.entry_is(oid, i, e.0@, e.1 as nat)
    }

    /// The `bool` value of the latest field `kbs` of node `oid`.
    pub open spec fn bool_field(&self, oid: int, kbs: Seq<u8>) -> Option<bool> {
        let voff = self.field_voff(oid, kbs) as int;
        if voff == 0 {
            None
        } else {
            match self.fixed_at(voff, ST::SMDT_BOO, 1) {
                Some(v) => Some(v == 1),
                None => None,
            }
        }
    }

    /// The `u8` value of the latest field `kbs` of node `oid`.
    pub open spec fn u8_field(&self, oid: int, kbs: Seq<u8>) -> Option<u8> {
        let voff = self.field_voff(oid, kbs) as int;
        if voff == 0 {
            None
        } else {
            match self.fixed_at(voff, ST::SMDT_UI8, 1) {
                Some(v) => Some(v as u8),
                None => None,
            }
        }
    }

    /// The `i16` value of the latest field `kbs` of node `oid`.
    pub open spec fn i16_field(&self, oid: int, kbs: Seq<u8>) -> Option<i16> {
        let voff = self.field_voff(oid, kbs) as int;
        if voff == 0 {
            None
        } else {
            match self.fixed_at(voff, ST::SMDT_I16, 2) {
                Some(v) => Some(signed(v, 2) as i16),
                None => None,
            }
        }
    }

    /// The `u16` value of the latest field `kbs` of node `oid`.
    pub open spec fn u16_field(&self, oid: int, kbs: Seq<u8>) -> Option<u16> {
        let voff = self.field_voff(oid, kbs) as int;
        if voff == 0 {
            None
        } else {
            match self.fixed_at(voff, ST::SMDT_U16, 2) {
                Some(v) => Some(v as u16),
                None => None,
            }
        }
    }

    /// The `i32` value of the latest field `kbs` of node `oid`.
    pub open spec fn i32_field(&self, oid: int, kbs: Seq<u8>) -> Option<i32> {
        let voff = self.field_voff(oid, kbs) as int;
        if voff == 0 {
            None
        } else {
            match self.fixed_at(voff, ST::SMDT_I32, 4) {
                Some(v) => Some(signed(v, 4) as i32),
                None => None,
            }
        }
    }

    /// The `u32` value of the latest field `kbs` of node `oid`.
    pub open spec fn u32_field(&self, oid: int, kbs: Seq<u8>) -> Option<u32> {
        let voff = self.field_voff(oid, kbs) as int;
        if voff == 0 {
            None
        } else {
            match self.fixed_at(voff, ST::SMDT_U32, 4) {
                Some(v) => Some(v as u32),
                None => None,
            }
        }
    }

    /// The `f32_bits` value of the latest field `kbs` of node `oid`.
    pub open spec fn f32_bits_field(&self, oid: int, kbs: Seq<u8>) -> Option<u32> {
        let voff = self.field_voff(oid, kbs) as int;
        if voff == 0 {
            None
        } else {
            match self.fixed_at(voff, ST::SMDT_F32, 4) {
                Some(v) => Some(v as u32),
                None => None,
            }
        }
    }

    /// The `i64` value of the latest field `kbs` of node `oid`.
    pub open spec fn i64_field(&self, oid: int, kbs: Seq<u8>) -> Option<i64> {
        let voff = self.field_voff(oid, kbs) as int;
        if voff == 0 {
            None
        } else {
            match self.fixed_at(voff, ST::SMDT_I64, 8) {
                Some(v) => Some(signed(v, 8) as i64),
                None => None,
            }
        }
    }

    /// The `u64` value of the latest field `kbs` of node `oid`.
    pub open spec fn u64_field(&self, oid: int, kbs: Seq<u8>) -> Option<u64> {
        let voff = self.field_voff(oid, kbs) as int;
        if voff == 0 {
            None
        } else {
            match self.fixed_at(voff, ST::SMDT_U64, 8) {
                Some(v) => Some(v as u64),
                None => None,
            }
        }
    }

    /// The `f64_bits` value of the latest field `kbs` of node `oid`.
    pub open spec fn f64_bits_field(&self, oid: int, kbs: Seq<u8>) -> Option<u64> {
        let voff = self.field_voff(oid, kbs) as int;
        if voff == 0 {
            None
        } else {
            match self.fixed_at(voff, ST::SMDT_F64, 8) {
                Some(v) => Some(v as u64),
                None => None,
            }
        }
    }

    /// The text of the string that is the latest field `kbs` of node `oid`.
    pub open spec fn text_field(&self, oid: int, kbs: Seq<u8>) -> Option<Seq<char>> {
        let voff = self.field_voff(oid, kbs) as int;
        if voff == 0 {
            None
        } else {
            match self.span_at(voff, ST::SMDT_STR, 1) {
                Some(t) => if valid_utf8(t) {
                    Some(decode_utf8(t))
                } else {
                    None
                },
                None => None,
            }
        }
    }

    /// The blob that is the latest field `kbs` of node `oid`.
    pub open spec fn bin_field(&self, oid: int, kbs: Seq<u8>) -> Option<Seq<u8>> {
        let voff = self.field_voff(oid, kbs) as int;
        if voff == 0 {
            None
        } else {
            self.span_at(voff, ST::SMDT_BIN, 0)
        }
    }

    /// Whether one of the first `n` entries of map node `oid` has key `kbs`.
    pub open spec fn has_key(&self, oid: int, kbs: Seq<u8>, n: int) -> bool
        decreases n,
    {
        if n <= 0 {
            false
        } else {
            self.sub_key_bytes(oid, n - 1) == Some(kbs) || self.has_key(oid, kbs, n - 1)
        }
    }

    /// Whether a value with tag `tag` and `n` payload bytes after the tag
    /// starts at `voff`.
    pub open spec fn tagged(&self, voff: int, tag: u8, n: nat) -> bool {
        &&& 0 <= voff
        &&& voff + 1 + n <= self.u8a@.len()
        &&& self.u8a@[voff] == tag
    }

    /// The `n`-byte little-endian payload of the value at `voff`, if it has
    /// tag `tag`.
    pub open spec fn fixed_at(&self, voff: int, tag: u8, n: nat) -> Option<nat> {
        if self.tagged(voff, tag, n) {
            Some(le_uint(self.u8a@, voff + 1, n))
        } else {
            None
        }
    }

    /// Payload bytes of the length-prefixed value at `voff` with tag `tag`;
    /// `trim` bytes at the end (a NUL) are left out.
    pub open spec fn span_at(&self, voff: int, tag: u8, trim: nat) -> Option<Seq<u8>> {
        let len = self.rd(voff + 1);
        let start = voff + 1 + self.oz;
        if self.tagged(voff, tag, 0) && valid_width(self.oz as int) && len >= trim && start + len
            <= self.u8a@.len() {
            Some(self.u8a@.subrange(start, start + len - trim))
        } else {
            None
        }
    }

    /// The integer at `off`, at the buffer's width; 0 out of range.
    fn rd64(&self, off: u64) -> (r: usize)
        requires
            self.wf(),
        ensures
            r == self.rd(off as int),
            r <= 0xFFFF_FFFF,
    {
        let oz = self.oz;
        let len = self.u8a.len() as u64;
        if (oz == 1 || oz == 2 || oz == 4) && off < len && (oz as u64) <= len - off {
            proof {
                lemma_le_uint_bound(self.u8a@, off as int, oz as nat);
            }
            get_int(self.u8a, off as usize, oz)
        } else {
            0
        }
    }

    /// The byte at `off`, if there is one.
    fn byte_at(&self, off: u64) -> (r: Option<u8>)
        ensures
            r == self.byte(off as int),
    {
        if off < self.u8a.len() as u64 {
            Some(self.u8a[off as usize])
        } else {
            None
        }
    }

    pub fn get_int(&self, offset: usize) -> (r: usize)
        requires
            self.wf(),
        ensures
            r == self.rd(offset as int),
    {
        self.rd64(offset as u64)
    }

    /// Offset of node `oid`'s property table, for a node id in range.
    fn node_ptab(&self, oid: usize) -> (r: u64)
        requires
            self.wf(),
            self.has_node(oid as int),
        ensures
            r == self.p_off(oid as int),
            r <= 0xFFFF_FFFF,
    {
        let n_off = lin(self.node_off as u64, 1 + self.oz as u64, oid as u64 - 1);
        self.rd64(n_off + 1) as u64
    }

    /// The key bytes stored at `key_off`, as a slice of the buffer.
    fn key_slice(&self, key_off: u64) -> (r: Option<&'a [u8]>)
        requires
            self.wf(),
            key_off <= 0xFFFF_FFFF,
        ensures
            match self.key_text(key_off as int) {
                Some(t) => r matches Some(s) && s@ == t,
                None => r is None,
            },
    {
        let kw = self.rd64(key_off) as u64;
        let start = key_off + self.oz as u64;
        if kw >= 1 && start + kw - 1 <= self.u8a.len() as u64 {
            Some(vstd::slice::slice_subrange(self.u8a, start as usize, (start + kw - 1) as usize))
        } else {
            None
        }
    }

    /// Latest value offset of field `key` in node `oid`; 0 for none.
    pub fn get_field_voff(&self, oid: usize, key: &str) -> (r: usize)
        requires
            self.wf(),
        ensures
            r == self.field_voff(oid as int, key.spec_bytes()),
    {
        if oid == 0 || oid > self.nnum {
            return 0;
        }
        let kbs = key.as_bytes();
        let p_off = self.node_ptab(oid);
        let sub_num = self.rd64(p_off) as u64;
        let oz = self.oz as u64;
        let mut i: u64 = sub_num;
        while i > 0
            invariant
                self.wf(),
                i <= sub_num,
                sub_num == self.sub_num(oid as int),
                p_off == self.p_off(oid as int),
                sub_num <= 0xFFFF_FFFF,
                p_off <= 0xFFFF_FFFF,
                oz == self.oz,
                kbs@ == key.spec_bytes(),
                self.field_voff(oid as int, kbs@) == self.find_field(p_off as int, i as int, kbs@),
            decreases i,
        {
            let p_i_off = lin(p_off + oz, 2 * oz, i - 1);
            let key_off = self.rd64(p_i_off) as u64;
            match self.key_slice(key_off) {
                Some(kbody) => {
                    if bytes_eq(kbody, kbs) {
                        return self.rd64(p_i_off + oz);
                    }
                },
                None => {},
            }
            i = i - 1;
        }
        0
    }

    /// Value offset of entry `index` of node `oid`; 0 for none.
    pub fn get_sub_voff(&self, oid: usize, index: usize) -> (r: usize)
        requires
            self.wf(),
        ensures
            r == self.sub_voff(oid as int, index as int),
    {
        if oid == 0 || oid > self.nnum {
            return 0;
        }
        let p_off = self.node_ptab(oid);
        let sub_num = self.rd64(p_off);
        if index >= sub_num {
            return 0;
        }
        let oz = self.oz as u64;
        let off = if self.node_type(oid) == ST::SMDT_MAP {
            lin(oz, 2 * oz, index as u64)
        } else {
            lin(0, oz, index as u64)
        };
        self.rd64(p_off + oz + off)
    }

    /// A reader over `u8a`: width from byte 1, node count after it.
    pub fn new(u8a: &'a [u8]) -> (r: Self)
        ensures
            r.wf(),
            r.u8a@ == u8a@,
            r.oz == (if u8a@.len() >= 2 { u8a@[1] as usize } else { 0 }),
            r.nnum == read_int(u8a@, 2, r.oz as nat),
    {
        let oz: usize = if u8a.len() >= 2 {
            u8a[1] as usize
        } else {
            0
        };
        let r0 = SmDtonReader { u8a, oz, nnum: 0, node_off: 3 + 3 * oz };
        let nnum = r0.rd64(2);
        SmDtonReader { u8a, oz, nnum, node_off: 3 + 3 * oz }
    }

    /// Another view of the same bytes.
    pub fn clone(&self) -> (r: Self)
        ensures
            r == *self,
    {
        SmDtonReader { u8a: self.u8a, oz: self.oz, nnum: self.nnum, node_off: self.node_off }
    }

    /// Type tag of node `oid`; 0 for no such node.
    pub fn node_type(&self, oid: usize) -> (r: u8)
        requires
            self.wf(),
        ensures
            r == self.type_of(oid as int),
    {
        if oid == 0 || oid > self.nnum {
            return 0;
        }
        let n_off = lin(self.node_off as u64, 1 + self.oz as u64, oid as u64 - 1);
        match self.byte_at(n_off) {
            Some(t) => t,
            None => 0,
        }
    }

    /// Entry count of node `oid`; 0 for no such node.
    pub fn node_sub_num(&self, oid: usize) -> (r: usize)
        requires
            self.wf(),
        ensures
            r == (if self.has_node(oid as int) {
                self.sub_num(oid as int)
            } else {
                0
            }),
    {
        if oid == 0 || oid > self.nnum {
            return 0;
        }
        let p_off = self.node_ptab(oid);
        self.rd64(p_off)
    }

    /// Key of entry `index` of map node `oid`; `None` where there is no such
    /// entry or its key is no valid UTF-8.
    pub fn get_sub_key(&self, oid: usize, index: usize) -> (r: Option<String>)
        requires
            self.wf(),
        ensures
            match self.sub_key_bytes(oid as int, index as int) {
                Some(t) => if valid_utf8(t) {
                    r matches Some(s) && s@ == decode_utf8(t)
                } else {
                    r is None
                },
                None => r is None,
            },
    {
        if oid == 0 || oid > self.nnum {
            return None;
        }
        let p_off = self.node_ptab(oid);
        let sub_num = self.rd64(p_off);
        if self.node_type(oid) != ST::SMDT_MAP || index >= sub_num {
            return None;
        }
        let oz = self.oz as u64;
        let key_off = self.rd64(lin(p_off + oz, 2 * oz, index as u64)) as u64;
        match self.key_slice(key_off) {
            Some(piece) => match utf8_str(piece) {
                Some(txt) => {
                    proof {
                        encode_utf8_decode_utf8(txt@);
                    }
                    Some(txt.to_owned())
                },
                None => None,
            },
            None => None,
        }
    }

    /// The keys of map node `oid`, each once in the order it first appears,
    /// with the value offset that a lookup by that key finds (the latest
    /// entry's); empty for no such node. Entries whose key is no valid UTF-8
    /// or lies outside the buffer are left out.
    pub fn get_sub_map(&self, oid: usize) -> (r: Vec<(String, usize)>)
        requires
            self.wf(),
        ensures
            !(self.has_node(oid as int) && self.type_of(oid as int) == ST::SMDT_MAP) ==> r@.len()
                == 0,
            forall|j: int|
                0 <= j < r@.len() ==> self.has_key(oid as int, encode_utf8((#[trigger] r@[j]).0@),
                    self.sub_num(oid as int) as int) && r@[j].1 == self.field_voff(
                    oid as int,
                    encode_utf8(r@[j].0@),
                ),
            forall|j1: int, j2: int|
                0 <= j1 < r@.len() && 0 <= j2 < r@.len() && j1 != j2 ==> (#[trigger] r@[j1]).0@
                    != (#[trigger] r@[j2]).0@,
            forall|m: int|
                0 <= m < self.sub_num(oid as int) ==> key_listed(r@, #[trigger] self.sub_key_bytes(oid as int, m)),
    {
        let mut mp: Vec<(String, usize)> = Vec::new();
        if oid == 0 || oid > self.nnum || self.node_type(oid) != ST::SMDT_MAP {
            return mp;
        }
        let p_off = self.node_ptab(oid);
        let sub_num = self.rd64(p_off);
        let ghost p = p_off as int;
        let mut i: usize = 0;
        while i < sub_num
            invariant
                self.wf(),
                self.has_node(oid as int),
                self.type_of(oid as int) == ST::SMDT_MAP,
                sub_num == self.sub_num(oid as int),
                p == self.p_off(oid as int),
                i <= sub_num,
                forall|j: int|
                    0 <= j < mp@.len() ==> self.has_key(oid as int, encode_utf8((#[trigger] mp@[j]).0@), i as int)
                        && mp@[j].1 == self.find_field(p, i as int, encode_utf8(mp@[j].0@)),
                forall|j1: int, j2: int|
                    0 <= j1 < mp@.len() && 0 <= j2 < mp@.len() && j1 != j2 ==> (#[trigger] mp@[j1]).0@
                        != (#[trigger] mp@[j2]).0@,
                forall|m: int|
                    0 <= m < i ==> key_listed(mp@, #[trigger] self.sub_key_bytes(oid as int, m)),
            decreases sub_num - i,
        {
            let ghost old_mp = mp@;
            let ghost ii = i as int;
            proof {
                // entry `i` matches a key exactly where its stored key bytes are that key's
                assert forall|kbs: Seq<u8>| #[trigger] self.key_is(p, ii, kbs) == (self.sub_key_bytes(oid as int, ii) == Some(kbs)) by {}
            }
            match self.get_sub_key(oid, i) {
                Some(k) => {
                    let v = self.get_sub_voff(oid, i);
                    let ghost t = self.sub_key_bytes(oid as int, ii)->Some_0;
                    proof {
                        vstd::utf8::decode_utf8_encode_utf8(t);
                        assert(encode_utf8(k@) == t);
                    }
                    let mut j: usize = 0;
                    let mut found = false;
                    while j < mp.len() && !found
                        invariant
                            j <= mp@.len(),
                            mp@ == old_mp,
                            found ==> j < mp@.len() && mp@[j as int].0@ == k@,
                            !found ==> forall|x: int| 0 <= x < j ==> (#[trigger] mp@[x]).0@ != k@,
                        decreases mp@.len() - j + (if found { 0int } else { 1int }),
                    {
                        if bytes_eq(mp[j].0.as_str().as_bytes(), k.as_str().as_bytes()) {
                            proof {
                                encode_utf8_decode_utf8(mp@[j as int].0@);
                                encode_utf8_decode_utf8(k@);
                            }
                            found = true;
                        } else {
                            proof {
                                if mp@[j as int].0@ == k@ {
                                    encode_utf8_decode_utf8(k@);
                                }
                            }
                            j = j + 1;
                        }
                    }
                    let ghost kt = k@;
                    if found {
                        mp.set(j, (k, v));
                    } else {
                        mp.push((k, v));
                    }
                    proof {
                        let jk = if found { j as int } else { old_mp.len() as int };
                        assert(mp@[jk].0@ == kt && mp@[jk].1 == v);
                        assert(forall|x: int| 0 <= x < mp@.len() && x != jk ==> mp@[x] == old_mp[x]);
                        assert forall|x: int| 0 <= x < mp@.len() implies self.has_key(oid as int, encode_utf8((#[trigger] mp@[x]).0@), ii + 1)
                            && mp@[x].1 == self.find_field(p, ii + 1, encode_utf8(mp@[x].0@)) by {
                            if x == jk {
                                assert(encode_utf8(mp@[x].0@) == t);
                                assert(self.key_is(p, ii, t));
                                assert(self.sub_key_bytes(oid as int, ii) == Some(t));
                            } else {
                                assert(mp@[x] == old_mp[x]);
                                assert(old_mp[x].0@ != kt);
                                encode_utf8_decode_utf8(mp@[x].0@);
                                assert(encode_utf8(mp@[x].0@) != t);
                                assert(!self.key_is(p, ii, encode_utf8(mp@[x].0@)));
                                assert(self.has_key(oid as int, encode_utf8(old_mp[x].0@), ii));
                            }
                        }
                        assert forall|j1: int, j2: int|
                            0 <= j1 < mp@.len() && 0 <= j2 < mp@.len() && j1 != j2 implies (#[trigger] mp@[j1]).0@
                                != (#[trigger] mp@[j2]).0@ by {
                            if j1 != jk && j2 != jk {
                                assert(mp@[j1] == old_mp[j1] && mp@[j2] == old_mp[j2]);
                            } else if j1 == jk {
                                assert(mp@[j2] == old_mp[j2]);
                                if found {
                                    assert(old_mp[jk].0@ == kt);
                                }
                            } else {
                                assert(mp@[j1] == old_mp[j1]);
                                if found {
                                    assert(old_mp[jk].0@ == kt);
                                }
                            }
                        }
                        assert forall|m: int| 0 <= m < ii + 1 implies key_listed(mp@, #[trigger] self.sub_key_bytes(oid as int, m)) by {
                            if m < ii {
                                match self.sub_key_bytes(oid as int, m) {
                                    Some(t2) => {
                                        if valid_utf8(t2) {
                                            assert(key_listed(old_mp, self.sub_key_bytes(oid as int, m)));
                                            let jj = choose|jj: int| 0 <= jj < old_mp.len() && #[trigger] old_mp[jj].0@ == decode_utf8(t2);
                                            if found && jj == j {
                                                assert(mp@[jj].0@ == decode_utf8(t2));
                                            } else {
                                                assert(mp@[jj] == old_mp[jj]);
                                            }
                                        }
                                    },
                                    None => {},
                                }
                            } else {
                                let jk = if found { j as int } else { old_mp.len() as int };
                                assert(mp@[jk].0@ == decode_utf8(t));
                            }
                        }
                    }
                },
                None => {
                    proof {
                        assert forall|x: int| 0 <= x < mp@.len() implies !self.key_is(p, ii, encode_utf8((#[trigger] mp@[x]).0@)) by {
                            encode_utf8_valid_utf8(mp@[x].0@);
                        }
                    }
                },
            }
            i = i + 1;
        }
        mp
    }

    /// The JSON form of a fixed-width number, boolean or byte at `voff`.
    pub open spec fn scalar_json(&self, voff: int) -> Option<JsonNode> {
        match self.byte(voff) {
            Some(t) => {
                let o = |tag: u8, n: nat| self.fixed_at(voff, tag, n);
                if t == ST::SMDT_I16 {
                    as_json(o(ST::SMDT_I16, 2), |v: nat| JsonNode::Int((signed(v, 2) as i16) as i64))
                } else if t == ST::SMDT_U16 {
                    as_json(o(ST::SMDT_U16, 2), |v: nat| JsonNode::Int((v as u16) as i64))
                } else if t == ST::SMDT_I32 {
                    as_json(o(ST::SMDT_I32, 4), |v: nat| JsonNode::Int((signed(v, 4) as i32) as i64))
                } else if t == ST::SMDT_U32 {
                    as_json(o(ST::SMDT_U32, 4), |v: nat| JsonNode::Int((v as u32) as i64))
                } else if t == ST::SMDT_F32 {
                    as_json(o(ST::SMDT_F32, 4), |v: nat| JsonNode::Float32(v as u32))
                } else if t == ST::SMDT_I64 {
                    as_json(o(ST::SMDT_I64, 8), |v: nat| JsonNode::Int(signed(v, 8) as i64))
                } else if t == ST::SMDT_U64 {
                    as_json(o(ST::SMDT_U64, 8), |v: nat| JsonNode::UInt(v as u64))
                } else if t == ST::SMDT_F64 {
                    as_json(o(ST::SMDT_F64, 8), |v: nat| JsonNode::Float64(v as u64))
                } else if t == ST::SMDT_BOO {
                    as_json(o(ST::SMDT_BOO, 1), |v: nat| JsonNode::Bool(v == 1))
                } else if t == ST::SMDT_UI8 {
                    as_json(o(ST::SMDT_UI8, 1), |v: nat| JsonNode::Int((v as u8) as i64))
                } else {
                    None
                }
            },
            None => None,
        }
    }


    /// Whether the value at `voff` has a JSON form, nodes it references
    /// followed to at most `depth` levels.
    pub open spec fn present(&self, voff: int, depth: nat) -> bool {
        match self.byte(voff) {
            Some(t) => if self.scalar_json(voff) is Some {
                true
            } else if t == ST::SMDT_STR {
                match self.span_at(voff, ST::SMDT_STR, 1) {
                    Some(b) => valid_utf8(b),
                    None => false,
                }
            } else if t == ST::SMDT_BIN || t == ST::SMDT_B64 {
                self.span_at(voff, t, 0) is Some
            } else if t == ST::SMDT_MAP || t == ST::SMDT_ARR {
                let next = self.rd(voff + 1) as int;
                depth > 0 && self.has_node(next) && (self.type_of(next) == ST::SMDT_MAP
                    || self.type_of(next) == ST::SMDT_ARR)
            } else {
                false
            },
            None => false,
        }
    }

    /// `v` is the JSON form of the value at `voff`, nodes it references
    /// followed to at most `depth` levels.
    pub open spec fn value_json_is(&self, v: JsonNode, voff: int, depth: nat) -> bool
        decreases depth, 0nat, 0int,
    {
        match self.byte(voff) {
            Some(t) => if self.scalar_json(voff) is Some {
                self.scalar_json(voff) == Some(v)
            } else if t == ST::SMDT_STR {
                match self.span_at(voff, ST::SMDT_STR, 1) {
                    Some(b) => valid_utf8(b) && (v matches JsonNode::Str(s) && s@ == decode_utf8(b)),
                    None => false,
                }
            } else if t == ST::SMDT_BIN || t == ST::SMDT_B64 {
                match self.span_at(voff, t, 0) {
                    Some(b) => (v matches JsonNode::Str(s) && s@ == b64_mark_text() + base64_text(b)),
                    None => false,
                }
            } else if t == ST::SMDT_MAP || t == ST::SMDT_ARR {
                if depth > 0 {
                    self.node_json_is(v, self.rd(voff + 1) as int, (depth - 1) as nat)
                } else {
                    false
                }
            } else {
                false
            },
            None => false,
        }
    }

    /// Whether entry `i` of map node `oid` shows in its JSON form: its key is
    /// valid UTF-8 and its value has a JSON form.
    pub open spec fn field_kept(&self, oid: int, i: int, depth: nat) -> bool {
        match self.sub_key_bytes(oid, i) {
            Some(t) => valid_utf8(t) && self.present(self.sub_voff(oid, i) as int, depth),
            None => false,
        }
    }

    /// `f` is the JSON form of the first `n` entries of map node `oid`: each
    /// kept entry sets its field in turn.
    pub open spec fn fields_are(&self, f: Seq<(String, JsonNode)>, oid: int, depth: nat, n: int) -> bool
        decreases depth, 1nat, n,
    {
        if n <= 0 {
            f.len() == 0
        } else if !self.field_kept(oid, n - 1, depth) {
            self.fields_are(f, oid, depth, n - 1)
        } else {
            exists|g: Seq<(String, JsonNode)>, e: (String, JsonNode)|
                #![trigger set_one(g, e)]
                self.fields_are(g, oid, depth, n - 1) && f == set_one(g, e) && Some(e.0@) == (match self.sub_key_bytes(oid, n - 1) {
                    Some(t) => Some(decode_utf8(t)),
                    None => None,
                }) && self.value_json_is(e.1, self.sub_voff(oid, n - 1) as int, depth)
        }
    }

    /// `a` is the JSON form of the first `n` entries of array node `oid`:
    /// each entry with a JSON form, in order.
    pub open spec fn items_are(&self, a: Seq<JsonNode>, oid: int, depth: nat, n: int) -> bool
        decreases depth, 1nat, n,
    {
        if n <= 0 {
            a.len() == 0
        } else if !self.present(self.sub_voff(oid, n - 1) as int, depth) {
            self.items_are(a, oid, depth, n - 1)
        } else {
            a.len() > 0 && self.items_are(a.drop_last(), oid, depth, n - 1) && self.value_json_is(
                a.last(),
                self.sub_voff(oid, n - 1) as int,
                depth,
            )
        }
    }

    /// `j` is the JSON form of node `oid`, nodes it references followed to
    /// at most `depth` levels.
    pub open spec fn node_json_is(&self, j: JsonNode, oid: int, depth: nat) -> bool
        decreases depth, 2nat, 0int,
    {
        if !self.has_node(oid) {
            false
        } else if self.type_of(oid) == ST::SMDT_MAP {
            j matches JsonNode::Object(f) && self.fields_are(f@, oid, depth, self.sub_num(oid) as int)
        } else if self.type_of(oid) == ST::SMDT_ARR {
            j matches JsonNode::Array(a) && self.items_are(a@, oid, depth, self.sub_num(oid) as int)
        } else {
            false
        }
    }

    /// Whether node `oid` has a JSON form: it is a map or an array node.
    pub open spec fn is_container(&self, oid: int) -> bool {
        self.has_node(oid) && (self.type_of(oid) == ST::SMDT_MAP || self.type_of(oid) == ST::SMDT_ARR)
    }

    /// The JSON form of the value at `voff`, nodes it references followed to
    /// at most `depth` levels; `None` where the value is skipped.
    fn value_json(&self, voff: usize, depth: usize) -> (r: Option<JsonNode>)
        requires
            self.wf(),
        ensures
            r is Some <==> self.present(voff as int, depth as nat),
            r matches Some(v) ==> self.value_json_is(v, voff as int, depth as nat),
        decreases depth, 0nat, 0int,
    {
        if voff >= self.u8a.len() {
            return None;
        }
        let t = match self.get_type_by_voff(voff) {
            Some(t) => t,
            None => {
                return None;
            },
        };
        if t == ST::SMDT_I16 {
            match self.get_i16_by_voff(voff) {
                Some(v) => Some(JsonNode::Int(v as i64)),
                None => None,
            }
        } else if t == ST::SMDT_U16 {
            match self.get_u16_by_voff(voff) {
                Some(v) => Some(JsonNode::Int(v as i64)),
                None => None,
            }
        } else if t == ST::SMDT_I32 {
            match self.get_i32_by_voff(voff) {
                Some(v) => Some(JsonNode::Int(v as i64)),
                None => None,
            }
        } else if t == ST::SMDT_U32 {
            match self.get_u32_by_voff(voff) {
                Some(v) => Some(JsonNode::Int(v as i64)),
                None => None,
            }
        } else if t == ST::SMDT_F32 {
            match self.get_f32_bits_by_voff(voff) {
                Some(v) => Some(JsonNode::Float32(v)),
                None => None,
            }
        } else if t == ST::SMDT_I64 {
            match self.get_i64_by_voff(voff) {
                Some(v) => Some(JsonNode::Int(v)),
                None => None,
            }
        } else if t == ST::SMDT_U64 {
            match self.get_u64_by_voff(voff) {
                Some(v) => Some(JsonNode::UInt(v)),
                None => None,
            }
        } else if t == ST::SMDT_F64 {
            match self.get_f64_bits_by_voff(voff) {
                Some(v) => Some(JsonNode::Float64(v)),
                None => None,
            }
        } else if t == ST::SMDT_BOO {
            match self.get_bool_by_voff(voff) {
                Some(v) => Some(JsonNode::Bool(v)),
                None => None,
            }
        } else if t == ST::SMDT_UI8 {
            match self.get_u8_by_voff(voff) {
                Some(v) => Some(JsonNode::Int(v as i64)),
                None => None,
            }
        } else if t == ST::SMDT_STR {
            match self.get_string_by_voff(voff) {
                Some(txt) => {
                    proof {
                        encode_utf8_decode_utf8(txt@);
                    }
                    Some(JsonNode::Str(txt.to_owned()))
                },
                None => None,
            }
        } else if t == ST::SMDT_BIN || t == ST::SMDT_B64 {
            match self.span_by_voff(voff, t, 0) {
                Some(bytes) => {
                    proof {
                        lemma_le_uint_bound(self.u8a@, voff + 1, self.oz as nat);
                    }
                    let data = encode_base64(bytes);
                    let mark = <String as StringExecFns>::from_str("$B64$");
                    proof {
                        reveal_strlit("$B64$");
                    }
                    let txt = mark.concat(data.as_str());
                    proof {
                        assert(mark@ =~= b64_mark_text());
                    }
                    Some(JsonNode::Str(txt))
                },
                None => None,
            }
        } else if t == ST::SMDT_MAP || t == ST::SMDT_ARR {
            if depth == 0 {
                return None;
            }
            let next_oid = self.rd64((voff + 1) as u64);
            self.node_json(next_oid, depth - 1)
        } else {
            None
        }
    }

    /// The JSON form of node `oid`, nodes it references followed to at most
    /// `depth` levels: an object for a map node, an array for an array node,
    /// `None` for no such node.
    fn node_json(&self, oid: usize, depth: usize) -> (r: Option<JsonNode>)
        requires
            self.wf(),
        ensures
            r is Some <==> self.is_container(oid as int),
            r matches Some(j) ==> self.node_json_is(j, oid as int, depth as nat),
        decreases depth, 2nat, 0int,
    {
        if oid == 0 || oid > self.nnum {
            return None;
        }
        let p_off = self.node_ptab(oid);
        let sub_num = self.rd64(p_off);
        let oz = self.oz as u64;
        let t = self.node_type(oid);
        if t == ST::SMDT_MAP {
            let mut obj: Vec<(String, JsonNode)> = Vec::new();
            let mut index: usize = 0;
            while index < sub_num
                invariant
                    self.wf(),
                    self.has_node(oid as int),
                    sub_num == self.sub_num(oid as int),
                    t == self.type_of(oid as int),
                    t == ST::SMDT_MAP,
                    index <= sub_num,
                    self.fields_are(obj@, oid as int, depth as nat, index as int),
                decreases sub_num - index,
            {
                let ghost n1 = index as int + 1;
                match self.get_sub_key(oid, index) {
                    Some(key) => {
                        let voff = self.get_sub_voff(oid, index);
                        let vj = self.value_json(voff, depth);
                        proof {
                            if vj is None {
                                assert(self.fields_are(obj@, oid as int, depth as nat, n1));
                            }
                        }
                        match vj {
                            Some(v) => {
                                let ghost g = obj@;
                                let ghost e = (key, v);
                                crate::sd_json::set_field(&mut obj, key, v);
                                proof {
                                    lemma_fields_step(*self, g, e, oid as int, depth as nat, n1);
                                }
                            },
                            None => {},
                        }
                    },
                    None => {
                        proof {
                            assert(self.fields_are(obj@, oid as int, depth as nat, n1));
                        }
                    },
                }
                index = index + 1;
            }
            Some(JsonNode::Object(obj))
        } else if t == ST::SMDT_ARR {
            let mut arr: Vec<JsonNode> = Vec::new();
            let mut index: usize = 0;
            while index < sub_num
                invariant
                    self.wf(),
                    self.has_node(oid as int),
                    sub_num == self.sub_num(oid as int),
                    index <= sub_num,
                    self.items_are(arr@, oid as int, depth as nat, index as int),
                decreases sub_num - index,
            {
                let voff = self.get_sub_voff(oid, index);
                match self.value_json(voff, depth) {
                    Some(v) => {
                        let ghost g = arr@;
                        arr.push(v);
                        proof {
                            assert(arr@.drop_last() =~= g);
                        }
                    },
                    None => {},
                }
                index = index + 1;
            }
            Some(JsonNode::Array(arr))
        } else {
            None
        }
    }

    /// Materializes node `oid` and the nodes it references; `None` for no
    /// such node or one that is neither map nor array. References are
    /// followed to as many levels as the buffer has nodes, so a cycle is
    /// unrolled that deep and the reference beyond is left out.
    pub fn to_json(&self, oid: usize) -> (r: Option<JsonNode>)
        requires
            self.wf(),
        ensures
            r is Some <==> self.is_container(oid as int),
            r matches Some(j) ==> self.node_json_is(j, oid as int, self.nnum as nat),
    {
        self.node_json(oid, self.nnum)
    }

    /// Type tag of the value at `value_off`, if it lies in the buffer.
    pub fn get_type_by_voff(&self, value_off: usize) -> (r: Option<u8>)
        ensures
            r == self.byte(value_off as int),
    {
        self.byte_at(value_off as u64)
    }

    /// The `n`-byte payload of the value at `value_off`, if it has tag `tag`.
    fn fixed_by_voff(&self, value_off: usize, tag: u8, n: usize) -> (r: Option<u64>)
        requires
            n <= 8,
        ensures
            match self.fixed_at(value_off as int, tag, n as nat) {
                Some(v) => r == Some(v as u64),
                None => r is None,
            },
            r matches Some(v) ==> v == le_uint(self.u8a@, value_off + 1, n as nat),
    {
        let len = self.u8a.len();
        if value_off >= len || len - value_off <= n || self.u8a[value_off] != tag {
            return None;
        }
        let mut v: u64 = 0;
        let mut k: usize = n;
        let ghost blen = len;
        proof {
            reveal_with_fuel(crate::su::pow256, 9);
        }
        while k > 0
            invariant
                k <= n,
                n <= 8,
                value_off + 1 + n <= self.u8a@.len(),
                blen == self.u8a@.len(),
                blen <= usize::MAX,
                v == le_uint(self.u8a@, value_off + 1 + k, (n - k) as nat),
                v < crate::su::pow256((n - k) as nat),
            decreases k,
        {
            proof {
                lemma_pow256_step((n - k) as nat);
                lemma_pow256_mono((n - k + 1) as nat, 8);
                reveal_with_fuel(crate::su::pow256, 9);
                assert(le_uint(self.u8a@, value_off + 1 + (k - 1), (n - k + 1) as nat)
                    == self.u8a@[value_off + k] as nat + 256 * le_uint(self.u8a@, value_off + 1 + k, (n - k) as nat));
            }
            v = self.u8a[value_off + k] as u64 + 256 * v;
            k = k - 1;
        }
        Some(v)
    }

    pub fn get_bool_by_voff(&self, value_off: usize) -> (r: Option<bool>)
        ensures
            r == (match self.fixed_at(value_off as int, ST::SMDT_BOO, 1) {
                Some(v) => Some(v == 1),
                None => None::<bool>,
            }),
    {
        match self.fixed_by_voff(value_off, ST::SMDT_BOO, 1) {
            Some(v) => Some(v == 1),
            None => None,
        }
    }

    pub fn get_u8_by_voff(&self, value_off: usize) -> (r: Option<u8>)
        ensures
            r == (match self.fixed_at(value_off as int, ST::SMDT_UI8, 1) {
                Some(v) => Some(v as u8),
                None => None::<u8>,
            }),
    {
        match self.fixed_by_voff(value_off, ST::SMDT_UI8, 1) {
            Some(v) => {
                proof {
                    lemma_le_uint_bound(self.u8a@, value_off + 1, 1);
                }
                Some(v as u8)
            },
            None => None,
        }
    }

    /// The i16 at `value_off`; `None` where another tag stands there.
    pub fn get_i16_by_voff(&self, value_off: usize) -> (r: Option<i16>)
        ensures
            r == (match self.fixed_at(value_off as int, ST::SMDT_I16, 2) {
                Some(v) => Some(signed(v, 2) as i16),
                None => None::<i16>,
            }),
    {
        match self.fixed_by_voff(value_off, ST::SMDT_I16, 2) {
            Some(v) => {
                proof {
                    lemma_le_uint_bound(self.u8a@, value_off + 1, 2);
                    lemma_le_uint_bound8(self.u8a@, value_off + 1, 2);
                }
                Some(if v >= 0x8000 { (v as i64 - 0x1_0000) as i16 } else { v as i16 })
            },
            None => None,
        }
    }

    /// The u16 at `value_off`; `None` where another tag stands there.
    pub fn get_u16_by_voff(&self, value_off: usize) -> (r: Option<u16>)
        ensures
            r == (match self.fixed_at(value_off as int, ST::SMDT_U16, 2) {
                Some(v) => Some(v as u16),
                None => None::<u16>,
            }),
    {
        match self.fixed_by_voff(value_off, ST::SMDT_U16, 2) {
            Some(v) => {
                proof {
                    lemma_le_uint_bound(self.u8a@, value_off + 1, 2);
                    lemma_le_uint_bound8(self.u8a@, value_off + 1, 2);
                }
                Some(v as u16)
            },
            None => None,
        }
    }

    /// The i32 at `value_off`; `None` where another tag stands there.
    pub fn get_i32_by_voff(&self, value_off: usize) -> (r: Option<i32>)
        ensures
            r == (match self.fixed_at(value_off as int, ST::SMDT_I32, 4) {
                Some(v) => Some(signed(v, 4) as i32),
                None => None::<i32>,
            }),
    {
        match self.fixed_by_voff(value_off, ST::SMDT_I32, 4) {
            Some(v) => {
                proof {
                    lemma_le_uint_bound(self.u8a@, value_off + 1, 4);
                    lemma_le_uint_bound8(self.u8a@, value_off + 1, 4);
                }
                Some(if v >= 0x8000_0000 { (v as i64 - 0x1_0000_0000) as i32 } else { v as i32 })
            },
            None => None,
        }
    }

    /// The u32 at `value_off`; `None` where another tag stands there.
    pub fn get_u32_by_voff(&self, value_off: usize) -> (r: Option<u32>)
        ensures
            r == (match self.fixed_at(value_off as int, ST::SMDT_U32, 4) {
                Some(v) => Some(v as u32),
                None => None::<u32>,
            }),
    {
        match self.fixed_by_voff(value_off, ST::SMDT_U32, 4) {
            Some(v) => {
                proof {
                    lemma_le_uint_bound(self.u8a@, value_off + 1, 4);
                    lemma_le_uint_bound8(self.u8a@, value_off + 1, 4);
                }
                Some(v as u32)
            },
            None => None,
        }
    }

    /// IEEE 754 bits of the float at `value_off`; `None` where another tag stands there.
    pub fn get_f32_bits_by_voff(&self, value_off: usize) -> (r: Option<u32>)
        ensures
            r == (match self.fixed_at(value_off as int, ST::SMDT_F32, 4) {
                Some(v) => Some(v as u32),
                None => None::<u32>,
            }),
    {
        match self.fixed_by_voff(value_off, ST::SMDT_F32, 4) {
            Some(v) => {
                proof {
                    lemma_le_uint_bound(self.u8a@, value_off + 1, 4);
                    lemma_le_uint_bound8(self.u8a@, value_off + 1, 4);
                }
                Some(v as u32)
            },
            None => None,
        }
    }

    /// The i64 at `value_off`; `None` where another tag stands there.
    pub fn get_i64_by_voff(&self, value_off: usize) -> (r: Option<i64>)
        ensures
            r == (match self.fixed_at(value_off as int, ST::SMDT_I64, 8) {
                Some(v) => Some(signed(v, 8) as i64),
                None => None::<i64>,
            }),
    {
        match self.fixed_by_voff(value_off, ST::SMDT_I64, 8) {
            Some(v) => {
                proof {
                    lemma_le_uint_bound(self.u8a@, value_off + 1, 4);
                    lemma_le_uint_bound8(self.u8a@, value_off + 1, 8);
                }
                Some(if v >= 0x8000_0000_0000_0000 { (v as i128 - 0x1_0000_0000_0000_0000) as i64 } else { v as i64 })
            },
            None => None,
        }
    }

    /// The u64 at `value_off`; `None` where another tag stands there.
    pub fn get_u64_by_voff(&self, value_off: usize) -> (r: Option<u64>)
        ensures
            r == (match self.fixed_at(value_off as int, ST::SMDT_U64, 8) {
                Some(v) => Some(v as u64),
                None => None::<u64>,
            }),
    {
        match self.fixed_by_voff(value_off, ST::SMDT_U64, 8) {
            Some(v) => {
                proof {
                    lemma_le_uint_bound(self.u8a@, value_off + 1, 4);
                    lemma_le_uint_bound8(self.u8a@, value_off + 1, 8);
                }
                Some(v as u64)
            },
            None => None,
        }
    }

    /// IEEE 754 bits of the float at `value_off`; `None` where another tag stands there.
    pub fn get_f64_bits_by_voff(&self, value_off: usize) -> (r: Option<u64>)
        ensures
            r == (match self.fixed_at(value_off as int, ST::SMDT_F64, 8) {
                Some(v) => Some(v as u64),
                None => None::<u64>,
            }),
    {
        match self.fixed_by_voff(value_off, ST::SMDT_F64, 8) {
            Some(v) => {
                proof {
                    lemma_le_uint_bound(self.u8a@, value_off + 1, 4);
                    lemma_le_uint_bound8(self.u8a@, value_off + 1, 8);
                }
                Some(v as u64)
            },
            None => None,
        }
    }

    /// The string at `value_off`; `None` where another tag stands there, its
    /// bytes run past the end or are no valid UTF-8.
    pub fn get_string_by_voff(&self, value_off: usize) -> (r: Option<&'a str>)
        requires
            self.wf(),
        ensures
            match self.span_at(value_off as int, ST::SMDT_STR, 1) {
                Some(t) => if valid_utf8(t) {
                    r matches Some(s) && s.spec_bytes() == t
                } else {
                    r is None
                },
                None => r is None,
            },
    {
        match self.span_by_voff(value_off, ST::SMDT_STR, 1) {
            Some(piece) => utf8_str(piece),
            None => None,
        }
    }

    /// The payload bytes of the length-prefixed value at `value_off` with tag
    /// `tag`, less `trim` trailing bytes.
    fn span_by_voff(&self, value_off: usize, tag: u8, trim: u64) -> (r: Option<&'a [u8]>)
        requires
            self.wf(),
        ensures
            match self.span_at(value_off as int, tag, trim as nat) {
                Some(t) => r matches Some(s) && s@ == t,
                None => r is None,
            },
    {
        let len = self.u8a.len() as u64;
        let oz = self.oz;
        if value_off as u64 >= len || len - (value_off as u64) < 1 + oz as u64 || self.u8a[value_off]
            != tag || !(oz == 1 || oz == 2 || oz == 4) {
            return None;
        }
        let tw = self.rd64(value_off as u64 + 1) as u64;
        let start = value_off as u64 + 1 + oz as u64;
        if tw < trim || tw > len - start {
            return None;
        }
        Some(vstd::slice::slice_subrange(self.u8a, start as usize, (start + tw - trim) as usize))
    }

    /// The blob at `value_off`; `None` where another tag stands there or its
    /// bytes run past the end.
    pub fn get_bin_by_voff(&self, value_off: usize) -> (r: Option<&'a [u8]>)
        requires
            self.wf(),
        ensures
            match self.span_at(value_off as int, ST::SMDT_BIN, 0) {
                Some(t) => r matches Some(s) && s@ == t,
                None => r is None,
            },
    {
        self.span_by_voff(value_off, ST::SMDT_BIN, 0)
    }

    /// The id of the node referenced at `value_off`; `None` where no map or
    /// array reference stands there.
    pub fn get_node_id_by_voff(&self, value_off: usize) -> (r: Option<usize>)
        requires
            self.wf(),
        ensures
            r == (match self.byte(value_off as int) {
                Some(t) => if t == ST::SMDT_MAP || t == ST::SMDT_ARR {
                    Some(self.rd(value_off + 1) as usize)
                } else {
                    None::<usize>
                },
                None => None::<usize>,
            }),
    {
        if value_off >= self.u8a.len() {
            return None;
        }
        match self.byte_at(value_off as u64) {
            Some(t) => if t == ST::SMDT_MAP || t == ST::SMDT_ARR {
                Some(self.rd64(value_off as u64 + 1))
            } else {
                None
            },
            None => None,
        }
    }

    /// Like `get_bool_by_voff`, for the latest field `key` of node `oid`.
    pub fn get_bool(&self, oid: usize, key: &str) -> (r: Option<bool>)
        requires
            self.wf(),
        ensures
            (self.field_voff(oid as int, key.spec_bytes()) as int) == 0 ==> r is None,
            (self.field_voff(oid as int, key.spec_bytes()) as int) != 0 ==> r == (match self.fixed_at((self.field_voff(oid as int, key.spec_bytes()) as int), ST::SMDT_BOO, 1) {
                    Some(v) => Some(v == 1),
                    None => None::<bool>,
                }),
    {
        let value_off = self.get_field_voff(oid, key);
        if value_off == 0 {
            return None;
        }
        self.get_bool_by_voff(value_off)
    }

    /// Like `get_bool_by_voff`, for entry `index` of node `oid`.
    pub fn get_bool_by_id(&self, oid: usize, index: usize) -> (r: Option<bool>)
        requires
            self.wf(),
        ensures
            (self.sub_voff(oid as int, index as int) as int) == 0 ==> r is None,
            (self.sub_voff(oid as int, index as int) as int) != 0 ==> r == (match self.fixed_at((self.sub_voff(oid as int, index as int) as int), ST::SMDT_BOO, 1) {
                    Some(v) => Some(v == 1),
                    None => None::<bool>,
                }),
    {
        let value_off = self.get_sub_voff(oid, index);
        if value_off == 0 {
            return None;
        }
        self.get_bool_by_voff(value_off)
    }

    /// Like `get_u8_by_voff`, for the latest field `key` of node `oid`.
    pub fn get_u8(&self, oid: usize, key: &str) -> (r: Option<u8>)
        requires
            self.wf(),
        ensures
            (self.field_voff(oid as int, key.spec_bytes()) as int) == 0 ==> r is None,
            (self.field_voff(oid as int, key.spec_bytes()) as int) != 0 ==> r == (match self.fixed_at((self.field_voff(oid as int, key.spec_bytes()) as int), ST::SMDT_UI8, 1) {
                    Some(v) => Some(v as u8),
                    None => None::<u8>,
                }),
    {
        let value_off = self.get_field_voff(oid, key);
        if value_off == 0 {
            return None;
        }
        self.get_u8_by_voff(value_off)
    }

    /// Like `get_u8_by_voff`, for entry `index` of node `oid`.
    pub fn get_u8_by_id(&self, oid: usize, index: usize) -> (r: Option<u8>)
        requires
            self.wf(),
        ensures
            (self.sub_voff(oid as int, index as int) as int) == 0 ==> r is None,
            (self.sub_voff(oid as int, index as int) as int) != 0 ==> r == (match self.fixed_at((self.sub_voff(oid as int, index as int) as int), ST::SMDT_UI8, 1) {
                    Some(v) => Some(v as u8),
                    None => None::<u8>,
                }),
    {
        let value_off = self.get_sub_voff(oid, index);
        if value_off == 0 {
            return None;
        }
        self.get_u8_by_voff(value_off)
    }

    /// Like `get_i16_by_voff`, for the latest field `key` of node `oid`.
    pub fn get_i16(&self, oid: usize, key: &str) -> (r: Option<i16>)
        requires
            self.wf(),
        ensures
            (self.field_voff(oid as int, key.spec_bytes()) as int) == 0 ==> r is None,
            (self.field_voff(oid as int, key.spec_bytes()) as int) != 0 ==> r == (match self.fixed_at((self.field_voff(oid as int, key.spec_bytes()) as int), ST::SMDT_I16, 2) {
                    Some(v) => Some(signed(v, 2) as i16),
                    None => None::<i16>,
                }),
    {
        let value_off = self.get_field_voff(oid, key);
        if value_off == 0 {
            return None;
        }
        self.get_i16_by_voff(value_off)
    }

    /// Like `get_i16_by_voff`, for entry `index` of node `oid`.
    pub fn get_i16_by_id(&self, oid: usize, index: usize) -> (r: Option<i16>)
        requires
            self.wf(),
        ensures
            (self.sub_voff(oid as int, index as int) as int) == 0 ==> r is None,
            (self.sub_voff(oid as int, index as int) as int) != 0 ==> r == (match self.fixed_at((self.sub_voff(oid as int, index as int) as int), ST::SMDT_I16, 2) {
                    Some(v) => Some(signed(v, 2) as i16),
                    None => None::<i16>,
                }),
    {
        let value_off = self.get_sub_voff(oid, index);
        if value_off == 0 {
            return None;
        }
        self.get_i16_by_voff(value_off)
    }

    /// Like `get_u16_by_voff`, for the latest field `key` of node `oid`.
    pub fn get_u16(&self, oid: usize, key: &str) -> (r: Option<u16>)
        requires
            self.wf(),
        ensures
            (self.field_voff(oid as int, key.spec_bytes()) as int) == 0 ==> r is None,
            (self.field_voff(oid as int, key.spec_bytes()) as int) != 0 ==> r == (match self.fixed_at((self.field_voff(oid as int, key.spec_bytes()) as int), ST::SMDT_U16, 2) {
                    Some(v) => Some(v as u16),
                    None => None::<u16>,
                }),
    {
        let value_off = self.get_field_voff(oid, key);
        if value_off == 0 {
            return None;
        }
        self.get_u16_by_voff(value_off)
    }

    /// Like `get_u16_by_voff`, for entry `index` of node `oid`.
    pub fn get_u16_by_id(&self, oid: usize, index: usize) -> (r: Option<u16>)
        requires
            self.wf(),
        ensures
            (self.sub_voff(oid as int, index as int) as int) == 0 ==> r is None,
            (self.sub_voff(oid as int, index as int) as int) != 0 ==> r == (match self.fixed_at((self.sub_voff(oid as int, index as int) as int), ST::SMDT_U16, 2) {
                    Some(v) => Some(v as u16),
                    None => None::<u16>,
                }),
    {
        let value_off = self.get_sub_voff(oid, index);
        if value_off == 0 {
            return None;
        }
        self.get_u16_by_voff(value_off)
    }

    /// Like `get_i32_by_voff`, for the latest field `key` of node `oid`.
    pub fn get_i32(&self, oid: usize, key: &str) -> (r: Option<i32>)
        requires
            self.wf(),
        ensures
            (self.field_voff(oid as int, key.spec_bytes()) as int) == 0 ==> r is None,
            (self.field_voff(oid as int, key.spec_bytes()) as int) != 0 ==> r == (match self.fixed_at((self.field_voff(oid as int, key.spec_bytes()) as int), ST::SMDT_I32, 4) {
                    Some(v) => Some(signed(v, 4) as i32),
                    None => None::<i32>,
                }),
    {
        let value_off = self.get_field_voff(oid, key);
        if value_off == 0 {
            return None;
        }
        self.get_i32_by_voff(value_off)
    }

    /// Like `get_i32_by_voff`, for entry `index` of node `oid`.
    pub fn get_i32_by_id(&self, oid: usize, index: usize) -> (r: Option<i32>)
        requires
            self.wf(),
        ensures
            (self.sub_voff(oid as int, index as int) as int) == 0 ==> r is None,
            (self.sub_voff(oid as int, index as int) as int) != 0 ==> r == (match self.fixed_at((self.sub_voff(oid as int, index as int) as int), ST::SMDT_I32, 4) {
                    Some(v) => Some(signed(v, 4) as i32),
                    None => None::<i32>,
                }),
    {
        let value_off = self.get_sub_voff(oid, index);
        if value_off == 0 {
            return None;
        }
        self.get_i32_by_voff(value_off)
    }

    /// Like `get_u32_by_voff`, for the latest field `key` of node `oid`.
    pub fn get_u32(&self, oid: usize, key: &str) -> (r: Option<u32>)
        requires
            self.wf(),
        ensures
            (self.field_voff(oid as int, key.spec_bytes()) as int) == 0 ==> r is None,
            (self.field_voff(oid as int, key.spec_bytes()) as int) != 0 ==> r == (match self.fixed_at((self.field_voff(oid as int, key.spec_bytes()) as int), ST::SMDT_U32, 4) {
                    Some(v) => Some(v as u32),
                    None => None::<u32>,
                }),
    {
        let value_off = self.get_field_voff(oid, key);
        if value_off == 0 {
            return None;
        }
        self.get_u32_by_voff(value_off)
    }

    /// Like `get_u32_by_voff`, for entry `index` of node `oid`.
    pub fn get_u32_by_id(&self, oid: usize, index: usize) -> (r: Option<u32>)
        requires
            self.wf(),
        ensures
            (self.sub_voff(oid as int, index as int) as int) == 0 ==> r is None,
            (self.sub_voff(oid as int, index as int) as int) != 0 ==> r == (match self.fixed_at((self.sub_voff(oid as int, index as int) as int), ST::SMDT_U32, 4) {
                    Some(v) => Some(v as u32),
                    None => None::<u32>,
                }),
    {
        let value_off = self.get_sub_voff(oid, index);
        if value_off == 0 {
            return None;
        }
        self.get_u32_by_voff(value_off)
    }

    /// Like `get_f32_bits_by_voff`, for the latest field `key` of node `oid`.
    pub fn get_f32_bits(&self, oid: usize, key: &str) -> (r: Option<u32>)
        requires
            self.wf(),
        ensures
            (self.field_voff(oid as int, key.spec_bytes()) as int) == 0 ==> r is None,
            (self.field_voff(oid as int, key.spec_bytes()) as int) != 0 ==> r == (match self.fixed_at((self.field_voff(oid as int, key.spec_bytes()) as int), ST::SMDT_F32, 4) {
                    Some(v) => Some(v as u32),
                    None => None::<u32>,
                }),
    {
        let value_off = self.get_field_voff(oid, key);
        if value_off == 0 {
            return None;
        }
        self.get_f32_bits_by_voff(value_off)
    }

    /// Like `get_f32_bits_by_voff`, for entry `index` of node `oid`.
    pub fn get_f32_bits_by_id(&self, oid: usize, index: usize) -> (r: Option<u32>)
        requires
            self.wf(),
        ensures
            (self.sub_voff(oid as int, index as int) as int) == 0 ==> r is None,
            (self.sub_voff(oid as int, index as int) as int) != 0 ==> r == (match self.fixed_at((self.sub_voff(oid as int, index as int) as int), ST::SMDT_F32, 4) {
                    Some(v) => Some(v as u32),
                    None => None::<u32>,
                }),
    {
        let value_off = self.get_sub_voff(oid, index);
        if value_off == 0 {
            return None;
        }
        self.get_f32_bits_by_voff(value_off)
    }

    /// Like `get_i64_by_voff`, for the latest field `key` of node `oid`.
    pub fn get_i64(&self, oid: usize, key: &str) -> (r: Option<i64>)
        requires
            self.wf(),
        ensures
            (self.field_voff(oid as int, key.spec_bytes()) as int) == 0 ==> r is None,
            (self.field_voff(oid as int, key.spec_bytes()) as int) != 0 ==> r == (match self.fixed_at((self.field_voff(oid as int, key.spec_bytes()) as int), ST::SMDT_I64, 8) {
                    Some(v) => Some(signed(v, 8) as i64),
                    None => None::<i64>,
                }),
    {
        let value_off = self.get_field_voff(oid, key);
        if value_off == 0 {
            return None;
        }
        self.get_i64_by_voff(value_off)
    }

    /// Like `get_i64_by_voff`, for entry `index` of node `oid`.
    pub fn get_i64_by_id(&self, oid: usize, index: usize) -> (r: Option<i64>)
        requires
            self.wf(),
        ensures
            (self.sub_voff(oid as int, index as int) as int) == 0 ==> r is None,
            (self.sub_voff(oid as int, index as int) as int) != 0 ==> r == (match self.fixed_at((self.sub_voff(oid as int, index as int) as int), ST::SMDT_I64, 8) {
                    Some(v) => Some(signed(v, 8) as i64),
                    None => None::<i64>,
                }),
    {
        let value_off = self.get_sub_voff(oid, index);
        if value_off == 0 {
            return None;
        }
        self.get_i64_by_voff(value_off)
    }

    /// Like `get_u64_by_voff`, for the latest field `key` of node `oid`.
    pub fn get_u64(&self, oid: usize, key: &str) -> (r: Option<u64>)
        requires
            self.wf(),
        ensures
            (self.field_voff(oid as int, key.spec_bytes()) as int) == 0 ==> r is None,
            (self.field_voff(oid as int, key.spec_bytes()) as int) != 0 ==> r == (match self.fixed_at((self.field_voff(oid as int, key.spec_bytes()) as int), ST::SMDT_U64, 8) {
                    Some(v) => Some(v as u64),
                    None => None::<u64>,
                }),
    {
        let value_off = self.get_field_voff(oid, key);
        if value_off == 0 {
            return None;
        }
        self.get_u64_by_voff(value_off)
    }

    /// Like `get_u64_by_voff`, for entry `index` of node `oid`.
    pub fn get_u64_by_id(&self, oid: usize, index: usize) -> (r: Option<u64>)
        requires
            self.wf(),
        ensures
            (self.sub_voff(oid as int, index as int) as int) == 0 ==> r is None,
            (self.sub_voff(oid as int, index as int) as int) != 0 ==> r == (match self.fixed_at((self.sub_voff(oid as int, index as int) as int), ST::SMDT_U64, 8) {
                    Some(v) => Some(v as u64),
                    None => None::<u64>,
                }),
    {
        let value_off = self.get_sub_voff(oid, index);
        if value_off == 0 {
            return None;
        }
        self.get_u64_by_voff(value_off)
    }

    /// Like `get_f64_bits_by_voff`, for the latest field `key` of node `oid`.
    pub fn get_f64_bits(&self, oid: usize, key: &str) -> (r: Option<u64>)
        requires
            self.wf(),
        ensures
            (self.field_voff(oid as int, key.spec_bytes()) as int) == 0 ==> r is None,
            (self.field_voff(oid as int, key.spec_bytes()) as int) != 0 ==> r == (match self.fixed_at((self.field_voff(oid as int, key.spec_bytes()) as int), ST::SMDT_F64, 8) {
                    Some(v) => Some(v as u64),
                    None => None::<u64>,
                }),
    {
        let value_off = self.get_field_voff(oid, key);
        if value_off == 0 {
            return None;
        }
        self.get_f64_bits_by_voff(value_off)
    }

    /// Like `get_f64_bits_by_voff`, for entry `index` of node `oid`.
    pub fn get_f64_bits_by_id(&self, oid: usize, index: usize) -> (r: Option<u64>)
        requires
            self.wf(),
        ensures
            (self.sub_voff(oid as int, index as int) as int) == 0 ==> r is None,
            (self.sub_voff(oid as int, index as int) as int) != 0 ==> r == (match self.fixed_at((self.sub_voff(oid as int, index as int) as int), ST::SMDT_F64, 8) {
                    Some(v) => Some(v as u64),
                    None => None::<u64>,
                }),
    {
        let value_off = self.get_sub_voff(oid, index);
        if value_off == 0 {
            return None;
        }
        self.get_f64_bits_by_voff(value_off)
    }

    /// Like `get_string_by_voff`, for the latest field `key` of node `oid`.
    pub fn get_string(&self, oid: usize, key: &str) -> (r: Option<&'a str>)
        requires
            self.wf(),
        ensures
            (self.field_voff(oid as int, key.spec_bytes()) as int) == 0 ==> r is None,
            (self.field_voff(oid as int, key.spec_bytes()) as int) != 0 ==> match self.span_at((self.field_voff(oid as int, key.spec_bytes()) as int), ST::SMDT_STR, 1) {
                    Some(t) => if valid_utf8(t) {
                        r matches Some(s) && s.spec_bytes() == t
                    } else {
                        r is None
                    },
                    None => r is None,
                },
    {
        let value_off = self.get_field_voff(oid, key);
        if value_off == 0 {
            return None;
        }
        self.get_string_by_voff(value_off)
    }

    /// Like `get_string_by_voff`, for entry `index` of node `oid`.
    pub fn get_string_by_id(&self, oid: usize, index: usize) -> (r: Option<&'a str>)
        requires
            self.wf(),
        ensures
            (self.sub_voff(oid as int, index as int) as int) == 0 ==> r is None,
            (self.sub_voff(oid as int, index as int) as int) != 0 ==> match self.span_at((self.sub_voff(oid as int, index as int) as int), ST::SMDT_STR, 1) {
                    Some(t) => if valid_utf8(t) {
                        r matches Some(s) && s.spec_bytes() == t
                    } else {
                        r is None
                    },
                    None => r is None,
                },
    {
        let value_off = self.get_sub_voff(oid, index);
        if value_off == 0 {
            return None;
        }
        self.get_string_by_voff(value_off)
    }

    /// Like `get_bin_by_voff`, for the latest field `key` of node `oid`.
    pub fn get_bin(&self, oid: usize, key: &str) -> (r: Option<&'a [u8]>)
        requires
            self.wf(),
        ensures
            (self.field_voff(oid as int, key.spec_bytes()) as int) == 0 ==> r is None,
            (self.field_voff(oid as int, key.spec_bytes()) as int) != 0 ==> match self.span_at((self.field_voff(oid as int, key.spec_bytes()) as int), ST::SMDT_BIN, 0) {
                    Some(t) => r matches Some(s) && s@ == t,
                    None => r is None,
                },
    {
        let value_off = self.get_field_voff(oid, key);
        if value_off == 0 {
            return None;
        }
        self.get_bin_by_voff(value_off)
    }

    /// Like `get_bin_by_voff`, for entry `index` of node `oid`.
    pub fn get_bin_by_id(&self, oid: usize, index: usize) -> (r: Option<&'a [u8]>)
        requires
            self.wf(),
        ensures
            (self.sub_voff(oid as int, index as int) as int) == 0 ==> r is None,
            (self.sub_voff(oid as int, index as int) as int) != 0 ==> match self.span_at((self.sub_voff(oid as int, index as int) as int), ST::SMDT_BIN, 0) {
                    Some(t) => r matches Some(s) && s@ == t,
                    None => r is None,
                },
    {
        let value_off = self.get_sub_voff(oid, index);
        if value_off == 0 {
            return None;
        }
        self.get_bin_by_voff(value_off)
    }

    /// Like `get_node_id_by_voff`, for the latest field `key` of node `oid`.
    pub fn get_node_id(&self, oid: usize, key: &str) -> (r: Option<usize>)
        requires
            self.wf(),
        ensures
            (self.field_voff(oid as int, key.spec_bytes()) as int) == 0 ==> r is None,
            (self.field_voff(oid as int, key.spec_bytes()) as int) != 0 ==> r == (match self.byte((self.field_voff(oid as int, key.spec_bytes()) as int)) {
                    Some(t) => if t == ST::SMDT_MAP || t == ST::SMDT_ARR {
                        Some(self.rd((self.field_voff(oid as int, key.spec_bytes()) as int) + 1) as usize)
                    } else {
                        None::<usize>
                    },
                    None => None::<usize>,
                }),
    {
        let value_off = self.get_field_voff(oid, key);
        if value_off == 0 {
            return None;
        }
        self.get_node_id_by_voff(value_off)
    }

    /// Like `get_node_id_by_voff`, for entry `index` of node `oid`.
    pub fn get_node_id_by_id(&self, oid: usize, index: usize) -> (r: Option<usize>)
        requires
            self.wf(),
        ensures
            (self.sub_voff(oid as int, index as int) as int) == 0 ==> r is None,
            (self.sub_voff(oid as int, index as int) as int) != 0 ==> r == (match self.byte((self.sub_voff(oid as int, index as int) as int)) {
                    Some(t) => if t == ST::SMDT_MAP || t == ST::SMDT_ARR {
                        Some(self.rd((self.sub_voff(oid as int, index as int) as int) + 1) as usize)
                    } else {
                        None::<usize>
                    },
                    None => None::<usize>,
                }),
    {
        let value_off = self.get_sub_voff(oid, index);
        if value_off == 0 {
            return None;
        }
        self.get_node_id_by_voff(value_off)
    }
}

proof fn lemma_pow256_bound(w: nat)
    ensures
        crate::su::pow256(w) >= 1,
    decreases w,
{
    if w > 0 {
        lemma_pow256_bound((w - 1) as nat);
    }
}

proof fn lemma_pow256_step(w: nat)
    ensures
        crate::su::pow256(w + 1) == 256 * crate::su::pow256(w),
{
}

proof fn lemma_le_uint_pow(b: Seq<u8>, off: int, w: nat)
    ensures
        le_uint(b, off, w) < crate::su::pow256(w),
    decreases w,
{
    if w > 0 {
        lemma_le_uint_pow(b, off + 1, (w - 1) as nat);
    }
}

proof fn lemma_le_uint_bound8(b: Seq<u8>, off: int, w: nat)
    ensures
        w <= 8 ==> le_uint(b, off, w) <= 0xFFFF_FFFF_FFFF_FFFF,
{
    lemma_le_uint_pow(b, off, w);
    reveal_with_fuel(crate::su::pow256, 9);
    if w < 8 {
        lemma_pow256_mono(w, 8);
    }
}

proof fn lemma_pow256_mono(a: nat, b: nat)
    requires
        a <= b,
    ensures
        crate::su::pow256(a) <= crate::su::pow256(b),
    decreases b - a,
{
    if a < b {
        lemma_pow256_mono(a, (b - 1) as nat);
        lemma_pow256_bound((b - 1) as nat);
    }
}

/// `a + b * c`, for offsets of the buffer's range.
fn lin(a: u64, b: u64, c: u64) -> (r: u64)
    requires
        a <= 0x2_0000_0000,
        b <= 1024,
        c <= 0xFFFF_FFFF,
    ensures
        r == a + b * c,
        r <= 0x2_0000_0000 + 1024 * 0xFFFF_FFFF,
{
    proof {
        assert(b * c <= 1024 * 0xFFFF_FFFF) by (nonlinear_arith)
            requires
                b <= 1024,
                c <= 0xFFFF_FFFF,
        ;
    }
    a + b * c
}

/// A lookup by key finds the entry added last under that key: where entry
/// `j` of the table at `p` has key `kbs` and no later one among the first `n`
/// has, the value offset found is entry `j`'s.
pub proof fn lemma_latest_field_wins(q: SmDtonReader, p: int, n: int, kbs: Seq<u8>, j: int)
    requires
        0 <= j < n,
        q.key_is(p, j, kbs),
        forall|m: int| j < m < n ==> !q.key_is(p, m, kbs),
    ensures
        q.find_field(p, n, kbs) == q.rd(q.pair_off(p, j) + q.oz),
    decreases n,
{
    if n - 1 > j {
        lemma_latest_field_wins(q, p, n - 1, kbs, j);
    }
}

/// Asking for a string where a value of another tag stands gives no value.
pub proof fn lemma_tag_mismatch(q: SmDtonReader, voff: int, trim: nat)
    requires
        q.byte(voff) matches Some(t) && t != ST::SMDT_STR,
    ensures
        q.span_at(voff, ST::SMDT_STR, trim) is None,
{
}

/// Setting a kept entry's field extends the JSON form by one entry.
pub(crate) proof fn lemma_fields_step(
    q: SmDtonReader,
    g: Seq<(String, JsonNode)>,
    e: (String, JsonNode),
    oid: int,
    depth: nat,
    n: int,
)
    requires
        n > 0,
        q.fields_are(g, oid, depth, n - 1),
        q.field_kept(oid, n - 1, depth),
        Some(e.0@) == (match q.sub_key_bytes(oid, n - 1) {
            Some(t) => Some(decode_utf8(t)),
            None => None,
        }),
        q.value_json_is(e.1, q.sub_voff(oid, n - 1) as int, depth),
    ensures
        q.fields_are(set_one(g, e), oid, depth, n),
{
    let f = set_one(g, e);
    assert(q.fields_are(g, oid, depth, n - 1) && f == set_one(g, e));
}

} // verus!

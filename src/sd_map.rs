//! The flat-map builder: one map node, no nesting.
use vstd::prelude::*;
use vstd::string::StringSliceAdditionalSpecFns;

use crate::sd_buffer::{
    key_seg, key_seg_len, lemma_key_seg_len_mono, val_seg, val_seg_len, values_wf, SmDtonBuffer,
};
use crate::sd_builder::{key_texts, lenblk, vdata, SIZE_LIMIT};
use vstd::utf8::encode_utf8;
use crate::sd_data::{twos, SmDtonData, ST};
use crate::sd_json::JsonNode;
use crate::su::{getblkz, int_bytes, le_bytes, lemma_le_bytes_len, pick_width};

verus! {

broadcast use lemma_le_bytes_len;

/// Payload length of a value that the flat map takes from JSON: booleans,
/// numbers and strings; `None` for the rest.
pub open spec fn scalar_len(j: JsonNode) -> Option<nat> {
    match j {
        JsonNode::Bool(_) => Some(1),
        JsonNode::Int(_) => Some(8),
        JsonNode::UInt(_) => Some(8),
        JsonNode::Float32(_) => Some(4),
        JsonNode::Float64(_) => Some(8),
        JsonNode::Str(t) => Some(encode_utf8(t@).len() + 1),
        _ => None,
    }
}

/// Whether `d` holds the scalar `j` as the flat map stores it: booleans as a
/// byte, integers as `i64` (or `u64`), floats by their bits, strings as
/// their UTF-8 text.
pub open spec fn map_value_ok(j: JsonNode, d: SmDtonData) -> bool {
    match j {
        JsonNode::Bool(x) => d.is_fixed(ST::SMDT_BOO, seq![if x { 1u8 } else { 0u8 }]),
        JsonNode::Int(x) => d.is_fixed(ST::SMDT_I64, le_bytes(twos(x as int, 8), 8)),
        JsonNode::UInt(x) => d.is_fixed(ST::SMDT_U64, le_bytes(x as nat, 8)),
        JsonNode::Float32(x) => d.is_fixed(ST::SMDT_F32, le_bytes(x as nat, 4)),
        JsonNode::Float64(x) => d.is_fixed(ST::SMDT_F64, le_bytes(x as nat, 8)),
        JsonNode::Str(t) => d.smdt == ST::SMDT_STR && d.has_len && d.v8a@ == encode_utf8(t@).push(0),
        _ => false,
    }
}

/// `m2` is `m1` with field `e` added where its value is a scalar and the
/// buffer stays addressable; `m1` unchanged otherwise.
pub open spec fn field_staged(m1: SmDtonMap, m2: SmDtonMap, e: (String, JsonNode)) -> bool {
    match scalar_len(e.1) {
        Some(d) => if m1.can_add(encode_utf8(e.0@).len(), d) {
            m1.adds(&m2, encode_utf8(e.0@)) && map_value_ok(e.1, m2.last_value())
        } else {
            m2 == m1
        },
        None => m2 == m1,
    }
}

/// Room that field `e` needs at most.
pub open spec fn field_cost(e: (String, JsonNode)) -> nat {
    match scalar_len(e.1) {
        Some(d) => encode_utf8(e.0@).len() + d + 18,
        None => 0,
    }
}

/// Whether a map of weight `w` has room for each of the fields `s`.
pub open spec fn fits(w: nat, s: Seq<(String, JsonNode)>) -> bool {
    forall|j: int| 0 <= j < s.len() ==> w + field_cost(#[trigger] s[j]) <= SIZE_LIMIT
}

/// The key bytes of the first `n` fields that the flat map takes.
pub open spec fn scalar_keys(s: Seq<(String, JsonNode)>, n: int) -> Seq<Seq<u8>>
    decreases n,
{
    if n <= 0 || n > s.len() {
        Seq::empty()
    } else if scalar_len(s[n - 1].1) is Some {
        scalar_keys(s, n - 1).push(encode_utf8(s[n - 1].0@))
    } else {
        scalar_keys(s, n - 1)
    }
}

/// Keys and values of a single map node, in insertion order.
pub struct SmDtonMap {
    /// Key texts, in insertion order, repeats kept.
    pub keys: Vec<Vec<u8>>,
    /// Key text bytes, each key counted with its NUL.
    pub kdata_size: usize,
    /// Values, one per key.
    pub values: Vec<SmDtonData>,
    /// Payload bytes of all values.
    pub vdata_size: usize,
    /// Number of values with a length-or-id field.
    pub len_blk: usize,
}

impl SmDtonMap {
    /// Bytes of the buffer other than offset slots.
    pub open spec fn fixed_total(&self) -> nat {
        7 + key_seg_len(self.keys@, 0, self.keys@.len() as int) + self.values@.len() + vdata(
            self.values@,
            self.values@.len() as int,
        )
    }

    /// Offset slots of the buffer.
    pub open spec fn slot_total(&self) -> nat {
        5 + 2 * self.keys@.len() + self.values@.len() + lenblk(
            self.values@,
            self.values@.len() as int,
        )
    }

    /// Size of the buffer at the widest offset width.
    pub open spec fn weight(&self) -> nat {
        self.fixed_total() + 4 * self.slot_total()
    }

    pub open spec fn wf(&self) -> bool {
        &&& self.keys@.len() == self.values@.len()
        &&& values_wf(self.values@)
        &&& self.kdata_size == key_seg_len(self.keys@, 0, self.keys@.len() as int)
        &&& self.vdata_size == vdata(self.values@, self.values@.len() as int)
        &&& self.len_blk == lenblk(self.values@, self.values@.len() as int)
        &&& self.weight() <= SIZE_LIMIT
    }

    /// Whether a value of `dlen` payload bytes under a key of `klen` bytes
    /// keeps the buffer addressable.
    pub open spec fn can_add(&self, klen: nat, dlen: nat) -> bool {
        self.weight() + klen + dlen + 18 <= SIZE_LIMIT
    }

    /// `new` is `self` with the field `key` appended; its value is the last.
    pub open spec fn adds(&self, new: &Self, key: Seq<u8>) -> bool {
        &&& new.keys@.len() == self.keys@.len() + 1
        &&& new.keys@.take(self.keys@.len() as int) == self.keys@
        &&& new.keys@.last()@ == key
        &&& new.values@.len() == self.values@.len() + 1
        &&& new.values@.take(self.values@.len() as int) == self.values@
    }

    /// The value staged last.
    pub open spec fn last_value(&self) -> SmDtonData {
        self.values@.last()
    }

    /// Offset width the buffer is laid out with.
    pub open spec fn width(&self) -> nat {
        pick_width(self.fixed_total() as int, self.slot_total() as int) as nat
    }

    /// Offset of the key segment at width `w`.
    pub open spec fn kseg_off(&self, w: nat) -> nat {
        5 + (5 + self.keys@.len() + self.values@.len()) * w
    }

    /// Offset of the value segment at width `w`.
    pub open spec fn vseg_off(&self, w: nat) -> nat {
        self.kseg_off(w) + self.keys@.len() * w + key_seg_len(self.keys@, 0, self.keys@.len() as int)
            + 1
    }

    /// The first `k` entries of the property table.
    pub open spec fn entries(&self, w: nat, k: int) -> Seq<u8>
        decreases k,
    {
        if k <= 0 {
            Seq::empty()
        } else {
            self.entries(w, k - 1) + int_bytes(self.kseg_off(w) + key_seg_len(self.keys@, w, k - 1), w)
                + int_bytes(self.vseg_off(w) + val_seg_len(self.values@, w, k - 1), w)
        }
    }

    /// The whole buffer at width `w`.
    pub open spec fn layout(&self, w: nat) -> Seq<u8> {
        let n = self.values@.len();
        seq![ST::SMTY_DTR, w as u8] + int_bytes(1, w) + int_bytes(self.keys@.len(), w) + int_bytes(
            n,
            w,
        ) + seq![0x77u8] + seq![ST::SMDT_MAP] + int_bytes(4 + 4 * w, w) + int_bytes(n, w)
            + self.entries(w, n as int) + seq![0x77u8] + key_seg(
            self.keys@,
            w,
            self.keys@.len() as int,
        ) + seq![0x77u8] + val_seg(self.values@, w, n as int) + seq![0x77u8]
    }

    /// Lays the map out as a buffer with one map node.
    #[verifier::rlimit(80)]
    pub fn build(&self) -> (r: SmDtonBuffer)
        requires
            self.wf(),
        ensures
            r.wf(),
            r.buf@ == self.layout(self.width()),
    {
        let mut smb = SmDtonBuffer::new();
        let knum = self.keys.len();
        let vnum = self.values.len();
        let ghost lb = lenblk(self.values@, vnum as int);

        let total = 7 + self.kdata_size + vnum + self.vdata_size;
        let onum = 4 + knum + self.len_blk;
        let p_onum = 1 + knum + vnum;
        let oz = getblkz(total, onum + p_onum) as usize;
        let ghost w = oz as nat;
        proof {
            lemma_map_arith(w, knum as nat, vnum as nat, lb);
            lemma_key_seg_len_split(self.keys@, w, knum as int);
            lemma_val_seg_len_split(self.values@, w, vnum as int);
        }
        let size = total + oz * (onum + p_onum);

        self.put_head(&mut smb, size, oz);

        let kseg_off = 5 + (4 + p_onum) * oz;
        let vseg_off = kseg_off + knum * oz + self.kdata_size + 1;
        let kseg_offs = smb.calc_key_part(knum, kseg_off, &self.keys);
        assert(vseg_off + val_seg_len(self.values@, w, vnum as int) < size);
        let vseg_offs = smb.calc_value_part(vnum, vseg_off, &self.values);

        smb.build_put_int(vnum);
        self.put_entries(&mut smb, &kseg_offs, &vseg_offs);
        smb.build_put_u8(0x77);
        proof {
            assert forall|i: int| 0 <= i < self.keys@.len() implies #[trigger] self.keys@[i]@.len()
                < usize::MAX by {
                lemma_key_seg_len_mono(self.keys@, 0, i + 1, knum as int);
            }
        }
        smb.build_kvsegs(knum, vnum, &self.keys, &self.values);
        assert(smb.buf@ =~= self.layout(w));
        smb
    }

    /// Starts `smb` at width `oz`, then writes the header and the node table
    /// of the one map node.
    fn put_head(&self, smb: &mut SmDtonBuffer, size: usize, oz: usize)
        requires
            crate::su::valid_width(oz as int),
        ensures
            final(smb).started(),
            final(smb).width() == oz,
            final(smb).buf@ == seq![ST::SMTY_DTR, oz as u8] + int_bytes(1, oz as nat) + int_bytes(
                self.keys@.len(),
                oz as nat,
            ) + int_bytes(self.values@.len(), oz as nat) + seq![0x77u8] + seq![ST::SMDT_MAP]
                + int_bytes(4 + 4 * oz as nat, oz as nat),
    {
        smb.build_start(size, oz);
        smb.build_put_int(1);
        smb.build_put_int(self.keys.len());
        smb.build_put_int(self.values.len());
        smb.build_put_u8(0x77);
        smb.build_put_u8(ST::SMDT_MAP);
        smb.build_put_int(4 + 4 * oz);
        assert(smb.buf@ =~= seq![ST::SMTY_DTR, oz as u8] + int_bytes(1, oz as nat) + int_bytes(
            self.keys@.len(),
            oz as nat,
        ) + int_bytes(self.values@.len(), oz as nat) + seq![0x77u8] + seq![ST::SMDT_MAP]
            + int_bytes(4 + 4 * oz as nat, oz as nat));
    }

    /// Appends the entries of the map's property table.
    fn put_entries(&self, smb: &mut SmDtonBuffer, kseg_offs: &Vec<usize>, vseg_offs: &Vec<usize>)
        requires
            self.wf(),
            old(smb).started(),
            kseg_offs@.len() == self.keys@.len(),
            vseg_offs@.len() == self.values@.len(),
            forall|i: int|
                0 <= i < self.keys@.len() ==> #[trigger] kseg_offs@[i] == self.kseg_off(
                    old(smb).width(),
                ) + key_seg_len(self.keys@, old(smb).width(), i),
            forall|i: int|
                0 <= i < self.values@.len() ==> #[trigger] vseg_offs@[i] == self.vseg_off(
                    old(smb).width(),
                ) + val_seg_len(self.values@, old(smb).width(), i),
        ensures
            final(smb).started(),
            final(smb).width() == old(smb).width(),
            final(smb).buf@ == old(smb).buf@ + self.entries(
                old(smb).width(),
                self.values@.len() as int,
            ),
    {
        let ghost w = smb.width();
        let ghost inner = smb.buf@;
        let vnum = self.values.len();
        let mut k: usize = 0;
        while k < vnum
            invariant
                self.wf(),
                vnum == self.values@.len(),
                smb.started(),
                smb.width() == w,
                k <= vnum,
                kseg_offs@.len() == self.keys@.len(),
                vseg_offs@.len() == vnum,
                forall|i: int|
                    0 <= i < self.keys@.len() ==> #[trigger] kseg_offs@[i] == self.kseg_off(w)
                        + key_seg_len(self.keys@, w, i),
                forall|i: int|
                    0 <= i < vnum ==> #[trigger] vseg_offs@[i] == self.vseg_off(w) + val_seg_len(
                        self.values@,
                        w,
                        i,
                    ),
                smb.buf@ == inner + self.entries(w, k as int),
            decreases vnum - k,
        {
            if self.keys.len() > 0 {
                smb.build_put_int(kseg_offs[k]);
            }
            smb.build_put_int(vseg_offs[k]);
            assert(smb.buf@ =~= inner + self.entries(w, k as int + 1));
            k = k + 1;
        }
    }

    /// Room left before the buffer outgrows four-byte offsets.
    fn room(&self) -> (r: u64)
        requires
            self.wf(),
        ensures
            r == SIZE_LIMIT - self.weight(),
    {
        let fixed: u64 = 7 + self.kdata_size as u64 + self.values.len() as u64
            + self.vdata_size as u64;
        let slots: u64 = 5 + 2 * self.keys.len() as u64 + self.values.len() as u64
            + self.len_blk as u64;
        SIZE_LIMIT - (fixed + 4 * slots)
    }

    /// Exec form of `can_add`.
    fn ready(&self, klen: usize, dlen: usize) -> (r: bool)
        requires
            self.wf(),
        ensures
            r == self.can_add(klen as nat, dlen as nat),
    {
        let room = self.room();
        klen as u64 <= room && dlen as u64 <= room && klen as u64 + dlen as u64 + 18 <= room
    }

    /// Appends field `key` with value `da`.
    fn _do_add(&mut self, key: &[u8], da: SmDtonData)
        requires
            old(self).wf(),
            old(self).can_add(key@.len(), da.len as nat),
            da.wf(),
        ensures
            final(self).wf(),
            old(self).adds(final(self), key@),
            final(self).last_value() == da,
            old(self).weight() <= final(self).weight(),
            key_texts(final(self).keys@) == key_texts(old(self).keys@).push(key@),
    {
        let ghost ok = self.keys@;
        let ghost ov = self.values@;
        let n = self.keys.len();
        self.keys.push(vstd::slice::slice_to_vec(key));
        self.kdata_size = self.kdata_size + key.len() + 1;
        if da.has_len {
            self.len_blk = self.len_blk + 1;
        }
        self.vdata_size = self.vdata_size + da.len;
        self.values.push(da);
        proof {
            assert(self.keys@.take(n as int) =~= ok);
            assert(self.values@.take(n as int) =~= ov);
            lemma_keys_prefix(self.keys@, ok, n as int);
            lemma_vals_prefix(self.values@, ov, n as int);
            assert(key_texts(self.keys@) =~= key_texts(ok).push(key@));
        }
    }

    pub fn new() -> (r: Self)
        ensures
            r.wf(),
            r.keys@.len() == 0,
    {
        SmDtonMap {
            keys: Vec::with_capacity(16),
            kdata_size: 0,
            values: Vec::with_capacity(16),
            vdata_size: 0,
            len_blk: 0,
        }
    }

    /// Adds the fields of the object `jsn` whose values are booleans,
    /// numbers or strings; others, and a `jsn` that is no object, add nothing.
    pub fn add_from_json(&mut self, jsn: &JsonNode)
        requires
            old(self).wf(),
        ensures
            final(self).wf(),
            old(self).weight() <= final(self).weight(),
            !(jsn is Object) ==> *final(self) == *old(self),
            jsn matches JsonNode::Object(v) ==> (fits(final(self).weight(), v@) ==> key_texts(
                final(self).keys@,
            ) == key_texts(old(self).keys@) + scalar_keys(v@, v@.len() as int)),
            jsn matches JsonNode::Object(v) ==> exists|st: Seq<SmDtonMap>|
                #![trigger st.last()]
                {
                    &&& st.len() == v@.len() + 1
                    &&& st[0] == *old(self)
                    &&& forall|i: int|
                        0 <= i < v@.len() ==> field_staged(st[i], st[i + 1], #[trigger] v@[i])
                    &&& st.last() == *final(self)
                },
    {
        match jsn {
            JsonNode::Object(obj) => {
                let ghost k0 = key_texts(self.keys@);
                let ghost mut st: Seq<SmDtonMap> = seq![*self];
                proof {
                    assert(k0 + scalar_keys(obj@, 0) =~= k0);
                }
                let mut i: usize = 0;
                while i < obj.len()
                    invariant
                        self.wf(),
                        i <= obj@.len(),
                        k0 == key_texts(old(self).keys@),
                        old(self).weight() <= self.weight(),
                        fits(self.weight(), obj@) ==> key_texts(self.keys@) == k0 + scalar_keys(
                            obj@,
                            i as int,
                        ),
                        st.len() == i + 1,
                        st[0] == *old(self),
                        forall|j: int| 0 <= j < i ==> field_staged(st[j], st[j + 1], #[trigger] obj@[j]),
                        st.last() == *self,
                    decreases obj@.len() - i,
                {
                    let ghost before = *self;
                    self._explore_node(obj[i].0.as_str(), &obj[i].1);
                    proof {
                        st = st.push(*self);
                        assert(field_staged(st[i as int], st[i as int + 1], obj@[i as int]));
                    }
                    proof {
                        if fits(self.weight(), obj@) {
                            assert(self.weight() + field_cost(obj@[i as int]) <= SIZE_LIMIT);
                            assert(fits(before.weight(), obj@));
                            if scalar_len(obj@[i as int].1) is Some {
                                assert(key_texts(self.keys@) =~= (k0 + scalar_keys(obj@, i as int)).push(
                                    encode_utf8(obj@[i as int].0@),
                                ));
                            }
                            assert(key_texts(self.keys@) =~= k0 + scalar_keys(obj@, i as int + 1));
                        }
                    }
                    i = i + 1;
                }
                proof {
                    assert(st.last() == *self);
                }
            },
            _ => {},
        }
    }

    /// Adds field `key` for a scalar `jsn`; nothing for other values.
    fn _explore_node(&mut self, key: &str, jsn: &JsonNode)
        requires
            old(self).wf(),
        ensures
            final(self).wf(),
            old(self).weight() <= final(self).weight(),
            match scalar_len(*jsn) {
                Some(d) => if old(self).can_add(key.spec_bytes().len(), d) {
                    &&& key_texts(final(self).keys@) == key_texts(old(self).keys@).push(key.spec_bytes())
                    &&& old(self).adds(final(self), key.spec_bytes())
                    &&& map_value_ok(*jsn, final(self).last_value())
                } else {
                    *final(self) == *old(self)
                },
                None => *final(self) == *old(self),
            },
    {
        match jsn {
            JsonNode::Bool(data) => self.add_bool(key, *data),
            JsonNode::Int(data) => self.add_i64(key, *data),
            JsonNode::UInt(data) => self.add_u64(key, *data),
            JsonNode::Float32(data) => self.add_f32_bits(key, *data),
            JsonNode::Float64(data) => self.add_f64_bits(key, *data),
            JsonNode::Str(s) => self.add_string(key, s.as_str()),
            _ => {},
        }
    }

    /// Adds field `key` with a bool value; nothing where the buffer would
    /// outgrow four-byte offsets.
    pub fn add_bool(&mut self, key: &str, value: bool)
        requires
            old(self).wf(),
        ensures
            final(self).wf(),
            old(self).weight() <= final(self).weight(),
            old(self).can_add(key.spec_bytes().len(), 1) ==> key_texts(final(self).keys@) == key_texts(old(self).keys@).push(key.spec_bytes()),
            if old(self).can_add(key.spec_bytes().len(), 1) {
                old(self).adds(final(self), key.spec_bytes()) && final(self).last_value().is_fixed(ST::SMDT_BOO, seq![if value { 1u8 } else { 0u8 }])
            } else {
                *final(self) == *old(self)
            },
    {
        if !self.ready(key.as_bytes().len(), 1) {
            return;
        }
        self._do_add(key.as_bytes(), SmDtonData::new_bool(value));
    }

    /// Adds field `key` with a u8 value; nothing where the buffer would
    /// outgrow four-byte offsets.
    pub fn add_u8(&mut self, key: &str, value: u8)
        requires
            old(self).wf(),
        ensures
            final(self).wf(),
            old(self).weight() <= final(self).weight(),
            old(self).can_add(key.spec_bytes().len(), 1) ==> key_texts(final(self).keys@) == key_texts(old(self).keys@).push(key.spec_bytes()),
            if old(self).can_add(key.spec_bytes().len(), 1) {
                old(self).adds(final(self), key.spec_bytes()) && final(self).last_value().is_fixed(ST::SMDT_UI8, seq![value])
            } else {
                *final(self) == *old(self)
            },
    {
        if !self.ready(key.as_bytes().len(), 1) {
            return;
        }
        self._do_add(key.as_bytes(), SmDtonData::new_u8(value));
    }

    /// Adds field `key` with a i16 value; nothing where the buffer would
    /// outgrow four-byte offsets.
    pub fn add_i16(&mut self, key: &str, value: i16)
        requires
            old(self).wf(),
        ensures
            final(self).wf(),
            old(self).weight() <= final(self).weight(),
            old(self).can_add(key.spec_bytes().len(), 2) ==> key_texts(final(self).keys@) == key_texts(old(self).keys@).push(key.spec_bytes()),
            if old(self).can_add(key.spec_bytes().len(), 2) {
                old(self).adds(final(self), key.spec_bytes()) && final(self).last_value().is_fixed(ST::SMDT_I16, le_bytes(twos(value as int, 2), 2))
            } else {
                *final(self) == *old(self)
            },
    {
        if !self.ready(key.as_bytes().len(), 2) {
            return;
        }
        self._do_add(key.as_bytes(), SmDtonData::new_i16(value));
    }

    /// Adds field `key` with a u16 value; nothing where the buffer would
    /// outgrow four-byte offsets.
    pub fn add_u16(&mut self, key: &str, value: u16)
        requires
            old(self).wf(),
        ensures
            final(self).wf(),
            old(self).weight() <= final(self).weight(),
            old(self).can_add(key.spec_bytes().len(), 2) ==> key_texts(final(self).keys@) == key_texts(old(self).keys@).push(key.spec_bytes()),
            if old(self).can_add(key.spec_bytes().len(), 2) {
                old(self).adds(final(self), key.spec_bytes()) && final(self).last_value().is_fixed(ST::SMDT_U16, le_bytes(value as nat, 2))
            } else {
                *final(self) == *old(self)
            },
    {
        if !self.ready(key.as_bytes().len(), 2) {
            return;
        }
        self._do_add(key.as_bytes(), SmDtonData::new_u16(value));
    }

    /// Adds field `key` with a i32 value; nothing where the buffer would
    /// outgrow four-byte offsets.
    pub fn add_i32(&mut self, key: &str, value: i32)
        requires
            old(self).wf(),
        ensures
            final(self).wf(),
            old(self).weight() <= final(self).weight(),
            old(self).can_add(key.spec_bytes().len(), 4) ==> key_texts(final(self).keys@) == key_texts(old(self).keys@).push(key.spec_bytes()),
            if old(self).can_add(key.spec_bytes().len(), 4) {
                old(self).adds(final(self), key.spec_bytes()) && final(self).last_value().is_fixed(ST::SMDT_I32, le_bytes(twos(value as int, 4), 4))
            } else {
                *final(self) == *old(self)
            },
    {
        if !self.ready(key.as_bytes().len(), 4) {
            return;
        }
        self._do_add(key.as_bytes(), SmDtonData::new_i32(value));
    }

    /// Adds field `key` with a u32 value; nothing where the buffer would
    /// outgrow four-byte offsets.
    pub fn add_u32(&mut self, key: &str, value: u32)
        requires
            old(self).wf(),
        ensures
            final(self).wf(),
            old(self).weight() <= final(self).weight(),
            old(self).can_add(key.spec_bytes().len(), 4) ==> key_texts(final(self).keys@) == key_texts(old(self).keys@).push(key.spec_bytes()),
            if old(self).can_add(key.spec_bytes().len(), 4) {
                old(self).adds(final(self), key.spec_bytes()) && final(self).last_value().is_fixed(ST::SMDT_U32, le_bytes(value as nat, 4))
            } else {
                *final(self) == *old(self)
            },
    {
        if !self.ready(key.as_bytes().len(), 4) {
            return;
        }
        self._do_add(key.as_bytes(), SmDtonData::new_u32(value));
    }

    /// Adds field `key` with the IEEE 754 bits of a float value; nothing where the buffer would
    /// outgrow four-byte offsets.
    pub fn add_f32_bits(&mut self, key: &str, value: u32)
        requires
            old(self).wf(),
        ensures
            final(self).wf(),
            old(self).weight() <= final(self).weight(),
            old(self).can_add(key.spec_bytes().len(), 4) ==> key_texts(final(self).keys@) == key_texts(old(self).keys@).push(key.spec_bytes()),
            if old(self).can_add(key.spec_bytes().len(), 4) {
                old(self).adds(final(self), key.spec_bytes()) && final(self).last_value().is_fixed(ST::SMDT_F32, le_bytes(value as nat, 4))
            } else {
                *final(self) == *old(self)
            },
    {
        if !self.ready(key.as_bytes().len(), 4) {
            return;
        }
        self._do_add(key.as_bytes(), SmDtonData::new_f32_bits(value));
    }

    /// Adds field `key` with a i64 value; nothing where the buffer would
    /// outgrow four-byte offsets.
    pub fn add_i64(&mut self, key: &str, value: i64)
        requires
            old(self).wf(),
        ensures
            final(self).wf(),
            old(self).weight() <= final(self).weight(),
            old(self).can_add(key.spec_bytes().len(), 8) ==> key_texts(final(self).keys@) == key_texts(old(self).keys@).push(key.spec_bytes()),
            if old(self).can_add(key.spec_bytes().len(), 8) {
                old(self).adds(final(self), key.spec_bytes()) && final(self).last_value().is_fixed(ST::SMDT_I64, le_bytes(twos(value as int, 8), 8))
            } else {
                *final(self) == *old(self)
            },
    {
        if !self.ready(key.as_bytes().len(), 8) {
            return;
        }
        self._do_add(key.as_bytes(), SmDtonData::new_i64(value));
    }

    /// Adds field `key` with a u64 value; nothing where the buffer would
    /// outgrow four-byte offsets.
    pub fn add_u64(&mut self, key: &str, value: u64)
        requires
            old(self).wf(),
        ensures
            final(self).wf(),
            old(self).weight() <= final(self).weight(),
            old(self).can_add(key.spec_bytes().len(), 8) ==> key_texts(final(self).keys@) == key_texts(old(self).keys@).push(key.spec_bytes()),
            if old(self).can_add(key.spec_bytes().len(), 8) {
                old(self).adds(final(self), key.spec_bytes()) && final(self).last_value().is_fixed(ST::SMDT_U64, le_bytes(value as nat, 8))
            } else {
                *final(self) == *old(self)
            },
    {
        if !self.ready(key.as_bytes().len(), 8) {
            return;
        }
        self._do_add(key.as_bytes(), SmDtonData::new_u64(value));
    }

    /// Adds field `key` with the IEEE 754 bits of a float value; nothing where the buffer would
    /// outgrow four-byte offsets.
    pub fn add_f64_bits(&mut self, key: &str, value: u64)
        requires
            old(self).wf(),
        ensures
            final(self).wf(),
            old(self).weight() <= final(self).weight(),
            old(self).can_add(key.spec_bytes().len(), 8) ==> key_texts(final(self).keys@) == key_texts(old(self).keys@).push(key.spec_bytes()),
            if old(self).can_add(key.spec_bytes().len(), 8) {
                old(self).adds(final(self), key.spec_bytes()) && final(self).last_value().is_fixed(ST::SMDT_F64, le_bytes(value as nat, 8))
            } else {
                *final(self) == *old(self)
            },
    {
        if !self.ready(key.as_bytes().len(), 8) {
            return;
        }
        self._do_add(key.as_bytes(), SmDtonData::new_f64_bits(value));
    }

    /// Adds field `key` with a string value; nothing where the buffer would
    /// outgrow four-byte offsets.
    pub fn add_string(&mut self, key: &str, value: &str)
        requires
            old(self).wf(),
        ensures
            final(self).wf(),
            old(self).weight() <= final(self).weight(),
            old(self).can_add(key.spec_bytes().len(), value.spec_bytes().len() + 1) ==> key_texts(final(self).keys@) == key_texts(old(self).keys@).push(key.spec_bytes()),
            if old(self).can_add(key.spec_bytes().len(), value.spec_bytes().len() + 1) {
                &&& old(self).adds(final(self), key.spec_bytes())
                &&& final(self).last_value().smdt == ST::SMDT_STR
                &&& final(self).last_value().has_len
                &&& final(self).last_value().v8a@ == value.spec_bytes().push(0)
            } else {
                *final(self) == *old(self)
            },
    {
        let vlen = value.as_bytes().len();
        if vlen >= self.room() as usize || !self.ready(key.as_bytes().len(), vlen + 1) {
            return;
        }
        self._do_add(key.as_bytes(), SmDtonData::new_string(value));
    }

    /// Adds field `key` with a blob value; nothing where the buffer would
    /// outgrow four-byte offsets.
    pub fn add_bin(&mut self, key: &str, value: &[u8])
        requires
            old(self).wf(),
        ensures
            final(self).wf(),
            old(self).weight() <= final(self).weight(),
            old(self).can_add(key.spec_bytes().len(), value@.len()) ==> key_texts(final(self).keys@) == key_texts(old(self).keys@).push(key.spec_bytes()),
            if old(self).can_add(key.spec_bytes().len(), value@.len()) {
                &&& old(self).adds(final(self), key.spec_bytes())
                &&& final(self).last_value().smdt == ST::SMDT_BIN
                &&& final(self).last_value().has_len
                &&& final(self).last_value().v8a@ == value@
            } else {
                *final(self) == *old(self)
            },
    {
        if !self.ready(key.as_bytes().len(), value.len()) {
            return;
        }
        self._do_add(key.as_bytes(), SmDtonData::new_bin(value));
    }
}

proof fn lemma_map_arith(w: nat, knum: nat, vnum: nat, lb: nat)
    requires
        w <= 4,
    ensures
        w * (4 + knum + lb + 1 + knum + vnum) <= 4 * (4 + knum + lb + 1 + knum + vnum),
        (4 + 1 + knum + vnum) * w + knum * w + lb * w == w * (4 + knum + lb + 1 + knum + vnum),
        4 * w <= w * (4 + knum + lb + 1 + knum + vnum),
        w * lb == lb * w,
{
    assert(w * lb == lb * w) by (nonlinear_arith);
    assert(w * (4 + knum + lb + 1 + knum + vnum) <= 4 * (4 + knum + lb + 1 + knum + vnum))
        by (nonlinear_arith)
        requires
            w <= 4,
    ;
    assert((4 + 1 + knum + vnum) * w + knum * w + lb * w == w * (4 + knum + lb + 1 + knum + vnum))
        by (nonlinear_arith);
    assert(4 * w <= w * (4 + knum + lb + 1 + knum + vnum)) by (nonlinear_arith);
}

proof fn lemma_key_seg_len_split(keys: Seq<Vec<u8>>, w: nat, n: int)
    requires
        0 <= n,
    ensures
        key_seg_len(keys, w, n) == n * w + key_seg_len(keys, 0, n),
    decreases n,
{
    if n > 0 {
        lemma_key_seg_len_split(keys, w, n - 1);
        assert(n * w == (n - 1) * w + w) by (nonlinear_arith);
        assert(key_seg_len(keys, w, n) == key_seg_len(keys, w, n - 1) + w + keys[n - 1]@.len() + 1);
        assert(key_seg_len(keys, 0, n) == key_seg_len(keys, 0, n - 1) + 0 + keys[n - 1]@.len() + 1);
        assert(key_seg_len(keys, w, n - 1) == (n - 1) * w + key_seg_len(keys, 0, n - 1));
    } else {
        assert(n * w == 0) by (nonlinear_arith)
            requires
                n == 0,
        ;
    }
}

proof fn lemma_val_seg_len_split(values: Seq<SmDtonData>, w: nat, n: int)
    requires
        0 <= n,
    ensures
        val_seg_len(values, w, n) == n + vdata(values, n) + w * lenblk(values, n),
    decreases n,
{
    if n > 0 {
        lemma_val_seg_len_split(values, w, n - 1);
        let l = lenblk(values, n - 1);
        assert(w * (l + 1) == w * l + w) by (nonlinear_arith);
        assert(val_seg_len(values, w, n - 1) == (n - 1) + vdata(values, n - 1) + w * l);
        if values[n - 1].has_len {
            assert(lenblk(values, n) == l + 1);
            assert(val_seg_len(values, w, n) == val_seg_len(values, w, n - 1) + 1 + values[n - 1].len + w);
        } else {
            assert(lenblk(values, n) == l);
            assert(val_seg_len(values, w, n) == val_seg_len(values, w, n - 1) + 1 + values[n - 1].len);
        }
    } else {
        assert(w * 0 == 0) by (nonlinear_arith);
    }
}

proof fn lemma_keys_prefix(a: Seq<Vec<u8>>, b: Seq<Vec<u8>>, n: int)
    requires
        0 <= n <= a.len(),
        n <= b.len(),
        forall|i: int| 0 <= i < n ==> a[i] == b[i],
    ensures
        key_seg_len(a, 0, n) == key_seg_len(b, 0, n),
    decreases n,
{
    if n > 0 {
        lemma_keys_prefix(a, b, n - 1);
    }
}

proof fn lemma_vals_prefix(a: Seq<SmDtonData>, b: Seq<SmDtonData>, n: int)
    requires
        0 <= n <= a.len(),
        n <= b.len(),
        forall|i: int| 0 <= i < n ==> a[i] == b[i],
    ensures
        vdata(a, n) == vdata(b, n),
        lenblk(a, n) == lenblk(b, n),
    decreases n,
{
    if n > 0 {
        lemma_vals_prefix(a, b, n - 1);
    }
}

} // verus!

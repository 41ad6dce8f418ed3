//! The tree builder: stages nodes, keys and values, then lays them out.
use vstd::prelude::*;
use vstd::string::StringSliceAdditionalSpecFns;

use crate::sd_buffer::{
    key_seg, key_seg_len, lemma_key_seg_len_mono, val_seg, val_seg_len, values_wf, SmDtonBuffer,
};
use crate::sd_data::{twos, SmDtonData, ST};
use crate::sd_json::JsonNode;
use crate::sd_node::SmDtonNode;
use crate::su::{getblkz, int_bytes, le_bytes, lemma_le_bytes_len, pick_width, valid_width};
use vstd::utf8::{encode_utf8, encode_utf8_valid_utf8, valid_utf8};

verus! {

broadcast use {lemma_le_bytes_len, encode_utf8_valid_utf8};

/// Largest buffer the format can address: offsets are at most four bytes.
pub const SIZE_LIMIT: u64 = 0xFFFF_FFFF;

/// Whether the bytes start with the `$B64$` marker.
pub open spec fn marked(b: Seq<u8>) -> bool {
    b.len() >= 5 && b.take(5) == crate::sd_data::b64_mark()
}

/// Every `$B64$`-marked string in `j` carries valid base64.
pub open spec fn b64_valid(j: JsonNode) -> bool
    decreases j,
{
    match j {
        JsonNode::Str(s) => marked(encode_utf8(s@)) ==> SmDtonData::b64_of(encode_utf8(s@)) is Some,
        JsonNode::Object(v) => forall|i: int| 0 <= i < v@.len() ==> b64_valid(#[trigger] v@[i].1),
        JsonNode::Array(v) => forall|i: int| 0 <= i < v@.len() ==> b64_valid(#[trigger] v@[i]),
        _ => true,
    }
}

/// Whether `d` holds the scalar `j` as staging stores it: booleans as a
/// byte, integers as `i64` (or `u64`), floats by their bits, a marked string
/// as the blob it carries (tag 0xB2), any other string as its UTF-8 text.
pub open spec fn scalar_ok(j: JsonNode, d: SmDtonData) -> bool {
    match j {
        JsonNode::Bool(x) => d.is_fixed(ST::SMDT_BOO, seq![if x { 1u8 } else { 0u8 }]),
        JsonNode::Int(x) => d.is_fixed(ST::SMDT_I64, le_bytes(twos(x as int, 8), 8)),
        JsonNode::UInt(x) => d.is_fixed(ST::SMDT_U64, le_bytes(x as nat, 8)),
        JsonNode::Float32(x) => d.is_fixed(ST::SMDT_F32, le_bytes(x as nat, 4)),
        JsonNode::Float64(x) => d.is_fixed(ST::SMDT_F64, le_bytes(x as nat, 8)),
        JsonNode::Str(s) => {
            let t = encode_utf8(s@);
            if marked(t) {
                match SmDtonData::b64_of(t) {
                    Some(b) => d.smdt == ST::SMDT_B64 && d.has_len && d.v8a@ == b,
                    None => false,
                }
            } else {
                d.smdt == ST::SMDT_STR && d.has_len && d.v8a@ == t.push(0)
            }
        },
        _ => false,
    }
}

/// Payload bytes that staging the scalar `j` takes.
pub open spec fn stage_len(j: JsonNode) -> nat {
    match j {
        JsonNode::Bool(_) => 1,
        JsonNode::Int(_) => 8,
        JsonNode::UInt(_) => 8,
        JsonNode::Float32(_) => 4,
        JsonNode::Float64(_) => 8,
        JsonNode::Str(s) => {
            let t = encode_utf8(s@);
            if marked(t) {
                match SmDtonData::b64_of(t) {
                    Some(b) => b.len(),
                    None => 0,
                }
            } else {
                t.len() + 1
            }
        },
        _ => 0,
    }
}

/// `b2` is `b1` with the scalar `j` staged into node `up`: under `key` where
/// `keyed`, else as the next entry; `b1` unchanged where the node does not
/// fit or the buffer would outgrow four-byte offsets.
pub open spec fn stages_scalar(
    b1: SmDtonBuilder,
    b2: SmDtonBuilder,
    up: usize,
    keyed: bool,
    key: Seq<u8>,
    j: JsonNode,
) -> bool {
    if keyed {
        if b1.can_add(up, key.len(), stage_len(j)) {
            b1.adds(&b2, up, key) && scalar_ok(j, b2.last_value())
        } else {
            b2 == b1
        }
    } else {
        if b1.can_push(up, stage_len(j)) {
            b1.pushes(&b2, up) && scalar_ok(j, b2.last_value())
        } else {
            b2 == b1
        }
    }
}

/// The id that creating a node in `b` gives: the next one, or 0 where the
/// buffer would outgrow four-byte offsets.
pub open spec fn next_id(b: SmDtonBuilder) -> usize {
    if b.weight() + 9 <= SIZE_LIMIT {
        (b.nodes@.len() + 1) as usize
    } else {
        0
    }
}

/// `c` is `b` after creating a node with tag `tag`.
pub open spec fn creates(b: SmDtonBuilder, c: SmDtonBuilder, tag: u8) -> bool {
    if b.weight() + 9 <= SIZE_LIMIT {
        &&& c.nodes@.len() == b.nodes@.len() + 1
        &&& c.nodes@.take(b.nodes@.len() as int) == b.nodes@
        &&& c.nodes@.last().smdt == tag
        &&& c.nodes@.last().oid == b.nodes@.len() + 1
        &&& c.nodes@.last().keys@.len() == 0
        &&& c.nodes@.last().values@.len() == 0
        &&& c.keys@ == b.keys@
        &&& c.values@ == b.values@
    } else {
        c == b
    }
}

/// `d` is `c` with node `id` referenced from node `up`: under `key` where
/// `keyed`, else as the next entry; `c` unchanged for a root (`up` 0) or
/// where the reference does not fit.
pub open spec fn links(
    c: SmDtonBuilder,
    d: SmDtonBuilder,
    up: usize,
    keyed: bool,
    key: Seq<u8>,
    id: usize,
) -> bool {
    if up > 0 {
        if keyed {
            if c.has_node(id) && c.can_add(up, key.len(), 0) {
                &&& c.adds(&d, up, key)
                &&& d.last_value().smdt == c.nodes@[id - 1].smdt
                &&& d.last_value().has_len
                &&& d.last_value().oid == id
                &&& d.last_value().v8a@.len() == 0
            } else {
                d == c
            }
        } else {
            if c.has_node(id) && c.can_push(up, 0) {
                &&& c.pushes(&d, up)
                &&& d.last_value().smdt == c.nodes@[id - 1].smdt
                &&& d.last_value().has_len
                &&& d.last_value().oid == id
                &&& d.last_value().v8a@.len() == 0
            } else {
                d == c
            }
        }
    } else {
        d == c
    }
}

/// `b2` is `b1` with the tree `j` staged under node `up` (under `key` where
/// `keyed`): a null changes nothing; a scalar is one entry; an object or
/// array is a new node, referenced from `up`, into which its fields (keyed)
/// or items (unkeyed) are staged in order, through well-formed states.
pub open spec fn staged(
    b1: SmDtonBuilder,
    b2: SmDtonBuilder,
    up: usize,
    keyed: bool,
    key: Seq<u8>,
    j: JsonNode,
) -> bool
    decreases j,
{
    match j {
        JsonNode::Null => b2 == b1,
        JsonNode::Object(v) => exists|s: Seq<SmDtonBuilder>|
            #![trigger s.last()]
            {
                &&& s.len() == v@.len() + 2
                &&& forall|i: int| 0 <= i < s.len() ==> (#[trigger] s[i]).wf()
                &&& creates(b1, s[0], ST::SMDT_MAP)
                &&& links(s[0], s[1], up, keyed, key, next_id(b1))
                &&& forall|i: int|
                    0 <= i < v@.len() ==> staged(
                        s[i + 1],
                        s[i + 2],
                        next_id(b1),
                        true,
                        encode_utf8((#[trigger] v@[i]).0@),
                        v@[i].1,
                    )
                &&& s.last() == b2
            },
        JsonNode::Array(v) => exists|s: Seq<SmDtonBuilder>|
            #![trigger s.last()]
            {
                &&& s.len() == v@.len() + 2
                &&& forall|i: int| 0 <= i < s.len() ==> (#[trigger] s[i]).wf()
                &&& creates(b1, s[0], ST::SMDT_ARR)
                &&& links(s[0], s[1], up, keyed, key, next_id(b1))
                &&& forall|i: int|
                    0 <= i < v@.len() ==> staged(
                        s[i + 1],
                        s[i + 2],
                        next_id(b1),
                        false,
                        Seq::empty(),
                        #[trigger] v@[i],
                    )
                &&& s.last() == b2
            },
        _ => stages_scalar(b1, b2, up, keyed, key, j),
    }
}

/// `b` is the empty builder `b0` with the tree `j` staged as a root.
pub open spec fn built_from(b0: SmDtonBuilder, b: SmDtonBuilder, j: JsonNode) -> bool {
    &&& b0.nodes@.len() == 0
    &&& b0.keys@.len() == 0
    &&& b0.values@.len() == 0
    &&& b0.wf()
    &&& staged(b0, b, 0, false, Seq::empty(), j)
}

/// Exec form of `marked`.
fn is_marked(b: &[u8]) -> (r: bool)
    ensures
        r == marked(b@),
{
    if b.len() < 5 {
        return false;
    }
    let r = b[0] == 0x24 && b[1] == 0x42 && b[2] == 0x36 && b[3] == 0x34 && b[4] == 0x24;
    assert(r == (b@.take(5) =~= crate::sd_data::b64_mark()));
    r
}

/// The type tags of the staged nodes, in id order.
pub open spec fn node_types(nodes: Seq<SmDtonNode>) -> Seq<u8> {
    nodes.map_values(|n: SmDtonNode| n.smdt)
}

/// Type tags of the nodes that staging `j` creates, in creation order: one
/// per object or array, parents before their children.
pub open spec fn tree_types(j: JsonNode) -> Seq<u8>
    decreases j, 0int,
{
    match j {
        JsonNode::Object(v) => seq![ST::SMDT_MAP] + fields_types(v@, v@.len() as int),
        JsonNode::Array(v) => seq![ST::SMDT_ARR] + items_types(v@, v@.len() as int),
        _ => Seq::empty(),
    }
}

/// `tree_types` of the values of the first `n` fields, in order.
pub open spec fn fields_types(s: Seq<(String, JsonNode)>, n: int) -> Seq<u8>
    decreases s, n,
{
    if n <= 0 || n > s.len() {
        Seq::empty()
    } else {
        fields_types(s, n - 1) + tree_types(s[n - 1].1)
    }
}

/// `tree_types` of the first `n` items, in order.
pub open spec fn items_types(s: Seq<JsonNode>, n: int) -> Seq<u8>
    decreases s, n,
{
    if n <= 0 || n > s.len() {
        Seq::empty()
    } else {
        items_types(s, n - 1) + tree_types(s[n - 1])
    }
}

/// No key text is staged twice.
pub open spec fn keys_unique(keys: Seq<Vec<u8>>) -> bool {
    forall|i: int, j: int|
        0 <= i < keys.len() && 0 <= j < keys.len() && i != j ==> (#[trigger] keys[i])@
            != (#[trigger] keys[j])@
}

/// The key texts.
pub open spec fn key_texts(keys: Seq<Vec<u8>>) -> Seq<Seq<u8>> {
    keys.map_values(|k: Vec<u8>| k@)
}

/// Total payload bytes of the first `n` values.
pub open spec fn vdata(values: Seq<SmDtonData>, n: int) -> nat
    decreases n,
{
    if n <= 0 {
        0
    } else {
        vdata(values, n - 1) + values[n - 1].len as nat
    }
}

/// How many of the first `n` values carry a length-or-id field.
pub open spec fn lenblk(values: Seq<SmDtonData>, n: int) -> nat
    decreases n,
{
    if n <= 0 {
        0
    } else {
        lenblk(values, n - 1) + values[n - 1].slots()
    }
}

/// Offset slots of one node's property table: its count and its entries.
pub open spec fn node_slot(n: SmDtonNode) -> nat {
    1 + n.keys@.len() + n.values@.len()
}

/// Offset slots of the property tables of the first `n` nodes.
pub open spec fn node_slots(nodes: Seq<SmDtonNode>, n: int) -> nat
    decreases n,
{
    if n <= 0 {
        0
    } else {
        node_slots(nodes, n - 1) + node_slot(nodes[n - 1])
    }
}

/// Staged nodes, deduplicated keys and values, with running size totals.
pub struct SmDtonBuilder {
    /// Nodes in id order: node `i + 1` at index `i`.
    pub nodes: Vec<SmDtonNode>,
    /// Number of nodes.
    pub nnum: usize,
    /// Key texts, each once.
    pub keys: Vec<Vec<u8>>,
    /// Key text bytes, each key counted with its NUL.
    pub kdata_size: usize,
    /// Values in staging order.
    pub values: Vec<SmDtonData>,
    /// Payload bytes of all values.
    pub vdata_size: usize,
    /// Number of values with a length-or-id field.
    pub len_blk: usize,
    /// Offset slots of all property tables.
    pub node_onum: usize,
}

impl SmDtonBuilder {
    /// Node `i` is well formed: its id, its entry shape and its indices.
    pub open spec fn node_ok(&self, i: int) -> bool {
        let n = self.nodes@[i];
        &&& n.oid == i + 1
        &&& (n.smdt == ST::SMDT_MAP ==> n.keys@.len() == n.values@.len())
        &&& (n.smdt != ST::SMDT_MAP ==> n.keys@.len() == 0)
        &&& forall|k: int| 0 <= k < n.keys@.len() ==> #[trigger] n.keys@[k] < self.keys@.len()
        &&& forall|k: int| 0 <= k < n.values@.len() ==> #[trigger] n.values@[k] < self.values@.len()
    }

    /// Bytes of the buffer other than offset slots.
    pub open spec fn fixed_total(&self) -> nat {
        6 + self.nodes@.len() + key_seg_len(self.keys@, 0, self.keys@.len() as int)
            + self.values@.len() + vdata(self.values@, self.values@.len() as int)
    }

    /// Offset slots of the buffer.
    pub open spec fn slot_total(&self) -> nat {
        3 + self.nodes@.len() + self.keys@.len() + lenblk(self.values@, self.values@.len() as int)
            + node_slots(self.nodes@, self.nodes@.len() as int)
    }

    /// Size of the buffer at the widest offset width.
    pub open spec fn weight(&self) -> nat {
        self.fixed_total() + 4 * self.slot_total()
    }

    pub open spec fn wf(&self) -> bool {
        &&& self.nnum == self.nodes@.len()
        &&& forall|i: int| 0 <= i < self.nodes@.len() ==> #[trigger] self.node_ok(i)
        &&& keys_unique(self.keys@)
        &&& forall|i: int| 0 <= i < self.keys@.len() ==> valid_utf8(#[trigger] self.keys@[i]@)
        &&& values_wf(self.values@)
        &&& self.kdata_size == key_seg_len(self.keys@, 0, self.keys@.len() as int)
        &&& self.vdata_size == vdata(self.values@, self.values@.len() as int)
        &&& self.len_blk == lenblk(self.values@, self.values@.len() as int)
        &&& self.node_onum == node_slots(self.nodes@, self.nodes@.len() as int)
        &&& self.weight() <= SIZE_LIMIT
    }

    /// Whether `oid` names a staged node.
    pub open spec fn has_node(&self, oid: usize) -> bool {
        1 <= oid <= self.nodes@.len()
    }

    /// Whether a value of `dlen` payload bytes under a key of `klen` bytes can
    /// go into node `oid`: it is a map node and the buffer stays addressable.
    pub open spec fn can_add(&self, oid: usize, klen: nat, dlen: nat) -> bool {
        &&& self.has_node(oid)
        &&& self.nodes@[oid - 1].smdt == ST::SMDT_MAP
        &&& self.weight() + klen + dlen + 18 <= SIZE_LIMIT
    }

    /// Whether a value of `dlen` payload bytes can be appended to node `oid`:
    /// it is not a map node and the buffer stays addressable.
    pub open spec fn can_push(&self, oid: usize, dlen: nat) -> bool {
        &&& self.has_node(oid)
        &&& self.nodes@[oid - 1].smdt != ST::SMDT_MAP
        &&& self.weight() + dlen + 9 <= SIZE_LIMIT
    }

    /// `new` is `self` with one more value, appended as the last entry of node
    /// `oid`; nodes other than `oid` and earlier values are untouched.
    pub open spec fn appends(&self, new: &Self, oid: usize) -> bool {
        let i = oid - 1;
        &&& new.nodes@.len() == self.nodes@.len()
        &&& forall|j: int| 0 <= j < self.nodes@.len() && j != i ==> new.nodes@[j] == self.nodes@[j]
        &&& new.nodes@[i].smdt == self.nodes@[i].smdt
        &&& new.nodes@[i].oid == self.nodes@[i].oid
        &&& new.nodes@[i].values@ == self.nodes@[i].values@.push(self.values@.len() as usize)
        &&& new.values@.len() == self.values@.len() + 1
        &&& new.values@.take(self.values@.len() as int) == self.values@
    }

    /// `new` is `self` with one more value appended to map node `oid` under
    /// `key`; the key text is staged only where it was not already.
    pub open spec fn adds(&self, new: &Self, oid: usize, key: Seq<u8>) -> bool {
        let i = oid - 1;
        let kid = new.nodes@[i].keys@.last();
        &&& self.appends(new, oid)
        &&& new.nodes@[i].keys@ == self.nodes@[i].keys@.push(kid)
        &&& kid < new.keys@.len()
        &&& new.keys@[kid as int]@ == key
        &&& (if key_texts(self.keys@).contains(key) {
            new.keys@ == self.keys@
        } else {
            new.keys@.len() == self.keys@.len() + 1 && new.keys@.take(self.keys@.len() as int)
                == self.keys@
        })
    }

    /// `new` is `self` with one more value appended to node `oid`.
    pub open spec fn pushes(&self, new: &Self, oid: usize) -> bool {
        let i = oid - 1;
        &&& self.appends(new, oid)
        &&& new.nodes@[i].keys@ == self.nodes@[i].keys@
        &&& new.keys@ == self.keys@
    }

    /// The value staged last.
    pub open spec fn last_value(&self) -> SmDtonData {
        self.values@.last()
    }

    /// Offset width the buffer is laid out with.
    pub open spec fn width(&self) -> nat {
        pick_width(self.fixed_total() as int, self.slot_total() as int) as nat
    }

    /// Offset of the property table of node `i` at width `w`.
    pub open spec fn ptab_off(&self, w: nat, i: int) -> nat {
        let n = self.nodes@.len();
        3 + n + (n + 3) * w + w * node_slots(self.nodes@, i)
    }

    /// Offset of the key segment at width `w`.
    pub open spec fn kseg_off(&self, w: nat) -> nat {
        let n = self.nodes@.len();
        4 + n + (3 + n + node_slots(self.nodes@, n as int)) * w
    }

    /// Offset of the value segment at width `w`.
    pub open spec fn vseg_off(&self, w: nat) -> nat {
        self.kseg_off(w) + self.keys@.len() * w + key_seg_len(self.keys@, 0, self.keys@.len() as int)
            + 1
    }

    /// Offset of key `k` at width `w`.
    pub open spec fn key_off(&self, w: nat, k: int) -> nat {
        self.kseg_off(w) + key_seg_len(self.keys@, w, k)
    }

    /// Offset of value `v` at width `w`.
    pub open spec fn val_off(&self, w: nat, v: int) -> nat {
        self.vseg_off(w) + val_seg_len(self.values@, w, v)
    }

    /// Header: format tag, width, node, key and value counts, sentinel.
    pub open spec fn header(&self, w: nat) -> Seq<u8> {
        seq![ST::SMTY_DTR, w as u8] + int_bytes(self.nodes@.len(), w) + int_bytes(
            self.keys@.len(),
            w,
        ) + int_bytes(self.values@.len(), w) + seq![0x77u8]
    }

    /// Node table of the first `i` nodes: type tag and property-table offset.
    pub open spec fn node_table(&self, w: nat, i: int) -> Seq<u8>
        decreases i,
    {
        if i <= 0 {
            Seq::empty()
        } else {
            self.node_table(w, i - 1) + seq![self.nodes@[i - 1].smdt] + int_bytes(
                self.ptab_off(w, i - 1),
                w,
            )
        }
    }

    /// The first `k` entries of node `nd`'s property table: key offset (map
    /// nodes) and value offset.
    pub open spec fn entries(&self, nd: SmDtonNode, w: nat, k: int) -> Seq<u8>
        decreases k,
    {
        if k <= 0 {
            Seq::empty()
        } else {
            self.entries(nd, w, k - 1) + (if nd.keys@.len() > 0 {
                int_bytes(self.key_off(w, nd.keys@[k - 1] as int), w)
            } else {
                Seq::empty()
            }) + int_bytes(self.val_off(w, nd.values@[k - 1] as int), w)
        }
    }

    /// Property tables of the first `i` nodes: entry count, then entries.
    pub open spec fn prop_tables(&self, w: nat, i: int) -> Seq<u8>
        decreases i,
    {
        if i <= 0 {
            Seq::empty()
        } else {
            let nd = self.nodes@[i - 1];
            self.prop_tables(w, i - 1) + int_bytes(nd.values@.len(), w) + self.entries(
                nd,
                w,
                nd.values@.len() as int,
            )
        }
    }

    /// The whole buffer at width `w`.
    pub open spec fn layout(&self, w: nat) -> Seq<u8> {
        self.header(w) + self.node_table(w, self.nodes@.len() as int) + self.prop_tables(
            w,
            self.nodes@.len() as int,
        ) + seq![0x77u8] + key_seg(self.keys@, w, self.keys@.len() as int) + seq![0x77u8]
            + val_seg(self.values@, w, self.values@.len() as int) + seq![0x77u8]
    }

    /// Lays the staged tree out as a buffer, at the narrowest width that
    /// the size estimate allows.
    #[verifier::rlimit(80)]
    pub fn build(&self) -> (r: SmDtonBuffer)
        requires
            self.wf(),
        ensures
            r.wf(),
            r.buf@ == self.layout(self.width()),
            r.buf@.len() == self.fixed_total() + self.width() * self.slot_total(),
    {
        let mut smb = SmDtonBuffer::new();
        let nnum = self.nodes.len();
        let knum = self.keys.len();
        let vnum = self.values.len();
        let ghost lb = lenblk(self.values@, vnum as int);

        let total = 6 + nnum + self.kdata_size + vnum + self.vdata_size;
        let onum = 3 + nnum + knum + self.len_blk;
        let node_onum = self.node_onum;
        let oz = getblkz(total, onum + node_onum) as usize;
        let ghost w = oz as nat;
        proof {
            lemma_layout_arith(w, nnum as nat, knum as nat, lb, node_onum as nat);
        }
        let size = total + oz * (onum + node_onum);

        self.put_header(&mut smb, size, oz);

        self.put_node_table(&mut smb, size);

        proof {
            lemma_key_seg_len_split(self.keys@, w, knum as int);
            lemma_val_seg_len_split(self.values@, w, vnum as int);
        }
        let kseg_off = 3 + nnum + (3 + nnum + node_onum) * oz + 1;
        let vseg_off = kseg_off + knum * oz + self.kdata_size + 1;
        let kseg_offs = smb.calc_key_part(knum, kseg_off, &self.keys);
        assert(vseg_off + val_seg_len(self.values@, w, vnum as int) < size);
        let vseg_offs = smb.calc_value_part(vnum, vseg_off, &self.values);

        self.put_prop_tables(&mut smb, &kseg_offs, &vseg_offs);
        smb.build_put_u8(0x77);
        proof {
            assert forall|i: int| 0 <= i < self.keys@.len() implies #[trigger] self.keys@[i]@.len()
                < usize::MAX by {
                lemma_key_seg_len_mono(self.keys@, 0, i + 1, knum as int);
            }
        }
        smb.build_kvsegs(knum, vnum, &self.keys, &self.values);
        assert(smb.buf@ =~= self.layout(w));
        proof {
            lemma_layout_len(*self, w);
        }
        smb
    }

    /// Starts `smb` at width `oz` and writes the header.
    fn put_header(&self, smb: &mut SmDtonBuffer, size: usize, oz: usize)
        requires
            valid_width(oz as int),
        ensures
            final(smb).started(),
            final(smb).width() == oz,
            final(smb).buf@ == self.header(oz as nat),
    {
        smb.build_start(size, oz);
        smb.build_put_int(self.nodes.len());
        smb.build_put_int(self.keys.len());
        smb.build_put_int(self.values.len());
        smb.build_put_u8(0x77);
        assert(smb.buf@ =~= self.header(oz as nat));
    }

    /// Appends the node table.
    fn put_node_table(&self, smb: &mut SmDtonBuffer, size: usize)
        requires
            self.wf(),
            old(smb).started(),
            valid_width(old(smb).width() as int),
            self.ptab_off(old(smb).width(), self.nodes@.len() as int) <= size,
        ensures
            final(smb).started(),
            final(smb).width() == old(smb).width(),
            final(smb).buf@ == old(smb).buf@ + self.node_table(
                old(smb).width(),
                self.nodes@.len() as int,
            ),
    {
        let ghost w = smb.width();
        let ghost start = smb.buf@;
        let oz = smb.buf[1] as usize;
        let nnum = self.nodes.len();
        proof {
            assert(w * node_slots(self.nodes@, 0) == 0) by (nonlinear_arith)
                requires
                    node_slots(self.nodes@, 0) == 0,
            ;
            lemma_node_slots_mono(self.nodes@, 0, nnum as int);
            assert((nnum + 3) * w <= size) by (nonlinear_arith)
                requires
                    3 + nnum + (nnum + 3) * w + w * node_slots(self.nodes@, nnum as int) <= size,
            ;
        }
        let mut p_off = 3 + nnum + (nnum + 3) * oz;
        let mut i: usize = 0;
        while i < nnum
            invariant
                self.wf(),
                nnum == self.nodes@.len(),
                oz == w,
                smb.started(),
                smb.width() == w,
                i <= nnum,
                p_off == self.ptab_off(w, i as int),
                self.ptab_off(w, nnum as int) <= size,
                smb.buf@ == start + self.node_table(w, i as int),
            decreases nnum - i,
        {
            let node = &self.nodes[i];
            smb.build_put_u8(node.smdt);
            smb.build_put_int(p_off);
            assert(smb.buf@ =~= start + self.node_table(w, i as int + 1));
            proof {
                lemma_node_slots_mono(self.nodes@, i as int + 1, nnum as int);
                let a = node_slots(self.nodes@, i as int);
                let b = node_slot(self.nodes@[i as int]);
                assert(w * (a + b) == w * a + b * w) by (nonlinear_arith);
                assert(w * node_slots(self.nodes@, i as int + 1) <= w * node_slots(
                    self.nodes@,
                    nnum as int,
                )) by (nonlinear_arith)
                    requires
                        node_slots(self.nodes@, i as int + 1) <= node_slots(self.nodes@, nnum as int),
                ;
            }
            p_off = p_off + (1 + node.keys.len() + node.values.len()) * oz;
            i = i + 1;
        }
    }

    /// Appends the property tables of all nodes.
    fn put_prop_tables(&self, smb: &mut SmDtonBuffer, kseg_offs: &Vec<usize>, vseg_offs: &Vec<usize>)
        requires
            self.wf(),
            old(smb).started(),
            kseg_offs@.len() == self.keys@.len(),
            vseg_offs@.len() == self.values@.len(),
            forall|k: int|
                0 <= k < self.keys@.len() ==> #[trigger] kseg_offs@[k] == self.key_off(
                    old(smb).width(),
                    k,
                ),
            forall|v: int|
                0 <= v < self.values@.len() ==> #[trigger] vseg_offs@[v] == self.val_off(
                    old(smb).width(),
                    v,
                ),
        ensures
            final(smb).started(),
            final(smb).width() == old(smb).width(),
            final(smb).buf@ == old(smb).buf@ + self.prop_tables(
                old(smb).width(),
                self.nodes@.len() as int,
            ),
    {
        let ghost w = smb.width();
        let ghost base = smb.buf@;
        let nnum = self.nodes.len();
        let mut i: usize = 0;
        while i < nnum
            invariant
                self.wf(),
                nnum == self.nodes@.len(),
                smb.started(),
                smb.width() == w,
                i <= nnum,
                kseg_offs@.len() == self.keys@.len(),
                vseg_offs@.len() == self.values@.len(),
                forall|k: int|
                    0 <= k < self.keys@.len() ==> #[trigger] kseg_offs@[k] == self.key_off(w, k),
                forall|v: int|
                    0 <= v < self.values@.len() ==> #[trigger] vseg_offs@[v] == self.val_off(w, v),
                smb.buf@ == base + self.prop_tables(w, i as int),
            decreases nnum - i,
        {
            assert(self.node_ok(i as int));
            smb.build_put_int(self.nodes[i].values.len());
            self.put_entries(smb, i, kseg_offs, vseg_offs);
            assert(smb.buf@ =~= base + self.prop_tables(w, i as int + 1));
            i = i + 1;
        }
    }

    /// Appends the entries of node `i`'s property table.
    fn put_entries(
        &self,
        smb: &mut SmDtonBuffer,
        i: usize,
        kseg_offs: &Vec<usize>,
        vseg_offs: &Vec<usize>,
    )
        requires
            self.wf(),
            i < self.nodes@.len(),
            old(smb).started(),
            kseg_offs@.len() == self.keys@.len(),
            vseg_offs@.len() == self.values@.len(),
            forall|k: int|
                0 <= k < self.keys@.len() ==> #[trigger] kseg_offs@[k] == self.key_off(
                    old(smb).width(),
                    k,
                ),
            forall|v: int|
                0 <= v < self.values@.len() ==> #[trigger] vseg_offs@[v] == self.val_off(
                    old(smb).width(),
                    v,
                ),
        ensures
            final(smb).started(),
            final(smb).width() == old(smb).width(),
            final(smb).buf@ == old(smb).buf@ + self.entries(
                self.nodes@[i as int],
                old(smb).width(),
                self.nodes@[i as int].values@.len() as int,
            ),
    {
        let ghost w = smb.width();
        let ghost inner = smb.buf@;
        let node = &self.nodes[i];
        assert(self.node_ok(i as int));
        let mut k: usize = 0;
        while k < node.values.len()
            invariant
                self.wf(),
                self.node_ok(i as int),
                *node == self.nodes@[i as int],
                smb.started(),
                smb.width() == w,
                k <= node.values@.len(),
                kseg_offs@.len() == self.keys@.len(),
                vseg_offs@.len() == self.values@.len(),
                forall|k: int|
                    0 <= k < self.keys@.len() ==> #[trigger] kseg_offs@[k] == self.key_off(w, k),
                forall|v: int|
                    0 <= v < self.values@.len() ==> #[trigger] vseg_offs@[v] == self.val_off(w, v),
                smb.buf@ == inner + self.entries(*node, w, k as int),
            decreases node.values@.len() - k,
        {
            if node.keys.len() > 0 {
                smb.build_put_int(kseg_offs[node.keys[k]]);
            }
            smb.build_put_int(vseg_offs[node.values[k]]);
            assert(smb.buf@ =~= inner + self.entries(*node, w, k as int + 1));
            k = k + 1;
        }
    }

    /// Stages `jsn` under node `upoid`: as field `key` where `keyed` (the
    /// parent is a map node), else as its next entry; a root where `upoid` is
    /// 0. Objects and arrays become new nodes, nulls are dropped, and a string
    /// with the `$B64$` marker becomes the blob it carries. Returns false
    /// where such a string holds no valid base64.
    fn _explore_node(&mut self, upoid: usize, key: &str, keyed: bool, jsn: &JsonNode) -> (r: bool)
        requires
            old(self).wf(),
        ensures
            final(self).wf(),
            r == b64_valid(*jsn),
            r ==> staged(*old(self), *final(self), upoid, keyed, key.spec_bytes(), *jsn),
            old(self).weight() <= final(self).weight(),
            r && final(self).weight() + 9 <= SIZE_LIMIT ==> node_types(final(self).nodes@)
                == node_types(old(self).nodes@) + tree_types(*jsn),
        decreases jsn, 1nat,
    {
        proof {
            if !(jsn is Object) && !(jsn is Array) {
                assert(node_types(self.nodes@) + tree_types(*jsn) =~= node_types(self.nodes@));
            }
        }
        match jsn {
            JsonNode::Object(_) => self._explore_object(upoid, key, keyed, jsn),
            JsonNode::Array(_) => self._explore_array(upoid, key, keyed, jsn),
            _ => self._stage_scalar(upoid, key, keyed, jsn),
        }
    }

    /// Stages a JSON object as `_explore_node` does.
    #[verifier::rlimit(80)]
    fn _explore_object(&mut self, upoid: usize, key: &str, keyed: bool, jsn: &JsonNode) -> (r: bool)
        requires
            old(self).wf(),
            jsn is Object,
        ensures
            final(self).wf(),
            r == b64_valid(*jsn),
            r ==> staged(*old(self), *final(self), upoid, keyed, key.spec_bytes(), *jsn),
            old(self).weight() <= final(self).weight(),
            r && final(self).weight() + 9 <= SIZE_LIMIT ==> node_types(final(self).nodes@)
                == node_types(old(self).nodes@) + tree_types(*jsn),
        decreases jsn, 0nat,
    {
        match jsn {
            JsonNode::Object(obj) => {
                let ghost b1 = *self;
                let ghost t0 = node_types(self.nodes@);
                let oid = self.create_node(ST::SMDT_MAP);
                let ghost s0 = *self;
                if upoid > 0 {
                    if keyed {
                        self.add_node(upoid, key, oid);
                    } else {
                        self.push_node(upoid, oid);
                    }
                }
                let ghost mut states: Seq<SmDtonBuilder> = seq![s0, *self];
                assert(states[0].wf() && states[1].wf());
                proof {
                    assert(t0.push(ST::SMDT_MAP) =~= t0 + seq![ST::SMDT_MAP] + fields_types(obj@, 0));
                }
                let mut i: usize = 0;
                while i < obj.len()
                    invariant
                        self.wf(),
                        i <= obj@.len(),
                        *jsn == JsonNode::Object(*obj),
                        t0 == node_types(b1.nodes@),
                        b1 == *old(self),
                        oid == next_id(b1),
                        old(self).weight() <= self.weight(),
                        self.weight() + 9 <= SIZE_LIMIT ==> node_types(self.nodes@) == t0 + seq![ST::SMDT_MAP]
                            + fields_types(obj@, i as int),
                        forall|j: int| 0 <= j < i ==> b64_valid(#[trigger] obj@[j].1),
                        states.len() == i + 2,
                        forall|k: int| 0 <= k < states.len() ==> (#[trigger] states[k]).wf(),
                        creates(b1, states[0], ST::SMDT_MAP),
                        links(states[0], states[1], upoid, keyed, key.spec_bytes(), oid),
                        forall|j: int|
                            0 <= j < i ==> staged(
                                states[j + 1],
                                states[j + 2],
                                oid,
                                true,
                                encode_utf8((#[trigger] obj@[j]).0@),
                                obj@[j].1,
                            ),
                        states.last() == *self,
                    decreases obj@.len() - i,
                {
                    proof {
                        assert(*jsn == JsonNode::Object(*obj));
                        vstd::std_specs::vec::axiom_vec_index_decreases(*obj, i as int);
                        assert(decreases_to!(*jsn => (*jsn)->Object_0));
                        assert(decreases_to!(*obj => obj@));
                        assert(decreases_to!(obj@ => obj@[i as int]));
                        assert(decreases_to!(obj@[i as int] => obj@[i as int].1));
                        assert(decreases_to!(*jsn => obj@[i as int].1));
                    }
                    let ok = self._explore_node(oid, obj[i].0.as_str(), true, &obj[i].1);
                    proof {
                        assert(t0 + seq![ST::SMDT_MAP] + fields_types(obj@, i as int) + tree_types(obj@[i as int].1)
                            =~= t0 + seq![ST::SMDT_MAP] + fields_types(obj@, i as int + 1));
                    }
                    if !ok {
                        assert(!b64_valid(obj@[i as int].1));
                        assert(*jsn == JsonNode::Object(*obj));
                        reveal_with_fuel(b64_valid, 2);
                        assert(!b64_valid(*jsn));
                        return false;
                    }
                    proof {
                        states = states.push(*self);
                    }
                    i = i + 1;
                }
                proof {
                    assert(t0 + seq![ST::SMDT_MAP] + fields_types(obj@, obj@.len() as int) =~= t0 + tree_types(*jsn));
                    assert(states.last() == *self);
                }
                true
            },
            _ => false,
        }
    }

    /// Stages a JSON array as `_explore_node` does.
    #[verifier::rlimit(80)]
    fn _explore_array(&mut self, upoid: usize, key: &str, keyed: bool, jsn: &JsonNode) -> (r: bool)
        requires
            old(self).wf(),
            jsn is Array,
        ensures
            final(self).wf(),
            r == b64_valid(*jsn),
            r ==> staged(*old(self), *final(self), upoid, keyed, key.spec_bytes(), *jsn),
            old(self).weight() <= final(self).weight(),
            r && final(self).weight() + 9 <= SIZE_LIMIT ==> node_types(final(self).nodes@)
                == node_types(old(self).nodes@) + tree_types(*jsn),
        decreases jsn, 0nat,
    {
        match jsn {
            JsonNode::Array(arr) => {
                let ghost b1 = *self;
                let ghost t0 = node_types(self.nodes@);
                let oid = self.create_node(ST::SMDT_ARR);
                let ghost s0 = *self;
                if upoid > 0 {
                    if keyed {
                        self.add_node(upoid, key, oid);
                    } else {
                        self.push_node(upoid, oid);
                    }
                }
                let ghost mut states: Seq<SmDtonBuilder> = seq![s0, *self];
                assert(states[0].wf() && states[1].wf());
                proof {
                    assert(t0.push(ST::SMDT_ARR) =~= t0 + seq![ST::SMDT_ARR] + items_types(arr@, 0));
                    reveal_strlit("");
                    assert(""@.len() == 0);
                    assert("".spec_bytes() =~= Seq::<u8>::empty());
                }
                let mut i: usize = 0;
                while i < arr.len()
                    invariant
                        self.wf(),
                        i <= arr@.len(),
                        *jsn == JsonNode::Array(*arr),
                        t0 == node_types(b1.nodes@),
                        b1 == *old(self),
                        oid == next_id(b1),
                        "".spec_bytes() == Seq::<u8>::empty(),
                        old(self).weight() <= self.weight(),
                        self.weight() + 9 <= SIZE_LIMIT ==> node_types(self.nodes@) == t0 + seq![ST::SMDT_ARR]
                            + items_types(arr@, i as int),
                        forall|j: int| 0 <= j < i ==> b64_valid(#[trigger] arr@[j]),
                        states.len() == i + 2,
                        forall|k: int| 0 <= k < states.len() ==> (#[trigger] states[k]).wf(),
                        creates(b1, states[0], ST::SMDT_ARR),
                        links(states[0], states[1], upoid, keyed, key.spec_bytes(), oid),
                        forall|j: int|
                            0 <= j < i ==> staged(
                                states[j + 1],
                                states[j + 2],
                                oid,
                                false,
                                Seq::empty(),
                                #[trigger] arr@[j],
                            ),
                        states.last() == *self,
                    decreases arr@.len() - i,
                {
                    proof {
                        assert(*jsn == JsonNode::Array(*arr));
                        vstd::std_specs::vec::axiom_vec_index_decreases(*arr, i as int);
                        assert(decreases_to!(*jsn => (*jsn)->Array_0));
                        assert(decreases_to!(*arr => arr@));
                        assert(decreases_to!(arr@ => arr@[i as int]));
                        assert(decreases_to!(*jsn => arr@[i as int]));
                    }
                    let ok = self._explore_node(oid, "", false, &arr[i]);
                    proof {
                        assert(t0 + seq![ST::SMDT_ARR] + items_types(arr@, i as int) + tree_types(arr@[i as int])
                            =~= t0 + seq![ST::SMDT_ARR] + items_types(arr@, i as int + 1));
                    }
                    if !ok {
                        assert(!b64_valid(arr@[i as int]));
                        assert(*jsn == JsonNode::Array(*arr));
                        reveal_with_fuel(b64_valid, 2);
                        assert(!b64_valid(*jsn));
                        return false;
                    }
                    proof {
                        states = states.push(*self);
                    }
                    i = i + 1;
                }
                proof {
                    assert(t0 + seq![ST::SMDT_ARR] + items_types(arr@, arr@.len() as int) =~= t0 + tree_types(*jsn));
                    assert(states.last() == *self);
                }
                true
            },
            _ => false,
        }
    }

    /// Stages a value that is neither object nor array, as `_explore_node`
    /// does.
    fn _stage_scalar(&mut self, upoid: usize, key: &str, keyed: bool, jsn: &JsonNode) -> (r: bool)
        requires
            old(self).wf(),
            !(jsn is Object),
            !(jsn is Array),
        ensures
            final(self).wf(),
            r == b64_valid(*jsn),
            r ==> staged(*old(self), *final(self), upoid, keyed, key.spec_bytes(), *jsn),
            old(self).weight() <= final(self).weight(),
            node_types(final(self).nodes@) == node_types(old(self).nodes@),
    {
        match jsn {
            JsonNode::Null => true,
            JsonNode::Bool(data) => {
                if keyed {
                    self.add_bool(upoid, key, *data);
                } else {
                    self.push_bool(upoid, *data);
                }
                true
            },
            JsonNode::Int(data) => {
                if keyed {
                    self.add_i64(upoid, key, *data);
                } else {
                    self.push_i64(upoid, *data);
                }
                true
            },
            JsonNode::UInt(data) => {
                if keyed {
                    self.add_u64(upoid, key, *data);
                } else {
                    self.push_u64(upoid, *data);
                }
                true
            },
            JsonNode::Float32(data) => {
                if keyed {
                    self.add_f32_bits(upoid, key, *data);
                } else {
                    self.push_f32_bits(upoid, *data);
                }
                true
            },
            JsonNode::Float64(data) => {
                if keyed {
                    self.add_f64_bits(upoid, key, *data);
                } else {
                    self.push_f64_bits(upoid, *data);
                }
                true
            },
            JsonNode::Str(s) => {
                let t = s.as_str();
                if is_marked(t.as_bytes()) {
                    if keyed {
                        self.add_base64(upoid, key, t)
                    } else {
                        self.push_base64(upoid, t)
                    }
                } else {
                    if keyed {
                        self.add_string(upoid, key, t);
                    } else {
                        self.push_string(upoid, t);
                    }
                    true
                }
            },
            _ => true,
        }
    }

    /// Whether `oid` names a staged map node, whose entries are keyed.
    fn is_map_node(&self, oid: usize) -> (r: bool)
        requires
            self.wf(),
        ensures
            r == (self.has_node(oid) && self.nodes@[oid - 1].smdt == ST::SMDT_MAP),
    {
        oid > 0 && oid <= self.nnum && self.nodes[oid - 1].smdt == ST::SMDT_MAP
    }

    /// A builder holding the tree `jsn`, its root as node 1 where it is an
    /// object or array; `None` where a `$B64$`-marked string in it holds no
    /// valid base64.
    pub fn new_from_json(jsn: &JsonNode) -> (r: Option<Self>)
        ensures
            r is Some <==> b64_valid(*jsn),
            r matches Some(b) ==> b.wf(),
            r matches Some(b) ==> exists|b0: SmDtonBuilder| #[trigger] built_from(b0, b, *jsn),
            r matches Some(b) ==> (b.weight() + 9 <= SIZE_LIMIT ==> node_types(b.nodes@)
                == tree_types(*jsn)),
    {
        let mut obj = SmDtonBuilder::new();
        let ghost b0 = obj;
        proof {
            assert(node_types(obj.nodes@) =~= Seq::<u8>::empty());
            assert(Seq::<u8>::empty() + tree_types(*jsn) =~= tree_types(*jsn));
            reveal_strlit("");
            assert(""@.len() == 0);
            assert("".spec_bytes() =~= Seq::<u8>::empty());
        }
        if obj._explore_node(0, "", false, jsn) {
            proof {
                assert(built_from(b0, obj, *jsn));
            }
            Some(obj)
        } else {
            None
        }
    }

    /// Stages `jsn` under node `oid`: as field `key` where `oid` is a map
    /// node, else as its next entry. Returns false where a `$B64$`-marked
    /// string in it holds no valid base64.
    pub fn add_from_json(&mut self, oid: usize, key: &str, jsn: &JsonNode) -> (r: bool)
        requires
            old(self).wf(),
        ensures
            final(self).wf(),
            r == b64_valid(*jsn),
            r ==> staged(
                *old(self),
                *final(self),
                oid,
                old(self).has_node(oid) && old(self).nodes@[oid - 1].smdt == ST::SMDT_MAP,
                key.spec_bytes(),
                *jsn,
            ),
            old(self).weight() <= final(self).weight(),
            r && final(self).weight() + 9 <= SIZE_LIMIT ==> node_types(final(self).nodes@)
                == node_types(old(self).nodes@) + tree_types(*jsn),
    {
        let keyed = self.is_map_node(oid);
        self._explore_node(oid, key, keyed, jsn)
    }

    pub fn new() -> (r: Self)
        ensures
            r.wf(),
            r.nodes@.len() == 0,
            r.keys@.len() == 0,
            r.values@.len() == 0,
    {
        SmDtonBuilder {
            nodes: Vec::with_capacity(8),
            nnum: 0,
            keys: Vec::with_capacity(16),
            kdata_size: 0,
            values: Vec::with_capacity(16),
            vdata_size: 0,
            len_blk: 0,
            node_onum: 0,
        }
    }

    /// Room left before the buffer outgrows four-byte offsets.
    fn room(&self) -> (r: u64)
        requires
            self.wf(),
        ensures
            r == SIZE_LIMIT - self.weight(),
    {
        let fixed: u64 = 6 + self.nnum as u64 + self.kdata_size as u64 + self.values.len() as u64
            + self.vdata_size as u64;
        let slots: u64 = 3 + self.nnum as u64 + self.keys.len() as u64 + self.len_blk as u64
            + self.node_onum as u64;
        SIZE_LIMIT - (fixed + 4 * slots)
    }

    /// Stages a new node with tag `smdt` and returns its id, the next in
    /// order; 0, with nothing staged, where the buffer would outgrow
    /// four-byte offsets.
    pub fn create_node(&mut self, smdt: u8) -> (r: usize)
        requires
            old(self).wf(),
        ensures
            final(self).wf(),
            if old(self).weight() + 9 <= SIZE_LIMIT {
                &&& r == old(self).nodes@.len() + 1
                &&& final(self).nodes@.len() == r
                &&& final(self).nodes@.take(r - 1) == old(self).nodes@
                &&& final(self).nodes@[r - 1].smdt == smdt
                &&& final(self).nodes@[r - 1].oid == r
                &&& final(self).nodes@[r - 1].keys@.len() == 0
                &&& final(self).nodes@[r - 1].values@.len() == 0
                &&& final(self).keys@ == old(self).keys@
                &&& final(self).values@ == old(self).values@
                &&& node_types(final(self).nodes@) == node_types(old(self).nodes@).push(smdt)
            } else {
                r == 0 && *final(self) == *old(self)
            },
            old(self).weight() <= final(self).weight(),
    {
        if self.room() < 9 {
            return 0;
        }
        let id = self.nodes.len() + 1;
        let dton = SmDtonNode::new(smdt, id);
        let ghost old_nodes = self.nodes@;
        self.nodes.push(dton);
        self.nnum = id;
        self.node_onum = self.node_onum + 1;
        proof {
            assert(self.nodes@.take(id - 1) =~= old_nodes);
            assert(node_types(self.nodes@) =~= node_types(old_nodes).push(smdt));
            assert(node_slots(self.nodes@, id - 1) == node_slots(old_nodes, id - 1)) by {
                lemma_node_slots_prefix(self.nodes@, old_nodes, id - 1);
            }
            assert forall|i: int| 0 <= i < self.nodes@.len() implies #[trigger] self.node_ok(i) by {
                if i < id - 1 {
                    assert(self.nodes@[i] == old_nodes[i]);
                    assert(old(self).node_ok(i));
                }
            }
        }
        id
    }

    /// The index of `key` among the staged keys, staging it where it is new.
    fn _add_key(&mut self, key: &[u8]) -> (r: usize)
        requires
            old(self).wf(),
            valid_utf8(key@),
            old(self).weight() + key@.len() + 5 <= SIZE_LIMIT,
        ensures
            r < final(self).keys@.len(),
            final(self).keys@[r as int]@ == key@,
            final(self).wf(),
            final(self).nodes == old(self).nodes,
            final(self).nnum == old(self).nnum,
            final(self).values == old(self).values,
            final(self).vdata_size == old(self).vdata_size,
            final(self).len_blk == old(self).len_blk,
            final(self).node_onum == old(self).node_onum,
            keys_unique(final(self).keys@),
            final(self).kdata_size == key_seg_len(final(self).keys@, 0, final(self).keys@.len() as int),
            final(self).weight() <= old(self).weight() + key@.len() + 5,
            old(self).weight() <= final(self).weight(),
            if key_texts(old(self).keys@).contains(key@) {
                final(self).keys@ == old(self).keys@
            } else {
                final(self).keys@.len() == old(self).keys@.len() + 1 && final(self).keys@.take(
                    old(self).keys@.len() as int,
                ) == old(self).keys@
            },
    {
        let mut i: usize = 0;
        while i < self.keys.len()
            invariant
                *self == *old(self),
                old(self).wf(),
                i <= self.keys@.len(),
                forall|j: int| 0 <= j < i ==> (#[trigger] self.keys@[j])@ != key@,
            decreases self.keys@.len() - i,
        {
            if bytes_eq(self.keys[i].as_slice(), key) {
                proof {
                    assert(key_texts(self.keys@)[i as int] == key@);
                }
                return i;
            }
            i = i + 1;
        }
        proof {
            assert(!key_texts(self.keys@).contains(key@)) by {
                if key_texts(self.keys@).contains(key@) {
                    let j = choose|j: int| 0 <= j < key_texts(self.keys@).len() && key_texts(self.keys@)[j] == key@;
                    assert(self.keys@[j]@ == key@);
                }
            }
        }
        let ix = self.keys.len();
        let ghost old_keys = self.keys@;
        self.keys.push(vstd::slice::slice_to_vec(key));
        self.kdata_size = self.kdata_size + key.len() + 1;
        proof {
            assert(self.keys@.take(ix as int) =~= old_keys);
            lemma_key_seg_len_prefix(self.keys@, old_keys, 0, ix as int);
            assert forall|i: int, j: int|
                0 <= i < self.keys@.len() && 0 <= j < self.keys@.len() && i != j implies (#[trigger] self.keys@[i])@
                    != (#[trigger] self.keys@[j])@ by {
                if i < ix && j < ix {
                    assert(old(self).keys@[i] == self.keys@[i]);
                    assert(old(self).keys@[j] == self.keys@[j]);
                } else if i < ix {
                    assert(key_texts(old_keys)[i] == old_keys[i]@);
                } else if j < ix {
                    assert(key_texts(old_keys)[j] == old_keys[j]@);
                }
            }
            assert forall|i: int| 0 <= i < self.nodes@.len() implies #[trigger] self.node_ok(i) by {
                assert(old(self).node_ok(i));
            }
        }
        ix
    }

    /// Stages a value and returns its index.
    fn _add_value(&mut self, da: SmDtonData) -> (r: usize)
        requires
            old(self).wf(),
            da.wf(),
            old(self).weight() + da.len + 5 <= SIZE_LIMIT,
        ensures
            r == old(self).values@.len(),
            final(self).values@ == old(self).values@.push(da),
            final(self).nodes == old(self).nodes,
            final(self).nnum == old(self).nnum,
            final(self).keys == old(self).keys,
            final(self).kdata_size == old(self).kdata_size,
            final(self).node_onum == old(self).node_onum,
            final(self).wf(),
            values_wf(final(self).values@),
            final(self).vdata_size == vdata(final(self).values@, final(self).values@.len() as int),
            final(self).len_blk == lenblk(final(self).values@, final(self).values@.len() as int),
            final(self).weight() <= old(self).weight() + da.len + 5,
            old(self).weight() <= final(self).weight(),
    {
        let ix = self.values.len();
        let ghost old_values = self.values@;
        if da.has_len {
            self.len_blk = self.len_blk + 1;
        }
        self.vdata_size = self.vdata_size + da.len;
        self.values.push(da);
        proof {
            assert(self.values@.take(ix as int) =~= old_values);
            lemma_values_prefix(self.values@, old_values, ix as int);
            assert forall|i: int| 0 <= i < self.nodes@.len() implies #[trigger] self.node_ok(i) by {
                assert(old(self).node_ok(i));
            }
        }
        ix
    }

    /// Appends `da` under `key` to node `oid`.
    fn _do_add(&mut self, oid: usize, key: &[u8], da: SmDtonData)
        requires
            old(self).wf(),
            valid_utf8(key@),
            old(self).can_add(oid, key@.len(), da.len as nat),
            da.wf(),
        ensures
            final(self).wf(),
            old(self).adds(final(self), oid, key@),
            final(self).last_value() == da,
            final(self).weight() <= old(self).weight() + key@.len() + da.len + 18,
            node_types(final(self).nodes@) == node_types(old(self).nodes@),
            old(self).weight() <= final(self).weight(),
    {
        let ghost o = *self;
        let kid = self._add_key(key);
        let vid = self._add_value(da);
        let ghost mid = *self;
        let i = oid - 1;
        let ghost old_node = self.nodes@[i as int];
        self.nodes[i].keys.push(kid);
        self.nodes[i].values.push(vid);
        self.node_onum = self.node_onum + 2;
        proof {
            lemma_node_slots_update(mid.nodes@, self.nodes@, i as int, mid.nodes@.len() as int);
            assert forall|j: int| 0 <= j < self.nodes@.len() implies #[trigger] self.node_ok(j) by {
                assert(o.node_ok(j));
                if j != i {
                    assert(self.nodes@[j] == o.nodes@[j]);
                }
            }
            assert(self.values@.take(o.values@.len() as int) =~= o.values@);
            assert(self.nodes@[i as int].keys@ == o.nodes@[i as int].keys@.push(kid));
            assert(node_types(self.nodes@) =~= node_types(o.nodes@));
        }
    }

    /// Appends `da` to node `oid`.
    fn _do_push(&mut self, oid: usize, da: SmDtonData)
        requires
            old(self).wf(),
            old(self).can_push(oid, da.len as nat),
            da.wf(),
        ensures
            final(self).wf(),
            old(self).pushes(final(self), oid),
            final(self).last_value() == da,
            final(self).weight() <= old(self).weight() + da.len + 9,
            node_types(final(self).nodes@) == node_types(old(self).nodes@),
            old(self).weight() <= final(self).weight(),
    {
        let ghost o = *self;
        let vid = self._add_value(da);
        let ghost mid = *self;
        let i = oid - 1;
        self.nodes[i].values.push(vid);
        self.node_onum = self.node_onum + 1;
        proof {
            lemma_node_slots_update(mid.nodes@, self.nodes@, i as int, mid.nodes@.len() as int);
            assert forall|j: int| 0 <= j < self.nodes@.len() implies #[trigger] self.node_ok(j) by {
                assert(o.node_ok(j));
                if j != i {
                    assert(self.nodes@[j] == o.nodes@[j]);
                }
            }
            assert(self.values@.take(o.values@.len() as int) =~= o.values@);
            assert(node_types(self.nodes@) =~= node_types(o.nodes@));
        }
    }

    /// Exec form of `can_add`.
    fn map_ready(&self, oid: usize, klen: usize, dlen: usize) -> (r: bool)
        requires
            self.wf(),
        ensures
            r == self.can_add(oid, klen as nat, dlen as nat),
    {
        if oid == 0 || oid > self.nnum || self.nodes[oid - 1].smdt != ST::SMDT_MAP {
            return false;
        }
        let room = self.room();
        klen as u64 <= room && dlen as u64 <= room && klen as u64 + dlen as u64 + 18 <= room
    }

    /// Exec form of `can_push`.
    fn arr_ready(&self, oid: usize, dlen: usize) -> (r: bool)
        requires
            self.wf(),
        ensures
            r == self.can_push(oid, dlen as nat),
    {
        if oid == 0 || oid > self.nnum || self.nodes[oid - 1].smdt == ST::SMDT_MAP {
            return false;
        }
        let room = self.room();
        dlen as u64 <= room && dlen as u64 + 9 <= room
    }

    /// Adds a bool value under `key` to map node `oid`; nothing where
    /// `oid` names no map node or the buffer would outgrow four-byte offsets.
    pub fn add_bool(&mut self, oid: usize, key: &str, value: bool)
        requires
            old(self).wf(),
        ensures
            final(self).wf(),
            node_types(final(self).nodes@) == node_types(old(self).nodes@),
            old(self).weight() <= final(self).weight(),
            final(self).weight() <= old(self).weight() + key.spec_bytes().len() + (1) + 18,
            if old(self).can_add(oid, key.spec_bytes().len(), 1) {
                old(self).adds(final(self), oid, key.spec_bytes()) && final(self).last_value().is_fixed(ST::SMDT_BOO, seq![if value { 1u8 } else { 0u8 }])
            } else {
                *final(self) == *old(self)
            },
    {
        if !self.map_ready(oid, key.as_bytes().len(), 1) {
            return;
        }
        self._do_add(oid, key.as_bytes(), SmDtonData::new_bool(value));
    }

    /// Appends a bool value to array node `oid`; nothing where `oid` names
    /// no array node or the buffer would outgrow four-byte offsets.
    pub fn push_bool(&mut self, oid: usize, value: bool)
        requires
            old(self).wf(),
        ensures
            final(self).wf(),
            node_types(final(self).nodes@) == node_types(old(self).nodes@),
            old(self).weight() <= final(self).weight(),
            final(self).weight() <= old(self).weight() + (1) + 9,
            if old(self).can_push(oid, 1) {
                old(self).pushes(final(self), oid) && final(self).last_value().is_fixed(ST::SMDT_BOO, seq![if value { 1u8 } else { 0u8 }])
            } else {
                *final(self) == *old(self)
            },
    {
        if !self.arr_ready(oid, 1) {
            return;
        }
        self._do_push(oid, SmDtonData::new_bool(value));
    }

    /// Adds a u8 value under `key` to map node `oid`; nothing where
    /// `oid` names no map node or the buffer would outgrow four-byte offsets.
    pub fn add_u8(&mut self, oid: usize, key: &str, value: u8)
        requires
            old(self).wf(),
        ensures
            final(self).wf(),
            node_types(final(self).nodes@) == node_types(old(self).nodes@),
            old(self).weight() <= final(self).weight(),
            final(self).weight() <= old(self).weight() + key.spec_bytes().len() + (1) + 18,
            if old(self).can_add(oid, key.spec_bytes().len(), 1) {
                old(self).adds(final(self), oid, key.spec_bytes()) && final(self).last_value().is_fixed(ST::SMDT_UI8, seq![value])
            } else {
                *final(self) == *old(self)
            },
    {
        if !self.map_ready(oid, key.as_bytes().len(), 1) {
            return;
        }
        self._do_add(oid, key.as_bytes(), SmDtonData::new_u8(value));
    }

    /// Appends a u8 value to array node `oid`; nothing where `oid` names
    /// no array node or the buffer would outgrow four-byte offsets.
    pub fn push_u8(&mut self, oid: usize, value: u8)
        requires
            old(self).wf(),
        ensures
            final(self).wf(),
            node_types(final(self).nodes@) == node_types(old(self).nodes@),
            old(self).weight() <= final(self).weight(),
            final(self).weight() <= old(self).weight() + (1) + 9,
            if old(self).can_push(oid, 1) {
                old(self).pushes(final(self), oid) && final(self).last_value().is_fixed(ST::SMDT_UI8, seq![value])
            } else {
                *final(self) == *old(self)
            },
    {
        if !self.arr_ready(oid, 1) {
            return;
        }
        self._do_push(oid, SmDtonData::new_u8(value));
    }

    /// Adds a i16 value under `key` to map node `oid`; nothing where
    /// `oid` names no map node or the buffer would outgrow four-byte offsets.
    pub fn add_i16(&mut self, oid: usize, key: &str, value: i16)
        requires
            old(self).wf(),
        ensures
            final(self).wf(),
            node_types(final(self).nodes@) == node_types(old(self).nodes@),
            old(self).weight() <= final(self).weight(),
            final(self).weight() <= old(self).weight() + key.spec_bytes().len() + (2) + 18,
            if old(self).can_add(oid, key.spec_bytes().len(), 2) {
                old(self).adds(final(self), oid, key.spec_bytes()) && final(self).last_value().is_fixed(ST::SMDT_I16, le_bytes(twos(value as int, 2), 2))
            } else {
                *final(self) == *old(self)
            },
    {
        if !self.map_ready(oid, key.as_bytes().len(), 2) {
            return;
        }
        self._do_add(oid, key.as_bytes(), SmDtonData::new_i16(value));
    }

    /// Appends a i16 value to array node `oid`; nothing where `oid` names
    /// no array node or the buffer would outgrow four-byte offsets.
    pub fn push_i16(&mut self, oid: usize, value: i16)
        requires
            old(self).wf(),
        ensures
            final(self).wf(),
            node_types(final(self).nodes@) == node_types(old(self).nodes@),
            old(self).weight() <= final(self).weight(),
            final(self).weight() <= old(self).weight() + (2) + 9,
            if old(self).can_push(oid, 2) {
                old(self).pushes(final(self), oid) && final(self).last_value().is_fixed(ST::SMDT_I16, le_bytes(twos(value as int, 2), 2))
            } else {
                *final(self) == *old(self)
            },
    {
        if !self.arr_ready(oid, 2) {
            return;
        }
        self._do_push(oid, SmDtonData::new_i16(value));
    }

    /// Adds a u16 value under `key` to map node `oid`; nothing where
    /// `oid` names no map node or the buffer would outgrow four-byte offsets.
    pub fn add_u16(&mut self, oid: usize, key: &str, value: u16)
        requires
            old(self).wf(),
        ensures
            final(self).wf(),
            node_types(final(self).nodes@) == node_types(old(self).nodes@),
            old(self).weight() <= final(self).weight(),
            final(self).weight() <= old(self).weight() + key.spec_bytes().len() + (2) + 18,
            if old(self).can_add(oid, key.spec_bytes().len(), 2) {
                old(self).adds(final(self), oid, key.spec_bytes()) && final(self).last_value().is_fixed(ST::SMDT_U16, le_bytes(value as nat, 2))
            } else {
                *final(self) == *old(self)
            },
    {
        if !self.map_ready(oid, key.as_bytes().len(), 2) {
            return;
        }
        self._do_add(oid, key.as_bytes(), SmDtonData::new_u16(value));
    }

    /// Appends a u16 value to array node `oid`; nothing where `oid` names
    /// no array node or the buffer would outgrow four-byte offsets.
    pub fn push_u16(&mut self, oid: usize, value: u16)
        requires
            old(self).wf(),
        ensures
            final(self).wf(),
            node_types(final(self).nodes@) == node_types(old(self).nodes@),
            old(self).weight() <= final(self).weight(),
            final(self).weight() <= old(self).weight() + (2) + 9,
            if old(self).can_push(oid, 2) {
                old(self).pushes(final(self), oid) && final(self).last_value().is_fixed(ST::SMDT_U16, le_bytes(value as nat, 2))
            } else {
                *final(self) == *old(self)
            },
    {
        if !self.arr_ready(oid, 2) {
            return;
        }
        self._do_push(oid, SmDtonData::new_u16(value));
    }

    /// Adds a i32 value under `key` to map node `oid`; nothing where
    /// `oid` names no map node or the buffer would outgrow four-byte offsets.
    pub fn add_i32(&mut self, oid: usize, key: &str, value: i32)
        requires
            old(self).wf(),
        ensures
            final(self).wf(),
            node_types(final(self).nodes@) == node_types(old(self).nodes@),
            old(self).weight() <= final(self).weight(),
            final(self).weight() <= old(self).weight() + key.spec_bytes().len() + (4) + 18,
            if old(self).can_add(oid, key.spec_bytes().len(), 4) {
                old(self).adds(final(self), oid, key.spec_bytes()) && final(self).last_value().is_fixed(ST::SMDT_I32, le_bytes(twos(value as int, 4), 4))
            } else {
                *final(self) == *old(self)
            },
    {
        if !self.map_ready(oid, key.as_bytes().len(), 4) {
            return;
        }
        self._do_add(oid, key.as_bytes(), SmDtonData::new_i32(value));
    }

    /// Appends a i32 value to array node `oid`; nothing where `oid` names
    /// no array node or the buffer would outgrow four-byte offsets.
    pub fn push_i32(&mut self, oid: usize, value: i32)
        requires
            old(self).wf(),
        ensures
            final(self).wf(),
            node_types(final(self).nodes@) == node_types(old(self).nodes@),
            old(self).weight() <= final(self).weight(),
            final(self).weight() <= old(self).weight() + (4) + 9,
            if old(self).can_push(oid, 4) {
                old(self).pushes(final(self), oid) && final(self).last_value().is_fixed(ST::SMDT_I32, le_bytes(twos(value as int, 4), 4))
            } else {
                *final(self) == *old(self)
            },
    {
        if !self.arr_ready(oid, 4) {
            return;
        }
        self._do_push(oid, SmDtonData::new_i32(value));
    }

    /// Adds a u32 value under `key` to map node `oid`; nothing where
    /// `oid` names no map node or the buffer would outgrow four-byte offsets.
    pub fn add_u32(&mut self, oid: usize, key: &str, value: u32)
        requires
            old(self).wf(),
        ensures
            final(self).wf(),
            node_types(final(self).nodes@) == node_types(old(self).nodes@),
            old(self).weight() <= final(self).weight(),
            final(self).weight() <= old(self).weight() + key.spec_bytes().len() + (4) + 18,
            if old(self).can_add(oid, key.spec_bytes().len(), 4) {
                old(self).adds(final(self), oid, key.spec_bytes()) && final(self).last_value().is_fixed(ST::SMDT_U32, le_bytes(value as nat, 4))
            } else {
                *final(self) == *old(self)
            },
    {
        if !self.map_ready(oid, key.as_bytes().len(), 4) {
            return;
        }
        self._do_add(oid, key.as_bytes(), SmDtonData::new_u32(value));
    }

    /// Appends a u32 value to array node `oid`; nothing where `oid` names
    /// no array node or the buffer would outgrow four-byte offsets.
    pub fn push_u32(&mut self, oid: usize, value: u32)
        requires
            old(self).wf(),
        ensures
            final(self).wf(),
            node_types(final(self).nodes@) == node_types(old(self).nodes@),
            old(self).weight() <= final(self).weight(),
            final(self).weight() <= old(self).weight() + (4) + 9,
            if old(self).can_push(oid, 4) {
                old(self).pushes(final(self), oid) && final(self).last_value().is_fixed(ST::SMDT_U32, le_bytes(value as nat, 4))
            } else {
                *final(self) == *old(self)
            },
    {
        if !self.arr_ready(oid, 4) {
            return;
        }
        self._do_push(oid, SmDtonData::new_u32(value));
    }

    /// Adds a IEEE 754 bits of a float value under `key` to map node `oid`; nothing where
    /// `oid` names no map node or the buffer would outgrow four-byte offsets.
    pub fn add_f32_bits(&mut self, oid: usize, key: &str, value: u32)
        requires
            old(self).wf(),
        ensures
            final(self).wf(),
            node_types(final(self).nodes@) == node_types(old(self).nodes@),
            old(self).weight() <= final(self).weight(),
            final(self).weight() <= old(self).weight() + key.spec_bytes().len() + (4) + 18,
            if old(self).can_add(oid, key.spec_bytes().len(), 4) {
                old(self).adds(final(self), oid, key.spec_bytes()) && final(self).last_value().is_fixed(ST::SMDT_F32, le_bytes(value as nat, 4))
            } else {
                *final(self) == *old(self)
            },
    {
        if !self.map_ready(oid, key.as_bytes().len(), 4) {
            return;
        }
        self._do_add(oid, key.as_bytes(), SmDtonData::new_f32_bits(value));
    }

    /// Appends a IEEE 754 bits of a float value to array node `oid`; nothing where `oid` names
    /// no array node or the buffer would outgrow four-byte offsets.
    pub fn push_f32_bits(&mut self, oid: usize, value: u32)
        requires
            old(self).wf(),
        ensures
            final(self).wf(),
            node_types(final(self).nodes@) == node_types(old(self).nodes@),
            old(self).weight() <= final(self).weight(),
            final(self).weight() <= old(self).weight() + (4) + 9,
            if old(self).can_push(oid, 4) {
                old(self).pushes(final(self), oid) && final(self).last_value().is_fixed(ST::SMDT_F32, le_bytes(value as nat, 4))
            } else {
                *final(self) == *old(self)
            },
    {
        if !self.arr_ready(oid, 4) {
            return;
        }
        self._do_push(oid, SmDtonData::new_f32_bits(value));
    }

    /// Adds a i64 value under `key` to map node `oid`; nothing where
    /// `oid` names no map node or the buffer would outgrow four-byte offsets.
    pub fn add_i64(&mut self, oid: usize, key: &str, value: i64)
        requires
            old(self).wf(),
        ensures
            final(self).wf(),
            node_types(final(self).nodes@) == node_types(old(self).nodes@),
            old(self).weight() <= final(self).weight(),
            final(self).weight() <= old(self).weight() + key.spec_bytes().len() + (8) + 18,
            if old(self).can_add(oid, key.spec_bytes().len(), 8) {
                old(self).adds(final(self), oid, key.spec_bytes()) && final(self).last_value().is_fixed(ST::SMDT_I64, le_bytes(twos(value as int, 8), 8))
            } else {
                *final(self) == *old(self)
            },
    {
        if !self.map_ready(oid, key.as_bytes().len(), 8) {
            return;
        }
        self._do_add(oid, key.as_bytes(), SmDtonData::new_i64(value));
    }

    /// Appends a i64 value to array node `oid`; nothing where `oid` names
    /// no array node or the buffer would outgrow four-byte offsets.
    pub fn push_i64(&mut self, oid: usize, value: i64)
        requires
            old(self).wf(),
        ensures
            final(self).wf(),
            node_types(final(self).nodes@) == node_types(old(self).nodes@),
            old(self).weight() <= final(self).weight(),
            final(self).weight() <= old(self).weight() + (8) + 9,
            if old(self).can_push(oid, 8) {
                old(self).pushes(final(self), oid) && final(self).last_value().is_fixed(ST::SMDT_I64, le_bytes(twos(value as int, 8), 8))
            } else {
                *final(self) == *old(self)
            },
    {
        if !self.arr_ready(oid, 8) {
            return;
        }
        self._do_push(oid, SmDtonData::new_i64(value));
    }

    /// Adds a u64 value under `key` to map node `oid`; nothing where
    /// `oid` names no map node or the buffer would outgrow four-byte offsets.
    pub fn add_u64(&mut self, oid: usize, key: &str, value: u64)
        requires
            old(self).wf(),
        ensures
            final(self).wf(),
            node_types(final(self).nodes@) == node_types(old(self).nodes@),
            old(self).weight() <= final(self).weight(),
            final(self).weight() <= old(self).weight() + key.spec_bytes().len() + (8) + 18,
            if old(self).can_add(oid, key.spec_bytes().len(), 8) {
                old(self).adds(final(self), oid, key.spec_bytes()) && final(self).last_value().is_fixed(ST::SMDT_U64, le_bytes(value as nat, 8))
            } else {
                *final(self) == *old(self)
            },
    {
        if !self.map_ready(oid, key.as_bytes().len(), 8) {
            return;
        }
        self._do_add(oid, key.as_bytes(), SmDtonData::new_u64(value));
    }

    /// Appends a u64 value to array node `oid`; nothing where `oid` names
    /// no array node or the buffer would outgrow four-byte offsets.
    pub fn push_u64(&mut self, oid: usize, value: u64)
        requires
            old(self).wf(),
        ensures
            final(self).wf(),
            node_types(final(self).nodes@) == node_types(old(self).nodes@),
            old(self).weight() <= final(self).weight(),
            final(self).weight() <= old(self).weight() + (8) + 9,
            if old(self).can_push(oid, 8) {
                old(self).pushes(final(self), oid) && final(self).last_value().is_fixed(ST::SMDT_U64, le_bytes(value as nat, 8))
            } else {
                *final(self) == *old(self)
            },
    {
        if !self.arr_ready(oid, 8) {
            return;
        }
        self._do_push(oid, SmDtonData::new_u64(value));
    }

    /// Adds a IEEE 754 bits of a float value under `key` to map node `oid`; nothing where
    /// `oid` names no map node or the buffer would outgrow four-byte offsets.
    pub fn add_f64_bits(&mut self, oid: usize, key: &str, value: u64)
        requires
            old(self).wf(),
        ensures
            final(self).wf(),
            node_types(final(self).nodes@) == node_types(old(self).nodes@),
            old(self).weight() <= final(self).weight(),
            final(self).weight() <= old(self).weight() + key.spec_bytes().len() + (8) + 18,
            if old(self).can_add(oid, key.spec_bytes().len(), 8) {
                old(self).adds(final(self), oid, key.spec_bytes()) && final(self).last_value().is_fixed(ST::SMDT_F64, le_bytes(value as nat, 8))
            } else {
                *final(self) == *old(self)
            },
    {
        if !self.map_ready(oid, key.as_bytes().len(), 8) {
            return;
        }
        self._do_add(oid, key.as_bytes(), SmDtonData::new_f64_bits(value));
    }

    /// Appends a IEEE 754 bits of a float value to array node `oid`; nothing where `oid` names
    /// no array node or the buffer would outgrow four-byte offsets.
    pub fn push_f64_bits(&mut self, oid: usize, value: u64)
        requires
            old(self).wf(),
        ensures
            final(self).wf(),
            node_types(final(self).nodes@) == node_types(old(self).nodes@),
            old(self).weight() <= final(self).weight(),
            final(self).weight() <= old(self).weight() + (8) + 9,
            if old(self).can_push(oid, 8) {
                old(self).pushes(final(self), oid) && final(self).last_value().is_fixed(ST::SMDT_F64, le_bytes(value as nat, 8))
            } else {
                *final(self) == *old(self)
            },
    {
        if !self.arr_ready(oid, 8) {
            return;
        }
        self._do_push(oid, SmDtonData::new_f64_bits(value));
    }

    /// Adds a string value under `key` to map node `oid`; nothing where `oid`
    /// names no map node or the buffer would outgrow four-byte offsets.
    pub fn add_string(&mut self, oid: usize, key: &str, value: &str)
        requires
            old(self).wf(),
        ensures
            final(self).wf(),
            node_types(final(self).nodes@) == node_types(old(self).nodes@),
            old(self).weight() <= final(self).weight(),
            final(self).weight() <= old(self).weight() + key.spec_bytes().len() + (value.spec_bytes().len() + 1) + 18,
            if old(self).can_add(oid, key.spec_bytes().len(), value.spec_bytes().len() + 1) {
                &&& old(self).adds(final(self), oid, key.spec_bytes())
                &&& final(self).last_value().smdt == ST::SMDT_STR
                &&& final(self).last_value().has_len
                &&& final(self).last_value().v8a@ == value.spec_bytes().push(0)
            } else {
                *final(self) == *old(self)
            },
    {
        let vlen = value.as_bytes().len();
        if vlen >= self.room() as usize || !self.map_ready(oid, key.as_bytes().len(), vlen + 1) {
            return;
        }
        self._do_add(oid, key.as_bytes(), SmDtonData::new_string(value));
    }

    /// Appends a string value to array node `oid`; nothing where `oid` names
    /// no array node or the buffer would outgrow four-byte offsets.
    pub fn push_string(&mut self, oid: usize, value: &str)
        requires
            old(self).wf(),
        ensures
            final(self).wf(),
            node_types(final(self).nodes@) == node_types(old(self).nodes@),
            old(self).weight() <= final(self).weight(),
            final(self).weight() <= old(self).weight() + (value.spec_bytes().len() + 1) + 9,
            if old(self).can_push(oid, value.spec_bytes().len() + 1) {
                &&& old(self).pushes(final(self), oid)
                &&& final(self).last_value().smdt == ST::SMDT_STR
                &&& final(self).last_value().has_len
                &&& final(self).last_value().v8a@ == value.spec_bytes().push(0)
            } else {
                *final(self) == *old(self)
            },
    {
        let vlen = value.as_bytes().len();
        if vlen >= self.room() as usize || !self.arr_ready(oid, vlen + 1) {
            return;
        }
        self._do_push(oid, SmDtonData::new_string(value));
    }

    /// Adds a binary blob under `key` to map node `oid`; nothing where `oid`
    /// names no map node or the buffer would outgrow four-byte offsets.
    pub fn add_bin(&mut self, oid: usize, key: &str, value: &[u8])
        requires
            old(self).wf(),
        ensures
            final(self).wf(),
            node_types(final(self).nodes@) == node_types(old(self).nodes@),
            old(self).weight() <= final(self).weight(),
            final(self).weight() <= old(self).weight() + key.spec_bytes().len() + (value@.len()) + 18,
            if old(self).can_add(oid, key.spec_bytes().len(), value@.len()) {
                &&& old(self).adds(final(self), oid, key.spec_bytes())
                &&& final(self).last_value().smdt == ST::SMDT_BIN
                &&& final(self).last_value().has_len
                &&& final(self).last_value().v8a@ == value@
            } else {
                *final(self) == *old(self)
            },
    {
        if !self.map_ready(oid, key.as_bytes().len(), value.len()) {
            return;
        }
        self._do_add(oid, key.as_bytes(), SmDtonData::new_bin(value));
    }

    /// Appends a binary blob to array node `oid`; nothing where `oid` names no
    /// array node or the buffer would outgrow four-byte offsets.
    pub fn push_bin(&mut self, oid: usize, value: &[u8])
        requires
            old(self).wf(),
        ensures
            final(self).wf(),
            node_types(final(self).nodes@) == node_types(old(self).nodes@),
            old(self).weight() <= final(self).weight(),
            final(self).weight() <= old(self).weight() + (value@.len()) + 9,
            if old(self).can_push(oid, value@.len()) {
                &&& old(self).pushes(final(self), oid)
                &&& final(self).last_value().smdt == ST::SMDT_BIN
                &&& final(self).last_value().has_len
                &&& final(self).last_value().v8a@ == value@
            } else {
                *final(self) == *old(self)
            },
    {
        if !self.arr_ready(oid, value.len()) {
            return;
        }
        self._do_push(oid, SmDtonData::new_bin(value));
    }

    /// Stages a decoded base64 blob. Returns false, staging nothing, where the
    /// text after the marker is no valid base64.
    fn _stage_b64(&mut self, oid: usize, key: &str, value: &str, keyed: bool) -> (r: bool)
        requires
            old(self).wf(),
        ensures
            final(self).wf(),
            node_types(final(self).nodes@) == node_types(old(self).nodes@),
            old(self).weight() <= final(self).weight(),
            match SmDtonData::b64_of(value.spec_bytes()) {
                None => !r && *final(self) == *old(self),
                Some(d) => r && if keyed {
                    if old(self).can_add(oid, key.spec_bytes().len(), d.len()) {
                        &&& old(self).adds(final(self), oid, key.spec_bytes())
                        &&& final(self).last_value().smdt == ST::SMDT_B64
                        &&& final(self).last_value().has_len
                        &&& final(self).last_value().v8a@ == d
                    } else {
                        *final(self) == *old(self)
                    }
                } else {
                    if old(self).can_push(oid, d.len()) {
                        &&& old(self).pushes(final(self), oid)
                        &&& final(self).last_value().smdt == ST::SMDT_B64
                        &&& final(self).last_value().has_len
                        &&& final(self).last_value().v8a@ == d
                    } else {
                        *final(self) == *old(self)
                    }
                },
            },
    {
        match SmDtonData::new_b64(value) {
            None => false,
            Some(da) => {
                if keyed {
                    if self.map_ready(oid, key.as_bytes().len(), da.len) {
                        self._do_add(oid, key.as_bytes(), da);
                    }
                } else {
                    if self.arr_ready(oid, da.len) {
                        self._do_push(oid, da);
                    }
                }
                true
            },
        }
    }

    /// Adds the blob that a `$B64$`-marked string carries under `key` to map
    /// node `oid`. Returns false, staging nothing, where the text after the
    /// marker is no valid base64; stages nothing either where `oid` names no
    /// map node or the buffer would outgrow four-byte offsets.
    pub fn add_base64(&mut self, oid: usize, key: &str, value: &str) -> (r: bool)
        requires
            old(self).wf(),
        ensures
            final(self).wf(),
            node_types(final(self).nodes@) == node_types(old(self).nodes@),
            old(self).weight() <= final(self).weight(),
            match SmDtonData::b64_of(value.spec_bytes()) {
                None => !r && *final(self) == *old(self),
                Some(d) => r && if old(self).can_add(oid, key.spec_bytes().len(), d.len()) {
                    &&& old(self).adds(final(self), oid, key.spec_bytes())
                    &&& final(self).last_value().smdt == ST::SMDT_B64
                    &&& final(self).last_value().has_len
                    &&& final(self).last_value().v8a@ == d
                } else {
                    *final(self) == *old(self)
                },
            },
    {
        self._stage_b64(oid, key, value, true)
    }

    /// Appends the blob that a `$B64$`-marked string carries to array node
    /// `oid`, as `add_base64` does for map nodes.
    pub fn push_base64(&mut self, oid: usize, value: &str) -> (r: bool)
        requires
            old(self).wf(),
        ensures
            final(self).wf(),
            node_types(final(self).nodes@) == node_types(old(self).nodes@),
            old(self).weight() <= final(self).weight(),
            match SmDtonData::b64_of(value.spec_bytes()) {
                None => !r && *final(self) == *old(self),
                Some(d) => r && if old(self).can_push(oid, d.len()) {
                    &&& old(self).pushes(final(self), oid)
                    &&& final(self).last_value().smdt == ST::SMDT_B64
                    &&& final(self).last_value().has_len
                    &&& final(self).last_value().v8a@ == d
                } else {
                    *final(self) == *old(self)
                },
            },
    {
        self._stage_b64(oid, "", value, false)
    }

    /// Adds under `key` to map node `oid` a reference to node `new_oid`;
    /// nothing where either id names no fitting node.
    pub fn add_node(&mut self, oid: usize, key: &str, new_oid: usize)
        requires
            old(self).wf(),
        ensures
            final(self).wf(),
            node_types(final(self).nodes@) == node_types(old(self).nodes@),
            old(self).weight() <= final(self).weight(),
            final(self).weight() <= old(self).weight() + key.spec_bytes().len() + 18,
            if old(self).has_node(new_oid) && old(self).can_add(oid, key.spec_bytes().len(), 0) {
                &&& old(self).adds(final(self), oid, key.spec_bytes())
                &&& final(self).last_value().smdt == old(self).nodes@[new_oid - 1].smdt
                &&& final(self).last_value().has_len
                &&& final(self).last_value().oid == new_oid
                &&& final(self).last_value().v8a@.len() == 0
            } else {
                *final(self) == *old(self)
            },
    {
        if new_oid == 0 || new_oid > self.nnum || !self.map_ready(oid, key.as_bytes().len(), 0) {
            return;
        }
        let da = SmDtonData::new_node(&self.nodes[new_oid - 1]);
        proof {
            assert(self.node_ok(new_oid - 1));
        }
        self._do_add(oid, key.as_bytes(), da);
    }

    /// Appends to array node `oid` a reference to node `new_oid`; nothing
    /// where either id names no fitting node.
    pub fn push_node(&mut self, oid: usize, new_oid: usize)
        requires
            old(self).wf(),
        ensures
            final(self).wf(),
            node_types(final(self).nodes@) == node_types(old(self).nodes@),
            old(self).weight() <= final(self).weight(),
            final(self).weight() <= old(self).weight() + 9,
            if old(self).has_node(new_oid) && old(self).can_push(oid, 0) {
                &&& old(self).pushes(final(self), oid)
                &&& final(self).last_value().smdt == old(self).nodes@[new_oid - 1].smdt
                &&& final(self).last_value().has_len
                &&& final(self).last_value().oid == new_oid
                &&& final(self).last_value().v8a@.len() == 0
            } else {
                *final(self) == *old(self)
            },
    {
        if new_oid == 0 || new_oid > self.nnum || !self.arr_ready(oid, 0) {
            return;
        }
        let da = SmDtonData::new_node(&self.nodes[new_oid - 1]);
        proof {
            assert(self.node_ok(new_oid - 1));
        }
        self._do_push(oid, da);
    }
}

/// Whether two byte slices hold the same bytes.
pub fn bytes_eq(a: &[u8], b: &[u8]) -> (r: bool)
    ensures
        r == (a@ == b@),
{
    if a.len() != b.len() {
        return false;
    }
    let mut i: usize = 0;
    while i < a.len()
        invariant
            a@.len() == b@.len(),
            i <= a@.len(),
            forall|j: int| 0 <= j < i ==> a@[j] == b@[j],
        decreases a@.len() - i,
    {
        if a[i] != b[i] {
            return false;
        }
        i = i + 1;
    }
    assert(a@ =~= b@);
    true
}

proof fn lemma_node_slots_prefix(a: Seq<SmDtonNode>, b: Seq<SmDtonNode>, n: int)
    requires
        0 <= n <= a.len(),
        n <= b.len(),
        forall|i: int| 0 <= i < n ==> a[i] == b[i],
    ensures
        node_slots(a, n) == node_slots(b, n),
    decreases n,
{
    if n > 0 {
        lemma_node_slots_prefix(a, b, n - 1);
    }
}

proof fn lemma_node_slots_update(a: Seq<SmDtonNode>, b: Seq<SmDtonNode>, i: int, n: int)
    requires
        0 <= i < n <= a.len(),
        a.len() == b.len(),
        forall|j: int| 0 <= j < a.len() && j != i ==> a[j] == b[j],
        node_slot(b[i]) >= node_slot(a[i]),
    ensures
        node_slots(b, n) == node_slots(a, n) + node_slot(b[i]) - node_slot(a[i]),
    decreases n,
{
    if n - 1 == i {
        lemma_node_slots_prefix(a, b, n - 1);
    } else {
        lemma_node_slots_update(a, b, i, n - 1);
    }
}

proof fn lemma_key_seg_len_prefix(a: Seq<Vec<u8>>, b: Seq<Vec<u8>>, w: nat, n: int)
    requires
        0 <= n <= a.len(),
        n <= b.len(),
        forall|i: int| 0 <= i < n ==> a[i] == b[i],
    ensures
        key_seg_len(a, w, n) == key_seg_len(b, w, n),
    decreases n,
{
    if n > 0 {
        lemma_key_seg_len_prefix(a, b, w, n - 1);
    }
}

proof fn lemma_values_prefix(a: Seq<SmDtonData>, b: Seq<SmDtonData>, n: int)
    requires
        0 <= n <= a.len(),
        n <= b.len(),
        forall|i: int| 0 <= i < n ==> a[i] == b[i],
    ensures
        vdata(a, n) == vdata(b, n),
        lenblk(a, n) == lenblk(b, n),
        forall|w: nat| val_seg_len(a, w, n) == #[trigger] val_seg_len(b, w, n),
    decreases n,
{
    if n > 0 {
        lemma_values_prefix(a, b, n - 1);
        assert forall|w: nat| val_seg_len(a, w, n) == #[trigger] val_seg_len(b, w, n) by {
            assert(val_seg_len(a, w, n - 1) == val_seg_len(b, w, n - 1));
        }
    }
}

} // verus!

verus! {

pub(crate) proof fn lemma_layout_arith(w: nat, n: nat, knum: nat, lb: nat, ns: nat)
    requires
        w <= 4,
    ensures
        w * (3 + n + knum + lb + ns) <= 4 * (3 + n + knum + lb + ns),
        (n + 3) * w + w * ns <= w * (3 + n + knum + lb + ns),
        (3 + n + ns) * w + knum * w + lb * w == w * (3 + n + knum + lb + ns),
        w * lb == lb * w,
        w * knum == knum * w,
{
    assert(w * lb == lb * w) by (nonlinear_arith);
    assert(w * knum == knum * w) by (nonlinear_arith);
    assert(w * (3 + n + knum + lb + ns) <= 4 * (3 + n + knum + lb + ns)) by (nonlinear_arith)
        requires
            w <= 4,
    ;
    assert((n + 3) * w + w * ns + knum * w + lb * w == w * (3 + n + knum + lb + ns))
        by (nonlinear_arith);
    assert((3 + n + ns) * w + knum * w + lb * w == w * (3 + n + knum + lb + ns))
        by (nonlinear_arith);
    assert(knum * w + lb * w >= 0) by (nonlinear_arith);
}

pub(crate) proof fn lemma_node_slots_mono(nodes: Seq<SmDtonNode>, i: int, j: int)
    requires
        i <= j,
    ensures
        node_slots(nodes, i) <= node_slots(nodes, j),
    decreases j - i,
{
    if i < j {
        lemma_node_slots_mono(nodes, i, j - 1);
    }
}

pub(crate) proof fn lemma_key_seg_len_split(keys: Seq<Vec<u8>>, w: nat, n: int)
    requires
        0 <= n,
    ensures
        key_seg_len(keys, w, n) == n * w + key_seg_len(keys, 0, n),
    decreases n,
{
    if n > 0 {
        lemma_key_seg_len_split(keys, w, n - 1);
        assert(n * w == (n - 1) * w + w) by (nonlinear_arith);
        assert(key_seg_len(keys, w, n) == key_seg_len(keys, w, n - 1) + w + keys[n - 1]@.len() + 1);
        assert(key_seg_len(keys, 0, n) == key_seg_len(keys, 0, n - 1) + 0 + keys[n - 1]@.len() + 1);
        assert(key_seg_len(keys, w, n - 1) == (n - 1) * w + key_seg_len(keys, 0, n - 1));
    } else {
        assert(n * w == 0) by (nonlinear_arith)
            requires
                n == 0,
        ;
    }
}

pub(crate) proof fn lemma_val_seg_len_split(values: Seq<SmDtonData>, w: nat, n: int)
    requires
        0 <= n,
    ensures
        val_seg_len(values, w, n) == n + vdata(values, n) + w * lenblk(values, n),
    decreases n,
{
    if n > 0 {
        lemma_val_seg_len_split(values, w, n - 1);
        let l = lenblk(values, n - 1);
        assert(w * (l + 1) == w * l + w) by (nonlinear_arith);
        assert(val_seg_len(values, w, n - 1) == (n - 1) + vdata(values, n - 1) + w * l);
        if values[n - 1].has_len {
            assert(lenblk(values, n) == l + 1);
            assert(val_seg_len(values, w, n) == val_seg_len(values, w, n - 1) + 1 + values[n - 1].len + w);
        } else {
            assert(lenblk(values, n) == l);
            assert(val_seg_len(values, w, n) == val_seg_len(values, w, n - 1) + 1 + values[n - 1].len);
        }
    } else {
        assert(w * 0 == 0) by (nonlinear_arith);
    }
}

/// Keys are stored once per buffer: in a well-formed builder no two staged
/// keys have the same text, so each key's bytes appear once in the key
/// segment however many nodes use it.
pub proof fn lemma_keys_stored_once(b: SmDtonBuilder, i: int, j: int)
    requires
        b.wf(),
        0 <= i < b.keys@.len(),
        0 <= j < b.keys@.len(),
        b.keys@[i]@ == b.keys@[j]@,
    ensures
        i == j,
{
}

/// Adding a value under a key that is already staged, to any node, stages no
/// second copy of the key and points the new entry at the staged one.
pub proof fn lemma_key_reused(b1: SmDtonBuilder, b2: SmDtonBuilder, oid: usize, k: Seq<u8>, i: int)
    requires
        b1.wf(),
        b2.wf(),
        b1.adds(&b2, oid, k),
        0 <= i < b1.keys@.len(),
        b1.keys@[i]@ == k,
    ensures
        b2.keys@ == b1.keys@,
        b2.nodes@[oid - 1].keys@.last() == i,
{
    assert(key_texts(b1.keys@)[i] == k);
    let kid = b2.nodes@[oid - 1].keys@.last();
    lemma_keys_stored_once(b2, kid as int, i);
}

/// The node table holds `1 + w` bytes per node, the type tag first.
pub(crate) proof fn lemma_node_table(b: SmDtonBuilder, w: nat, k: int)
    requires
        valid_width(w as int),
        0 <= k <= b.nodes@.len(),
    ensures
        b.node_table(w, k).len() == k * (1 + w),
        forall|i: int| 0 <= i < k ==> #[trigger] b.node_table(w, k)[i * (1 + w)] == b.nodes@[i].smdt,
    decreases k,
{
    if k > 0 {
        lemma_node_table(b, w, k - 1);
        lemma_le_bytes_len(b.ptab_off(w, k - 1), w);
        assert(k * (1 + w) == (k - 1) * (1 + w) + 1 + w) by (nonlinear_arith);
        assert forall|i: int| 0 <= i < k implies #[trigger] b.node_table(w, k)[i * (1 + w)]
            == b.nodes@[i].smdt by {
            if i < k - 1 {
                assert(i * (1 + w) < (k - 1) * (1 + w)) by (nonlinear_arith)
                    requires
                        0 <= i < k - 1,
                        w >= 1,
                ;
            }
        }
    } else {
        assert(k * (1 + w) == 0) by (nonlinear_arith)
            requires
                k == 0,
        ;
    }
}

pub(crate) proof fn lemma_key_seg_len_exact(keys: Seq<Vec<u8>>, w: nat, n: int)
    requires
        valid_width(w as int),
        0 <= n <= keys.len(),
    ensures
        key_seg(keys, w, n).len() == key_seg_len(keys, w, n),
    decreases n,
{
    if n > 0 {
        lemma_key_seg_len_exact(keys, w, n - 1);
        lemma_le_bytes_len((keys[n - 1]@.len() + 1) as nat, w);
    }
}

pub(crate) proof fn lemma_val_seg_len_exact(values: Seq<SmDtonData>, w: nat, n: int)
    requires
        valid_width(w as int),
        0 <= n <= values.len(),
        values_wf(values),
    ensures
        val_seg(values, w, n).len() == val_seg_len(values, w, n),
    decreases n,
{
    if n > 0 {
        lemma_val_seg_len_exact(values, w, n - 1);
        lemma_le_bytes_len(values[n - 1].len_field(), w);
        assert(values[n - 1].wf());
    }
}

pub(crate) proof fn lemma_entries_len(b: SmDtonBuilder, nd: SmDtonNode, w: nat, k: int)
    requires
        valid_width(w as int),
        0 <= k,
    ensures
        b.entries(nd, w, k).len() == k * (if nd.keys@.len() > 0 { 2 * w } else { w }),
    decreases k,
{
    let c = if nd.keys@.len() > 0 { 2 * w } else { w };
    if k > 0 {
        lemma_entries_len(b, nd, w, k - 1);
        if nd.keys@.len() > 0 {
            lemma_le_bytes_len(b.key_off(w, nd.keys@[k - 1] as int), w);
        }
        lemma_le_bytes_len(b.val_off(w, nd.values@[k - 1] as int), w);
        assert(k * c == (k - 1) * c + c) by (nonlinear_arith);
    } else {
        assert(k * c == 0) by (nonlinear_arith)
            requires
                k == 0,
        ;
    }
}

pub(crate) proof fn lemma_prop_tables_len(b: SmDtonBuilder, w: nat, i: int)
    requires
        b.wf(),
        valid_width(w as int),
        0 <= i <= b.nodes@.len(),
    ensures
        b.prop_tables(w, i).len() == w * node_slots(b.nodes@, i),
    decreases i,
{
    if i > 0 {
        lemma_prop_tables_len(b, w, i - 1);
        let nd = b.nodes@[i - 1];
        assert(b.node_ok(i - 1));
        let k = nd.values@.len() as int;
        lemma_entries_len(b, nd, w, k);
        lemma_le_bytes_len(nd.values@.len(), w);
        let ns = node_slots(b.nodes@, i - 1);
        if nd.keys@.len() > 0 {
            assert(k * (2 * w) == w * (nd.keys@.len() + nd.values@.len())) by (nonlinear_arith)
                requires
                    k == nd.keys@.len(),
                    k == nd.values@.len(),
            ;
        } else {
            assert(k * w == w * (nd.keys@.len() + nd.values@.len())) by (nonlinear_arith)
                requires
                    k == nd.values@.len(),
                    nd.keys@.len() == 0,
            ;
        }
        assert(w * (ns + 1 + nd.keys@.len() + nd.values@.len()) == w * ns + w + w * (nd.keys@.len()
            + nd.values@.len())) by (nonlinear_arith);
    } else {
        assert(w * 0 == 0) by (nonlinear_arith);
    }
}

/// The laid-out buffer is exactly as long as its size estimate: fixed bytes
/// plus one offset width per offset slot.
pub proof fn lemma_layout_len(b: SmDtonBuilder, w: nat)
    requires
        b.wf(),
        valid_width(w as int),
    ensures
        b.layout(w).len() == b.fixed_total() + w * b.slot_total(),
{
    let n = b.nodes@.len();
    let knum = b.keys@.len();
    let vnum = b.values@.len();
    lemma_le_bytes_len(n, w);
    lemma_le_bytes_len(knum, w);
    lemma_le_bytes_len(vnum, w);
    lemma_node_table(b, w, n as int);
    lemma_prop_tables_len(b, w, n as int);
    lemma_key_seg_len_exact(b.keys@, w, knum as int);
    lemma_val_seg_len_exact(b.values@, w, vnum as int);
    lemma_key_seg_len_split(b.keys@, w, knum as int);
    lemma_val_seg_len_split(b.values@, w, vnum as int);
    let ns = node_slots(b.nodes@, n as int);
    let lb = lenblk(b.values@, vnum as int);
    assert(n * (1 + w) + w * ns + knum * w + w * lb + 3 * w == w * (3 + n + knum + lb + ns) + n)
        by (nonlinear_arith);
}

} // verus!

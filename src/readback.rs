//! Reading a built buffer back: what a reader finds in the bytes that a
//! builder lays out.
use vstd::prelude::*;

use crate::sd_buffer::{
    key_entry, key_seg, key_seg_len, lemma_key_seg_len_mono, lemma_val_seg_len_mono, val_seg,
    val_seg_len,
};
use crate::b64::base64_text;
use crate::sd_builder::{
    built_from, creates, links, marked, next_id, scalar_ok, stage_len, stages_scalar, staged, vdata,
    SIZE_LIMIT,
    lemma_entries_len, lemma_key_seg_len_exact, lemma_key_seg_len_split, lemma_layout_arith,
    lemma_node_slots_mono, lemma_node_table, lemma_prop_tables_len,
    lemma_val_seg_len_exact, lemma_val_seg_len_split, lenblk, node_slots, SmDtonBuilder,
};
use crate::sd_data::{twos, SmDtonData, ST};
use crate::sd_json::{set_one, JsonNode};
use crate::sd_node::SmDtonNode;
use crate::sd_reader::{b64_mark_text, lemma_latest_field_wins, reads, signed, SmDtonReader};
use vstd::utf8::{encode_utf8, encode_utf8_decode_utf8, encode_utf8_valid_utf8};
use crate::su::{int_bytes, le_bytes, lemma_le_bytes_len, lemma_le_round_trip, lemma_le_uint_window, pow256};

verus! {

/// A reader over a built buffer sees the builder's offset width, its node
/// count, and the type of every node.
pub proof fn lemma_built_nodes_read_back(b: SmDtonBuilder, q: SmDtonReader)
    requires
        b.wf(),
        reads(q, b.layout(b.width())),
    ensures
        q.oz == b.width(),
        q.nnum == b.nodes@.len(),
        forall|oid: int| 1 <= oid <= b.nodes@.len() ==> #[trigger] q.type_of(oid) == b.nodes@[oid - 1].smdt,
        forall|oid: int|
            1 <= oid <= b.nodes@.len() ==> #[trigger] q.p_off(oid) == b.ptab_off(b.width(), oid - 1),
        forall|oid: int|
            1 <= oid <= b.nodes@.len() ==> #[trigger] q.sub_num(oid) == b.nodes@[oid - 1].values@.len(),
{
    let w = b.width();
    let n = b.nodes@.len();
    let hd = b.header(w);
    let nt = b.node_table(w, n as int);
    let l = b.layout(w);
    lemma_le_bytes_len(n, w);
    lemma_le_bytes_len(b.keys@.len(), w);
    lemma_le_bytes_len(b.values@.len(), w);
    let rest = b.prop_tables(w, n as int) + seq![0x77u8] + key_seg(b.keys@, w, b.keys@.len() as int)
        + seq![0x77u8] + val_seg(b.values@, w, b.values@.len() as int) + seq![0x77u8];
    assert(l =~= (hd + nt) + rest);
    assert(hd.len() == 3 + 3 * w);
    lemma_node_table(b, w, n as int);
    assert(l[1] == hd[1]);
    assert(q.oz == w);
    // node count
    assert forall|i: int| 0 <= i < w implies l[2 + i] == le_bytes(n, w)[i] by {
        assert(l[2 + i] == hd[2 + i]);
    }
    lemma_le_uint_window(l, le_bytes(n, w), 2, w);
    reveal_with_fuel(pow256, 5);
    assert(n < pow256(w)) by {
        lemma_le_uint_bound_by_width(b);
    }
    lemma_le_round_trip(n, w);
    assert(q.nnum == n);
    // node types
    assert forall|oid: int| 1 <= oid <= n implies #[trigger] q.type_of(oid) == b.nodes@[oid - 1].smdt by {
        let i = oid - 1;
        assert(q.n_off(oid) == hd.len() + i * (1 + w));
        assert(i * (1 + w) < n * (1 + w)) by (nonlinear_arith)
            requires
                0 <= i < n,
                w >= 1,
        ;
        assert(l[q.n_off(oid)] == nt[i * (1 + w)]);
    }
    assert forall|oid: int| 1 <= oid <= n implies #[trigger] q.p_off(oid) == b.ptab_off(w, oid - 1) && q.sub_num(oid)
        == b.nodes@[oid - 1].values@.len() by {
        lemma_node_read_back(b, q, oid);
    }
}

/// A reader over a built buffer finds node `oid`'s property table and its
/// entry count.
proof fn lemma_node_read_back(b: SmDtonBuilder, q: SmDtonReader, oid: int)
    requires
        b.wf(),
        reads(q, b.layout(b.width())),
        q.oz == b.width(),
        1 <= oid <= b.nodes@.len(),
    ensures
        q.p_off(oid) == b.ptab_off(b.width(), oid - 1),
        q.sub_num(oid) == b.nodes@[oid - 1].values@.len(),
{
    let w = b.width();
    let n = b.nodes@.len();
    let hd = b.header(w);
    let nt = b.node_table(w, n as int);
    let l = b.layout(w);
    lemma_le_bytes_len(n, w);
    lemma_le_bytes_len(b.keys@.len(), w);
    lemma_le_bytes_len(b.values@.len(), w);
    lemma_node_table(b, w, n as int);
    lemma_prop_tables_len(b, w, n as int);
    let pt = b.prop_tables(w, n as int);
    let rest2 = seq![0x77u8] + key_seg(b.keys@, w, b.keys@.len() as int) + seq![0x77u8] + val_seg(
        b.values@,
        w,
        b.values@.len() as int,
    ) + seq![0x77u8];
    assert(l =~= ((hd + nt) + pt) + rest2);
    assert(hd.len() == 3 + 3 * w);
    let i = oid - 1;
    let po = b.ptab_off(w, i);
    // the table offset, right after the type tag
    lemma_node_table_prefix(b, w, i + 1, n as int);
    lemma_node_table(b, w, i + 1);
    lemma_node_table(b, w, i);
    let t = le_bytes(po, w);
    lemma_le_bytes_len(po, w);
    let start = hd.len() + i * (1 + w) + 1;
    assert(i * (1 + w) + 1 + w <= n * (1 + w)) by (nonlinear_arith)
        requires
            0 <= i < n,
    ;
    assert forall|j: int| 0 <= j < w implies l[start + j] == t[j] by {
        assert(l[start + j] == nt[i * (1 + w) + 1 + j]);
        assert(nt[i * (1 + w) + 1 + j] == b.node_table(w, i + 1)[i * (1 + w) + 1 + j]);
    }
    assert(q.n_off(oid) + 1 == start);
    lemma_le_uint_window(l, t, start, w);
    lemma_ptab_off_below(b, w, i);
    lemma_le_round_trip(po, w);
    assert(q.p_off(oid) == po);
    // the entry count, first in the table
    lemma_prop_tables_prefix(b, w, i + 1, n as int);
    lemma_prop_tables_len(b, w, i);
    lemma_prop_tables_len(b, w, i + 1);
    let c = b.nodes@[i].values@.len();
    let tc = le_bytes(c, w);
    lemma_le_bytes_len(c, w);
    assert(3 + n + (n + 3) * w == 3 + 3 * w + n * (1 + w)) by (nonlinear_arith);
    assert(po == hd.len() + nt.len() + w * node_slots(b.nodes@, i));
    assert forall|j: int| 0 <= j < w implies l[po + j] == tc[j] by {
        assert(l[po + j] == pt[w * node_slots(b.nodes@, i) + j]);
        assert(pt[w * node_slots(b.nodes@, i) + j] == b.prop_tables(w, i + 1)[w * node_slots(
            b.nodes@,
            i,
        ) + j]);
    }
    lemma_count_below(b, w, i);
    lemma_le_uint_window(l, tc, po as int, w);
    lemma_le_round_trip(c, w);
}

proof fn lemma_size_fits_width(b: SmDtonBuilder)
    requires
        b.wf(),
    ensures
        b.fixed_total() + b.width() * b.slot_total() < pow256(b.width()),
{
    reveal_with_fuel(pow256, 5);
    let w = b.width();
    if w == 1 {
        assert(w * b.slot_total() == b.slot_total());
    } else if w == 2 {
        assert(w * b.slot_total() == 2 * b.slot_total());
    } else {
        assert(w * b.slot_total() == 4 * b.slot_total());
    }
}

proof fn lemma_ptab_off_below(b: SmDtonBuilder, w: nat, i: int)
    requires
        b.wf(),
        w == b.width(),
        0 <= i < b.nodes@.len(),
    ensures
        b.ptab_off(w, i) < pow256(w),
{
    lemma_size_fits_width(b);
    lemma_node_slots_mono(b.nodes@, i, b.nodes@.len() as int);
    let n = b.nodes@.len();
    let a = node_slots(b.nodes@, i);
    let ns = node_slots(b.nodes@, n as int);
    assert(w * a <= w * ns) by (nonlinear_arith)
        requires
            a <= ns,
    ;
    lemma_layout_arith(w, n, b.keys@.len(), lenblk(b.values@, b.values@.len() as int), ns);
}

proof fn lemma_count_below(b: SmDtonBuilder, w: nat, i: int)
    requires
        b.wf(),
        w == b.width(),
        0 <= i < b.nodes@.len(),
    ensures
        b.nodes@[i].values@.len() < pow256(w),
{
    lemma_size_fits_width(b);
    lemma_node_slots_mono(b.nodes@, i + 1, b.nodes@.len() as int);
    lemma_node_slots_mono(b.nodes@, 0, i);
    let ns = node_slots(b.nodes@, b.nodes@.len() as int);
    assert(b.slot_total() >= ns);
    assert(w * b.slot_total() >= b.slot_total()) by (nonlinear_arith)
        requires
            w >= 1,
    ;
}

/// The node table of the first `i` nodes begins that of the first `k`.
proof fn lemma_node_table_prefix(b: SmDtonBuilder, w: nat, i: int, k: int)
    requires
        0 <= i <= k,
    ensures
        b.node_table(w, i).len() <= b.node_table(w, k).len(),
        forall|x: int| 0 <= x < b.node_table(w, i).len() ==> #[trigger] b.node_table(w, k)[x]
            == b.node_table(w, i)[x],
    decreases k - i,
{
    if i < k {
        lemma_node_table_prefix(b, w, i, k - 1);
    }
}

/// The property tables of the first `i` nodes begin those of the first `k`.
proof fn lemma_prop_tables_prefix(b: SmDtonBuilder, w: nat, i: int, k: int)
    requires
        0 <= i <= k,
    ensures
        b.prop_tables(w, i).len() <= b.prop_tables(w, k).len(),
        forall|x: int| 0 <= x < b.prop_tables(w, i).len() ==> #[trigger] b.prop_tables(w, k)[x]
            == b.prop_tables(w, i)[x],
    decreases k - i,
{
    if i < k {
        lemma_prop_tables_prefix(b, w, i, k - 1);
    }
}

proof fn lemma_le_uint_bound_by_width(b: SmDtonBuilder)
    requires
        b.wf(),
    ensures
        b.nodes@.len() < pow256(b.width()),
{
    reveal_with_fuel(pow256, 5);
}

/// The entries of the first `k` slots begin those of the first `m`.
proof fn lemma_entries_prefix(b: SmDtonBuilder, nd: SmDtonNode, w: nat, k: int, m: int)
    requires
        0 <= k <= m,
    ensures
        b.entries(nd, w, k).len() <= b.entries(nd, w, m).len(),
        forall|x: int| 0 <= x < b.entries(nd, w, k).len() ==> #[trigger] b.entries(nd, w, m)[x]
            == b.entries(nd, w, k)[x],
    decreases m - k,
{
    if k < m {
        lemma_entries_prefix(b, nd, w, k, m - 1);
    }
}

/// Every value offset of a built buffer fits its width.
proof fn lemma_val_off_fits(b: SmDtonBuilder, v: int)
    requires
        b.wf(),
        0 <= v < b.values@.len(),
    ensures
        b.val_off(b.width(), v) < pow256(b.width()),
{
    let w = b.width();
    let n = b.nodes@.len();
    let knum = b.keys@.len();
    let vnum = b.values@.len();
    lemma_size_fits_width(b);
    lemma_val_seg_len_mono(b.values@, w, v, vnum as int);
    lemma_key_seg_len_split(b.keys@, w, knum as int);
    lemma_val_seg_len_split(b.values@, w, vnum as int);
    let ns = node_slots(b.nodes@, n as int);
    let lb = lenblk(b.values@, vnum as int);
    lemma_layout_arith(w, n, knum, lb, ns);
}

/// Every key offset of a built buffer fits its width.
proof fn lemma_key_off_fits(b: SmDtonBuilder, kk: int)
    requires
        b.wf(),
        0 <= kk < b.keys@.len(),
    ensures
        b.key_off(b.width(), kk) < pow256(b.width()),
{
    let w = b.width();
    let n = b.nodes@.len();
    let knum = b.keys@.len();
    let vnum = b.values@.len();
    lemma_size_fits_width(b);
    lemma_key_seg_len_mono(b.keys@, w, kk, knum as int);
    lemma_key_seg_len_split(b.keys@, w, knum as int);
    lemma_val_seg_len_split(b.values@, w, vnum as int);
    let ns = node_slots(b.nodes@, n as int);
    let lb = lenblk(b.values@, vnum as int);
    lemma_layout_arith(w, n, knum, lb, ns);
}

/// The entries of node `i` stand in a built buffer right after its entry
/// count.
proof fn lemma_entries_located(b: SmDtonBuilder, i: int)
    requires
        b.wf(),
        0 <= i < b.nodes@.len(),
    ensures
        ({
            let w = b.width();
            let nd = b.nodes@[i];
            let e = b.entries(nd, w, nd.values@.len() as int);
            let po = b.ptab_off(w, i);
            &&& po + w + e.len() <= b.layout(w).len()
            &&& forall|y: int| 0 <= y < e.len() ==> #[trigger] b.layout(w)[po + w + y] == e[y]
        }),
{
    let w = b.width();
    let n = b.nodes@.len();
    let nd = b.nodes@[i];
    let cnt = nd.values@.len();
    let hd = b.header(w);
    let nt = b.node_table(w, n as int);
    let pt = b.prop_tables(w, n as int);
    let l = b.layout(w);
    lemma_le_bytes_len(n, w);
    lemma_le_bytes_len(b.keys@.len(), w);
    lemma_le_bytes_len(b.values@.len(), w);
    lemma_node_table(b, w, n as int);
    lemma_prop_tables_len(b, w, n as int);
    let rest2 = seq![0x77u8] + key_seg(b.keys@, w, b.keys@.len() as int) + seq![0x77u8] + val_seg(
        b.values@,
        w,
        b.values@.len() as int,
    ) + seq![0x77u8];
    assert(l =~= ((hd + nt) + pt) + rest2);
    let po = b.ptab_off(w, i);
    assert(3 + n + (n + 3) * w == 3 + 3 * w + n * (1 + w)) by (nonlinear_arith);
    assert(po == hd.len() + nt.len() + w * node_slots(b.nodes@, i));
    lemma_prop_tables_prefix(b, w, i + 1, n as int);
    lemma_prop_tables_len(b, w, i);
    lemma_prop_tables_len(b, w, i + 1);
    lemma_le_bytes_len(cnt, w);
    let e = b.entries(nd, w, cnt as int);
    assert forall|y: int| 0 <= y < e.len() implies #[trigger] l[po + w + y] == e[y] by {
        assert(l[po + w + y] == pt[w * node_slots(b.nodes@, i) + w + y]);
        assert(pt[w * node_slots(b.nodes@, i) + w + y] == b.prop_tables(w, i + 1)[w * node_slots(
            b.nodes@,
            i,
        ) + w + y]);
    }
}

/// A reader over a built buffer finds entry `k` of node `oid` where the
/// builder put it: its value offset and, in a map node, its key offset.
#[verifier::rlimit(80)]
pub proof fn lemma_entry_read_back(b: SmDtonBuilder, q: SmDtonReader, oid: int, k: int)
    requires
        b.wf(),
        reads(q, b.layout(b.width())),
        1 <= oid <= b.nodes@.len(),
        0 <= k < b.nodes@[oid - 1].values@.len(),
    ensures
        q.sub_voff(oid, k) == b.val_off(b.width(), b.nodes@[oid - 1].values@[k] as int),
        b.nodes@[oid - 1].smdt == ST::SMDT_MAP ==> q.rd(q.pair_off(q.p_off(oid) as int, k))
            == b.key_off(b.width(), b.nodes@[oid - 1].keys@[k] as int),
{
    lemma_built_nodes_read_back(b, q);
    let w = b.width();
    let i = oid - 1;
    let nd = b.nodes@[i];
    assert(b.node_ok(i));
    let cnt = nd.values@.len();
    let is_map = nd.keys@.len() > 0;
    let c: nat = if is_map { 2 * w } else { w };
    let l = b.layout(w);
    let po = b.ptab_off(w, i);
    lemma_entries_located(b, i);
    let e_all = b.entries(nd, w, cnt as int);
    lemma_entries_prefix(b, nd, w, k + 1, cnt as int);
    lemma_entries_len(b, nd, w, k);
    lemma_entries_len(b, nd, w, k + 1);
    let ek1 = b.entries(nd, w, k + 1);
    let vo = b.val_off(w, nd.values@[k] as int);
    lemma_le_bytes_len(vo, w);
    lemma_val_off_fits(b, nd.values@[k] as int);
    assert((k + 1) * c == k * c + c) by (nonlinear_arith);
    let voff_in = if is_map { k * c + w } else { k * c };
    assert forall|j: int| 0 <= j < w implies l[po + w + voff_in + j] == le_bytes(vo, w)[j] by {
        let y = voff_in + j;
        assert(l[po + w + y] == e_all[y]);
        assert(e_all[y] == ek1[y]);
        assert(ek1[y] == le_bytes(vo, w)[j]);
    }
    lemma_le_uint_window(l, le_bytes(vo, w), po + w + voff_in, w);
    lemma_le_round_trip(vo, w);
    assert(q.p_off(oid) == po);
    assert(q.type_of(oid) == nd.smdt);
    if nd.smdt == ST::SMDT_MAP {
        let ko = b.key_off(w, nd.keys@[k] as int);
        lemma_le_bytes_len(ko, w);
        lemma_key_off_fits(b, nd.keys@[k] as int);
        assert(2 * w * k == k * c) by (nonlinear_arith)
            requires
                c == 2 * w,
        ;
        assert forall|j: int| 0 <= j < w implies l[po + w + k * c + j] == le_bytes(ko, w)[j] by {
            let y = k * c + j;
            assert(l[po + w + y] == e_all[y]);
            assert(e_all[y] == ek1[y]);
            assert(ek1[y] == le_bytes(ko, w)[j]);
        }
        lemma_le_uint_window(l, le_bytes(ko, w), po + w + k * c, w);
        lemma_le_round_trip(ko, w);
    } else {
        assert(w * k == k * c) by (nonlinear_arith)
            requires
                c == w,
        ;
    }
}

/// The key entries of the first `k` keys begin those of the first `m`.
proof fn lemma_key_seg_prefix(keys: Seq<Vec<u8>>, w: nat, k: int, m: int)
    requires
        0 <= k <= m,
    ensures
        key_seg(keys, w, k).len() <= key_seg(keys, w, m).len(),
        forall|x: int| 0 <= x < key_seg(keys, w, k).len() ==> #[trigger] key_seg(keys, w, m)[x]
            == key_seg(keys, w, k)[x],
    decreases m - k,
{
    if k < m {
        lemma_key_seg_prefix(keys, w, k, m - 1);
    }
}

/// Key `kk`'s entry stands in a built buffer at its key offset.
proof fn lemma_key_located(b: SmDtonBuilder, kk: int)
    requires
        b.wf(),
        0 <= kk < b.keys@.len(),
    ensures
        ({
            let w = b.width();
            let ke = key_entry(b.keys@[kk]@, w);
            let ko = b.key_off(w, kk);
            &&& ko + ke.len() <= b.layout(w).len()
            &&& forall|y: int| 0 <= y < ke.len() ==> #[trigger] b.layout(w)[ko + y] == ke[y]
        }),
{
    let w = b.width();
    let n = b.nodes@.len();
    let knum = b.keys@.len();
    let hd = b.header(w);
    let nt = b.node_table(w, n as int);
    let pt = b.prop_tables(w, n as int);
    let ks = key_seg(b.keys@, w, knum as int);
    let l = b.layout(w);
    lemma_le_bytes_len(n, w);
    lemma_le_bytes_len(knum, w);
    lemma_le_bytes_len(b.values@.len(), w);
    lemma_node_table(b, w, n as int);
    lemma_prop_tables_len(b, w, n as int);
    let front = hd + nt + pt + seq![0x77u8];
    let rest3 = seq![0x77u8] + val_seg(b.values@, w, b.values@.len() as int) + seq![0x77u8];
    assert(l =~= (front + ks) + rest3);
    let ns = node_slots(b.nodes@, n as int);
    assert(4 + n + (3 + n + ns) * w == 3 + 3 * w + n * (1 + w) + w * ns + 1) by (nonlinear_arith);
    assert(front.len() == b.kseg_off(w));
    lemma_key_seg_prefix(b.keys@, w, kk + 1, knum as int);
    lemma_key_seg_len_exact(b.keys@, w, kk);
    lemma_key_seg_len_exact(b.keys@, w, kk + 1);
    let key = b.keys@[kk]@;
    lemma_le_bytes_len(key.len() + 1, w);
    let ke = key_entry(key, w);
    let at = key_seg_len(b.keys@, w, kk);
    let ko = b.key_off(w, kk);
    assert(ko == front.len() + at);
    assert forall|y: int| 0 <= y < ke.len() implies #[trigger] l[ko + y] == ke[y] by {
        assert(l[ko + y] == ks[at + y]);
        assert(ks[at + y] == key_seg(b.keys@, w, kk + 1)[at + y]);
    }
}

/// A reader over a built buffer reads each staged key's text back.
pub proof fn lemma_key_read_back(b: SmDtonBuilder, q: SmDtonReader, kk: int)
    requires
        b.wf(),
        reads(q, b.layout(b.width())),
        0 <= kk < b.keys@.len(),
    ensures
        q.key_text(b.key_off(b.width(), kk) as int) == Some(b.keys@[kk]@),
{
    lemma_built_nodes_read_back(b, q);
    lemma_key_located(b, kk);
    let w = b.width();
    let l = b.layout(w);
    let key = b.keys@[kk]@;
    let len = key.len();
    let ko = b.key_off(w, kk);
    let ke = key_entry(key, w);
    lemma_le_bytes_len(len + 1, w);
    assert forall|j: int| 0 <= j < w implies #[trigger] l[ko + j] == le_bytes(len + 1, w)[j] by {
        assert(l[ko + j] == ke[j]);
    }
    lemma_key_off_fits(b, kk);
    lemma_key_len_fits(b, kk);
    lemma_le_uint_window(l, le_bytes(len + 1, w), ko as int, w);
    lemma_le_round_trip(len + 1, w);
    assert(q.rd(ko as int) == len + 1);
    assert(l.subrange((ko + w) as int, (ko + w + len) as int) =~= key) by {
        assert forall|j: int| 0 <= j < len implies #[trigger] l.subrange((ko + w) as int, (ko + w + len) as int)[j] == key[j] by {
            assert(l[ko + (w + j)] == ke[w + j]);
        }
    }
}

/// A staged key's length field fits the width.
proof fn lemma_key_len_fits(b: SmDtonBuilder, kk: int)
    requires
        b.wf(),
        0 <= kk < b.keys@.len(),
    ensures
        b.keys@[kk]@.len() + 1 < pow256(b.width()),
{
    let w = b.width();
    let knum = b.keys@.len();
    lemma_size_fits_width(b);
    lemma_key_seg_len_mono(b.keys@, 0, kk + 1, knum as int);
    assert(b.fixed_total() >= key_seg_len(b.keys@, 0, knum as int));
    assert(w * b.slot_total() >= 0) by (nonlinear_arith);
}

/// Entry `k` of a map node of a built buffer reads back with the key text it
/// was added under.
pub proof fn lemma_entry_key_read_back(b: SmDtonBuilder, q: SmDtonReader, oid: int, k: int)
    requires
        b.wf(),
        reads(q, b.layout(b.width())),
        1 <= oid <= b.nodes@.len(),
        b.nodes@[oid - 1].smdt == ST::SMDT_MAP,
        0 <= k < b.nodes@[oid - 1].values@.len(),
    ensures
        q.sub_key_bytes(oid, k) == Some(b.keys@[b.nodes@[oid - 1].keys@[k] as int]@),
{
    lemma_built_nodes_read_back(b, q);
    lemma_entry_read_back(b, q, oid, k);
    assert(b.node_ok(oid - 1));
    lemma_key_read_back(b, q, b.nodes@[oid - 1].keys@[k] as int);
}

/// The value entries of the first `k` values begin those of the first `m`.
proof fn lemma_val_seg_prefix(values: Seq<SmDtonData>, w: nat, k: int, m: int)
    requires
        0 <= k <= m,
    ensures
        val_seg(values, w, k).len() <= val_seg(values, w, m).len(),
        forall|x: int| 0 <= x < val_seg(values, w, k).len() ==> #[trigger] val_seg(values, w, m)[x]
            == val_seg(values, w, k)[x],
    decreases m - k,
{
    if k < m {
        lemma_val_seg_prefix(values, w, k, m - 1);
    }
}

/// Value `v`'s entry stands in a built buffer at its value offset.
proof fn lemma_value_located(b: SmDtonBuilder, v: int)
    requires
        b.wf(),
        0 <= v < b.values@.len(),
    ensures
        ({
            let w = b.width();
            let ve = b.values@[v].encoded(w);
            let vo = b.val_off(w, v);
            &&& vo + ve.len() <= b.layout(w).len()
            &&& forall|y: int| 0 <= y < ve.len() ==> #[trigger] b.layout(w)[vo + y] == ve[y]
        }),
{
    let w = b.width();
    let n = b.nodes@.len();
    let knum = b.keys@.len();
    let vnum = b.values@.len();
    let hd = b.header(w);
    let nt = b.node_table(w, n as int);
    let pt = b.prop_tables(w, n as int);
    let ks = key_seg(b.keys@, w, knum as int);
    let vs = val_seg(b.values@, w, vnum as int);
    let l = b.layout(w);
    lemma_le_bytes_len(n, w);
    lemma_le_bytes_len(knum, w);
    lemma_le_bytes_len(vnum, w);
    lemma_node_table(b, w, n as int);
    lemma_prop_tables_len(b, w, n as int);
    lemma_key_seg_len_exact(b.keys@, w, knum as int);
    lemma_key_seg_len_split(b.keys@, w, knum as int);
    let front = hd + nt + pt + seq![0x77u8] + ks + seq![0x77u8];
    assert(l =~= (front + vs) + seq![0x77u8]);
    let ns = node_slots(b.nodes@, n as int);
    assert(4 + n + (3 + n + ns) * w == 3 + 3 * w + n * (1 + w) + w * ns + 1) by (nonlinear_arith);
    assert(front.len() == b.vseg_off(w));
    lemma_val_seg_prefix(b.values@, w, v + 1, vnum as int);
    lemma_val_seg_len_exact(b.values@, w, v);
    lemma_val_seg_len_exact(b.values@, w, v + 1);
    let ve = b.values@[v].encoded(w);
    let at = val_seg_len(b.values@, w, v);
    let vo = b.val_off(w, v);
    assert(vo == front.len() + at);
    assert forall|y: int| 0 <= y < ve.len() implies #[trigger] l[vo + y] == ve[y] by {
        assert(l[vo + y] == vs[at + y]);
        assert(vs[at + y] == val_seg(b.values@, w, v + 1)[at + y]);
    }
}

/// A reader over a built buffer reads each staged value back at its offset:
/// its type tag, its length-or-id field, and its payload bytes.
pub proof fn lemma_value_read_back(b: SmDtonBuilder, q: SmDtonReader, v: int)
    requires
        b.wf(),
        reads(q, b.layout(b.width())),
        0 <= v < b.values@.len(),
    ensures
        ({
            let w = b.width();
            let d = b.values@[v];
            let vo = b.val_off(w, v) as int;
            let start = vo + 1 + (if d.has_len { w } else { 0 });
            &&& q.byte(vo) == Some(d.smdt)
            &&& d.has_len && d.len_field() < pow256(w) ==> q.rd(vo + 1) == d.len_field()
            &&& start + d.v8a@.len() <= q.u8a@.len()
            &&& q.u8a@.subrange(start, start + d.v8a@.len()) == d.v8a@
        }),
{
    lemma_built_nodes_read_back(b, q);
    lemma_value_located(b, v);
    let w = b.width();
    let l = b.layout(w);
    let d = b.values@[v];
    assert(d.wf());
    let vo = b.val_off(w, v) as int;
    let ve = d.encoded(w);
    let lf = if d.has_len { int_bytes(d.len_field(), w) } else { Seq::empty() };
    lemma_le_bytes_len(d.len_field(), w);
    assert(ve =~= seq![d.smdt] + lf + d.v8a@);
    assert(l[vo + 0] == ve[0]);
    if d.has_len && d.len_field() < pow256(w) {
        assert forall|j: int| 0 <= j < w implies #[trigger] l[vo + 1 + j] == le_bytes(d.len_field(), w)[j] by {
            assert(l[vo + (1 + j)] == ve[1 + j]);
        }
        lemma_le_uint_window(l, le_bytes(d.len_field(), w), vo + 1, w);
        lemma_le_round_trip(d.len_field(), w);
    }
    let start = vo + 1 + lf.len();
    let end = start + d.v8a@.len();
    assert(l.subrange(start, end) =~= d.v8a@) by {
        assert forall|j: int| 0 <= j < d.v8a@.len() implies #[trigger] l.subrange(start, end)[j] == d.v8a@[j] by {
            assert(l[vo + (1 + lf.len() + j)] == ve[1 + lf.len() + j]);
        }
    }
}

/// Looking a key up in a map node of a built buffer finds the value added
/// last under that key.
pub proof fn lemma_built_lookup_latest(b: SmDtonBuilder, q: SmDtonReader, oid: int, kbs: Seq<u8>, k: int)
    requires
        b.wf(),
        reads(q, b.layout(b.width())),
        1 <= oid <= b.nodes@.len(),
        b.nodes@[oid - 1].smdt == ST::SMDT_MAP,
        0 <= k < b.nodes@[oid - 1].values@.len(),
        b.keys@[b.nodes@[oid - 1].keys@[k] as int]@ == kbs,
        forall|m: int|
            k < m < b.nodes@[oid - 1].values@.len() ==> b.keys@[#[trigger] b.nodes@[oid
                - 1].keys@[m] as int]@ != kbs,
    ensures
        q.field_voff(oid, kbs) == b.val_off(b.width(), b.nodes@[oid - 1].values@[k] as int),
{
    lemma_built_nodes_read_back(b, q);
    let nd = b.nodes@[oid - 1];
    let p = q.p_off(oid) as int;
    let cnt = nd.values@.len() as int;
    assert forall|m: int| 0 <= m < cnt implies #[trigger] q.key_is(p, m, kbs) == (b.keys@[nd.keys@[m] as int]@
        == kbs) by {
        lemma_entry_key_read_back(b, q, oid, m);
    }
    lemma_entry_read_back(b, q, oid, k);
    lemma_latest_field_wins(q, p, cnt, kbs, k);
}

/// A fixed-width value staged in a built buffer reads back as the integer
/// its payload holds.
pub proof fn lemma_fixed_read_back(b: SmDtonBuilder, q: SmDtonReader, v: int, tag: u8, n: nat, u: nat)
    requires
        b.wf(),
        reads(q, b.layout(b.width())),
        0 <= v < b.values@.len(),
        b.values@[v].is_fixed(tag, le_bytes(u, n)),
        u < pow256(n),
    ensures
        q.fixed_at(b.val_off(b.width(), v) as int, tag, n) == Some(u),
{
    lemma_value_read_back(b, q, v);
    let vo = b.val_off(b.width(), v) as int;
    let d = b.values@[v];
    lemma_le_bytes_len(u, n);
    assert forall|j: int| 0 <= j < n implies q.u8a@[vo + 1 + j] == le_bytes(u, n)[j] by {
        assert(q.u8a@.subrange(vo + 1, vo + 1 + n)[j] == d.v8a@[j]);
    }
    lemma_le_uint_window(q.u8a@, le_bytes(u, n), vo + 1, n);
    lemma_le_round_trip(u, n);
}

/// A signed integer of `w` bytes survives its two's-complement form.
pub proof fn lemma_signed_twos(x: int, w: nat)
    requires
        w == 2 || w == 4 || w == 8,
        -pow256(w) / 2 <= x < pow256(w) / 2,
    ensures
        twos(x, w) < pow256(w),
        signed(twos(x, w), w) == x,
{
    reveal_with_fuel(pow256, 9);
}

/// A staged value's payload length fits the width.
proof fn lemma_value_len_fits(b: SmDtonBuilder, v: int)
    requires
        b.wf(),
        0 <= v < b.values@.len(),
    ensures
        b.values@[v].len < pow256(b.width()),
{
    let vnum = b.values@.len() as int;
    lemma_size_fits_width(b);
    lemma_vdata_mono(b.values@, v + 1, vnum);
    assert(b.width() * b.slot_total() >= 0) by (nonlinear_arith);
}

proof fn lemma_vdata_mono(values: Seq<SmDtonData>, i: int, j: int)
    requires
        i <= j,
    ensures
        vdata(values, i) <= vdata(values, j),
    decreases j - i,
{
    if i < j {
        lemma_vdata_mono(values, i, j - 1);
    }
}

/// Where `j` is a `$B64$`-marked string, the base64 after the marker is in
/// canonical form: encoding what it decodes to gives it back.
pub open spec fn canonical_b64(j: JsonNode) -> bool {
    match j {
        JsonNode::Str(s) => {
            let t = encode_utf8(s@);
            marked(t) ==> match SmDtonData::b64_of(t) {
                Some(d) => s@ == b64_mark_text() + base64_text(d),
                None => false,
            }
        },
        _ => true,
    }
}

/// A scalar staged from JSON reads back from a built buffer as the same
/// JSON value: booleans and integers (as `i64` or `u64`), floats by their
/// bits, strings as their text, and a `$B64$` string whose base64 is in
/// canonical form as that very string.
pub proof fn lemma_scalar_round_trip(b: SmDtonBuilder, q: SmDtonReader, v: int, j: JsonNode, depth: nat)
    requires
        b.wf(),
        reads(q, b.layout(b.width())),
        0 <= v < b.values@.len(),
        scalar_ok(j, b.values@[v]),
        canonical_b64(j),
    ensures
        q.value_json_is(j, b.val_off(b.width(), v) as int, depth),
{
    lemma_built_nodes_read_back(b, q);
    lemma_value_read_back(b, q, v);
    let w = b.width();
    let vo = b.val_off(w, v) as int;
    let d = b.values@[v];
    reveal_with_fuel(pow256, 9);
    reveal_with_fuel(le_bytes, 9);
    match j {
        JsonNode::Bool(x) => {
            let u: nat = if x { 1 } else { 0 };
            assert(le_bytes(u, 1) =~= seq![if x { 1u8 } else { 0u8 }]);
            lemma_fixed_read_back(b, q, v, ST::SMDT_BOO, 1, u);
        },
        JsonNode::Int(x) => {
            lemma_signed_twos(x as int, 8);
            lemma_fixed_read_back(b, q, v, ST::SMDT_I64, 8, twos(x as int, 8));
        },
        JsonNode::UInt(x) => {
            lemma_fixed_read_back(b, q, v, ST::SMDT_U64, 8, x as nat);
        },
        JsonNode::Float32(x) => {
            lemma_fixed_read_back(b, q, v, ST::SMDT_F32, 4, x as nat);
        },
        JsonNode::Float64(x) => {
            lemma_fixed_read_back(b, q, v, ST::SMDT_F64, 8, x as nat);
        },
        JsonNode::Str(s) => {
            let t = encode_utf8(s@);
            assert(q.scalar_json(vo) is None);
            lemma_value_len_fits(b, v);
            assert(d.wf());
            if marked(t) {
                assert(q.span_at(vo, ST::SMDT_B64, 0) =~= Some(d.v8a@));
            } else {
                encode_utf8_decode_utf8(s@);
                encode_utf8_valid_utf8(s@);
                let start = vo + 1 + w;
                assert(q.u8a@.subrange(start, start + d.len - 1) =~= t) by {
                    assert forall|k: int| 0 <= k < t.len() implies #[trigger] q.u8a@.subrange(start, start + d.len - 1)[k] == t[k] by {
                        assert(q.u8a@.subrange(start, start + d.v8a@.len())[k] == d.v8a@[k]);
                    }
                }
                assert(q.span_at(vo, ST::SMDT_STR, 1) == Some(t));
            }
        },
        _ => {},
    }
}

/// A scalar that staging put into map node `up` under `key` is what a lookup
/// of `key` in the buffer built afterwards finds, and it reads back as the
/// same JSON value.
pub proof fn lemma_staged_field_round_trip(
    b1: SmDtonBuilder,
    b2: SmDtonBuilder,
    q: SmDtonReader,
    up: usize,
    key: Seq<u8>,
    j: JsonNode,
    depth: nat,
)
    requires
        b1.wf(),
        b2.wf(),
        b1.can_add(up, key.len(), stage_len(j)),
        stages_scalar(b1, b2, up, true, key, j),
        !(j is Null) && !(j is Object) && !(j is Array),
        canonical_b64(j),
        reads(q, b2.layout(b2.width())),
    ensures
        q.field_voff(up as int, key) == b2.val_off(b2.width(), b1.values@.len() as int),
        q.value_json_is(j, q.field_voff(up as int, key) as int, depth),
{
    let i = up - 1;
    let nd = b2.nodes@[i];
    let k = nd.values@.len() - 1;
    assert(b1.adds(&b2, up, key));
    assert(nd.values@ == b1.nodes@[i].values@.push(b1.values@.len() as usize));
    assert(nd.smdt == ST::SMDT_MAP);
    assert(nd.values@[k] == b1.values@.len());
    assert(b2.node_ok(i));
    lemma_entry_key_read_back(b2, q, up as int, k);
    assert(b2.keys@[nd.keys@[k] as int]@ == key);
    lemma_built_lookup_latest(b2, q, up as int, key, k);
    assert(b2.values@[b1.values@.len() as int] == b2.last_value());
    lemma_scalar_round_trip(b2, q, b1.values@.len() as int, j, depth);
}

/// Node 1 of `t` is the only node, a map node whose first `m` entries hold
/// the first `m` members of `v`: each key's text, each value as staged.
pub open spec fn members_staged(t: SmDtonBuilder, v: Seq<(String, JsonNode)>, m: int) -> bool {
    &&& t.nodes@.len() == 1
    &&& t.nodes@[0].smdt == ST::SMDT_MAP
    &&& t.nodes@[0].values@.len() == m
    &&& forall|k: int|
        0 <= k < m ==> t.keys@[t.nodes@[0].keys@[k] as int]@ == encode_utf8((#[trigger] v[k]).0@)
            && scalar_ok(v[k].1, t.values@[t.nodes@[0].values@[k] as int])
}

/// Whether `j` is a value staging stores as one entry.
pub open spec fn is_scalar(j: JsonNode) -> bool {
    !(j is Null) && !(j is Object) && !(j is Array)
}

/// One member step: a staged scalar member either extends the entries by
/// one or leaves the builder as it was.
proof fn lemma_member_step(t1: SmDtonBuilder, t2: SmDtonBuilder, v: Seq<(String, JsonNode)>, m: int)
    requires
        t1.wf(),
        t2.wf(),
        0 <= m < v.len(),
        is_scalar(v[m].1),
        t1.nodes@.len() == 1,
        t1.nodes@[0].smdt == ST::SMDT_MAP,
        stages_scalar(t1, t2, 1, true, encode_utf8(v[m].0@), v[m].1),
    ensures
        t2.nodes@.len() == 1,
        t2.nodes@[0].smdt == ST::SMDT_MAP,
        t2.nodes@[0].values@.len() <= t1.nodes@[0].values@.len() + 1,
        t2.nodes@[0].values@.len() == t1.nodes@[0].values@.len() + 1 && members_staged(t1, v, m)
            ==> members_staged(t2, v, m + 1),
{
    let key = encode_utf8(v[m].0@);
    if t1.can_add(1, key.len(), stage_len(v[m].1)) {
        assert(t1.adds(&t2, 1, key));
        if members_staged(t1, v, m) {
            assert(t1.node_ok(0));
            assert forall|k: int| 0 <= k < m + 1 implies t2.keys@[t2.nodes@[0].keys@[k] as int]@ == encode_utf8((#[trigger] v[k]).0@)
                && scalar_ok(v[k].1, t2.values@[t2.nodes@[0].values@[k] as int]) by {
                if k < m {
                    assert(t2.nodes@[0].keys@[k] == t1.nodes@[0].keys@[k]);
                    assert(t2.nodes@[0].values@[k] == t1.nodes@[0].values@[k]);
                    let kid = t1.nodes@[0].keys@[k] as int;
                    let vid = t1.nodes@[0].values@[k] as int;
                    assert(t2.keys@.take(t1.keys@.len() as int)[kid] == t2.keys@[kid]);
                    assert(t2.values@.take(t1.values@.len() as int)[vid] == t2.values@[vid]);
                } else {
                    assert(t2.values@[t1.values@.len() as int] == t2.last_value());
                }
            }
        }
    }
}

/// Along the member steps, the entry count never runs ahead of the step,
/// and where it keeps pace every member so far is staged.
proof fn lemma_member_chain(s: Seq<SmDtonBuilder>, v: Seq<(String, JsonNode)>, i: int)
    requires
        s.len() == v.len() + 2,
        forall|k: int| 0 <= k < s.len() ==> (#[trigger] s[k]).wf(),
        forall|k: int| 0 <= k < v.len() ==> is_scalar((#[trigger] v[k]).1),
        forall|k: int|
            0 <= k < v.len() ==> staged(s[k + 1], s[k + 2], 1, true, encode_utf8((#[trigger] v[k]).0@), v[k].1),
        members_staged(s[1], v, 0),
        0 <= i <= v.len(),
    ensures
        s[i + 1].nodes@.len() == 1,
        s[i + 1].nodes@[0].smdt == ST::SMDT_MAP,
        s[i + 1].nodes@[0].values@.len() <= i,
        s[i + 1].nodes@[0].values@.len() == i ==> members_staged(s[i + 1], v, i),
    decreases i,
{
    if i > 0 {
        lemma_member_chain(s, v, i - 1);
        let m = i - 1;
        assert(is_scalar(v[m].1));
        assert(staged(s[m + 1], s[m + 2], 1, true, encode_utf8(v[m].0@), v[m].1));
        assert(stages_scalar(s[m + 1], s[m + 2], 1, true, encode_utf8(v[m].0@), v[m].1));
        assert(s[m + 1].wf() && s[m + 2].wf());
        lemma_member_step(s[m + 1], s[m + 2], v, m);
    }
}

/// A value's JSON form shows only where it has one.
proof fn lemma_json_is_present(q: SmDtonReader, j: JsonNode, vo: int, depth: nat)
    requires
        q.value_json_is(j, vo, depth),
    ensures
        q.present(vo, depth),
{
    match q.byte(vo) {
        Some(t) => {
            if q.scalar_json(vo) is None && t != ST::SMDT_STR && t != ST::SMDT_BIN && t
                != ST::SMDT_B64 && (t == ST::SMDT_MAP || t == ST::SMDT_ARR) {
                let next = q.rd(vo + 1) as int;
                assert(depth > 0);
                assert(q.node_json_is(j, next, (depth - 1) as nat));
                assert(q.has_node(next));
            }
        },
        None => {},
    }
}

/// A JSON object whose members are scalars with distinct keys reads back,
/// after staging it as a root and building, as that very object: each
/// member in order, under its key, with its value (integers as `i64`,
/// floats by their bits, `$B64$` strings in canonical form unchanged).
/// Holds where every member was staged, that is, the buffer stayed
/// addressable.
pub proof fn lemma_flat_object_round_trip(b0: SmDtonBuilder, b: SmDtonBuilder, q: SmDtonReader, j: JsonNode, depth: nat)
    requires
        built_from(b0, b, j),
        j is Object,
        forall|i: int|
            0 <= i < j->Object_0@.len() ==> is_scalar((#[trigger] j->Object_0@[i]).1) && canonical_b64(
                j->Object_0@[i].1,
            ),
        forall|i: int, k: int|
            0 <= i < j->Object_0@.len() && 0 <= k < j->Object_0@.len() && i != k ==> (#[trigger] j->Object_0@[i]).0@
                != (#[trigger] j->Object_0@[k]).0@,
        b.wf(),
        b.nodes@.len() >= 1,
        b.nodes@[0].values@.len() == j->Object_0@.len(),
        reads(q, b.layout(b.width())),
    ensures
        q.node_json_is(j, 1, depth),
{
    let v = j->Object_0@;
    let n = v.len();
    let s = choose|s: Seq<SmDtonBuilder>|
        {
            &&& s.len() == v.len() + 2
            &&& forall|i: int| 0 <= i < s.len() ==> (#[trigger] s[i]).wf()
            &&& creates(b0, s[0], ST::SMDT_MAP)
            &&& links(s[0], s[1], 0, false, Seq::empty(), next_id(b0))
            &&& forall|i: int|
                0 <= i < v.len() ==> staged(
                    s[i + 1],
                    s[i + 2],
                    next_id(b0),
                    true,
                    encode_utf8((#[trigger] v[i]).0@),
                    v[i].1,
                )
            &&& s.last() == b
        };
    assert(b0.weight() + 9 <= SIZE_LIMIT);
    assert(next_id(b0) == 1);
    assert(members_staged(s[1], v, 0));
    lemma_member_chain(s, v, n as int);
    assert(s[n as int + 1] == b);
    assert(members_staged(b, v, n as int));
    // the reader's side
    lemma_built_nodes_read_back(b, q);
    assert(q.is_container(1));
    lemma_member_fields(b, q, v, depth, n as int);
    assert(v.take(n as int) =~= v);
}

/// The first `m` entries of node 1 read back as the first `m` members.
proof fn lemma_member_fields(b: SmDtonBuilder, q: SmDtonReader, v: Seq<(String, JsonNode)>, depth: nat, m: int)
    requires
        b.wf(),
        reads(q, b.layout(b.width())),
        members_staged(b, v, v.len() as int),
        forall|i: int| 0 <= i < v.len() ==> is_scalar((#[trigger] v[i]).1) && canonical_b64(v[i].1),
        forall|i: int, k: int|
            0 <= i < v.len() && 0 <= k < v.len() && i != k ==> (#[trigger] v[i]).0@ != (#[trigger] v[k]).0@,
        0 <= m <= v.len(),
    ensures
        q.fields_are(v.take(m), 1, depth, m),
    decreases m,
{
    if m == 0 {
        assert(v.take(0) =~= Seq::<(String, JsonNode)>::empty());
    } else {
        let k = m - 1;
        lemma_member_fields(b, q, v, depth, k);
        lemma_built_nodes_read_back(b, q);
        assert(b.node_ok(0));
        lemma_entry_key_read_back(b, q, 1, k);
        lemma_entry_read_back(b, q, 1, k);
        let e = v[k];
        let vid = b.nodes@[0].values@[k] as int;
        assert(scalar_ok(e.1, b.values@[vid]));
        lemma_scalar_round_trip(b, q, vid, e.1, depth);
        lemma_json_is_present(q, e.1, q.sub_voff(1, k) as int, depth);
        encode_utf8_valid_utf8(e.0@);
        encode_utf8_decode_utf8(e.0@);
        let g = v.take(k);
        crate::sd_json::lemma_first_key_bounds(g, e.0@, k);
        if crate::sd_json::first_key(g, e.0@, k) >= 0 {
            let f = crate::sd_json::first_key(g, e.0@, k);
            assert(g[f] == v[f]);
        }
        assert(set_one(g, e) =~= v.take(m));
        crate::sd_reader::lemma_fields_step(q, g, e, 1, depth, m);
    }
}

} // verus!

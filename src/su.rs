//! Width selection and little-endian integer helpers.
use vstd::prelude::*;

verus! {

/// The unsigned integer held little-endian in the `w` bytes of `b` from `off`.
pub open spec fn le_uint(b: Seq<u8>, off: int, w: nat) -> nat
    decreases w,
{
    if w == 0 {
        0
    } else {
        b[off] as nat + 256 * le_uint(b, off + 1, (w - 1) as nat)
    }
}

/// The `w` low bytes of `v`, least significant first.
pub open spec fn le_bytes(v: nat, w: nat) -> Seq<u8>
    decreases w,
{
    if w == 0 {
        Seq::empty()
    } else {
        seq![(v % 256) as u8] + le_bytes(v / 256, (w - 1) as nat)
    }
}

/// What the writer emits for the integer `v` at width `w`: its `w` low bytes,
/// or nothing for a width the format does not know.
pub open spec fn int_bytes(v: nat, w: nat) -> Seq<u8> {
    if valid_width(w as int) {
        le_bytes(v, w)
    } else {
        Seq::empty()
    }
}

/// `le_bytes` gives exactly `w` bytes.
pub broadcast proof fn lemma_le_bytes_len(v: nat, w: nat)
    ensures
        #[trigger] le_bytes(v, w).len() == w,
    decreases w,
{
    if w > 0 {
        lemma_le_bytes_len(v / 256, (w - 1) as nat);
    }
}

/// A little-endian integer of `w` bytes is below `256^w`; of at most four
/// bytes, below `2^32`.
pub proof fn lemma_le_uint_bound(b: Seq<u8>, off: int, w: nat)
    ensures
        w <= 4 ==> le_uint(b, off, w) <= 0xFFFF_FFFF,
        w <= 3 ==> le_uint(b, off, w) <= 0xFF_FFFF,
        w <= 2 ==> le_uint(b, off, w) <= 0xFFFF,
        w <= 1 ==> le_uint(b, off, w) <= 0xFF,
    decreases w,
{
    if w > 0 {
        lemma_le_uint_bound(b, off + 1, (w - 1) as nat);
    }
}

/// The integer of width `w` at `off`, or 0 where the width is unknown or the
/// bytes run past the end.
pub open spec fn read_int(b: Seq<u8>, off: int, w: nat) -> nat {
    if valid_width(w as int) && 0 <= off && off + w <= b.len() {
        le_uint(b, off, w)
    } else {
        0
    }
}

/// Whether `w` is one of the offset widths the format knows.
pub open spec fn valid_width(w: int) -> bool {
    w == 1 || w == 2 || w == 4
}

/// The offset width chosen for `fixed` fixed bytes and `slots` offset slots.
pub open spec fn pick_width(fixed: int, slots: int) -> u8 {
    if fixed + slots < 256 {
        1
    } else if fixed + 2 * slots < 65536 {
        2
    } else {
        4
    }
}

/// Picks the narrowest offset width for a buffer of `bv` fixed bytes and `num`
/// offset slots.
pub fn getblkz(bv: usize, num: usize) -> (r: u8)
    ensures
        r == pick_width(bv as int, num as int),
        valid_width(r as int),
{
    if bv < 256 && num < 256 - bv {
        1
    } else if bv < 65536 && num <= (65535 - bv) / 2 {
        2
    } else {
        4
    }
}

/// Reads the little-endian integer of width `oz` at `offset`; 0 for a width
/// the format does not know.
pub fn get_int(u8a: &[u8], offset: usize, oz: usize) -> (r: usize)
    requires
        valid_width(oz as int) ==> offset + oz <= u8a@.len(),
    ensures
        r == (if valid_width(oz as int) {
            le_uint(u8a@, offset as int, oz as nat)
        } else {
            0
        }),
{
    proof {
        reveal_with_fuel(le_uint, 5);
    }
    if oz == 1 {
        u8a[offset] as usize
    } else if oz == 2 {
        u8a[offset] as usize + 256 * (u8a[offset + 1] as usize)
    } else if oz == 4 {
        u8a[offset] as usize + 256 * (u8a[offset + 1] as usize + 256 * (u8a[offset + 2] as usize
            + 256 * (u8a[offset + 3] as usize)))
    } else {
        0
    }
}

/// The width choice switches at the byte budgets: up to 255 fixed bytes
/// plus slots give width 1, from 256 on at least 2; with doubled slots up to
/// 65535 width 2 at most, from 65536 on width 4.
pub proof fn lemma_width_boundary(fixed: int, slots: int)
    requires
        0 <= fixed,
        0 <= slots,
    ensures
        fixed + slots <= 255 ==> pick_width(fixed, slots) == 1,
        fixed + slots >= 256 ==> pick_width(fixed, slots) >= 2,
        fixed + slots >= 256 && fixed + 2 * slots <= 65535 ==> pick_width(fixed, slots) == 2,
        fixed + 2 * slots >= 65536 ==> pick_width(fixed, slots) == 4,
{
}

/// An integer below `256^w`, written at width `w`, reads back unchanged:
/// the integer fields of a buffer round-trip.
pub proof fn lemma_int_round_trip(v: nat, w: nat)
    requires
        valid_width(w as int),
        v < pow256(w),
    ensures
        read_int(int_bytes(v, w), 0, w) == v,
{
    lemma_le_bytes_len(v, w);
    lemma_le_round_trip(v, w);
}

/// 256 to the power `w`.
pub open spec fn pow256(w: nat) -> nat
    decreases w,
{
    if w == 0 {
        1
    } else {
        256 * pow256((w - 1) as nat)
    }
}

/// Reading back `w` bytes written for `v` below `256^w` gives `v`.
pub proof fn lemma_le_round_trip(v: nat, w: nat)
    requires
        v < pow256(w),
    ensures
        le_uint(le_bytes(v, w), 0, w) == v,
    decreases w,
{
    if w > 0 {
        let rest = le_bytes(v / 256, (w - 1) as nat);
        lemma_le_bytes_len(v / 256, (w - 1) as nat);
        lemma_le_round_trip(v / 256, (w - 1) as nat);
        lemma_le_shift(seq![(v % 256) as u8], rest, (w - 1) as nat);
        assert(le_bytes(v, w) == seq![(v % 256) as u8] + rest);
        assert((seq![(v % 256) as u8] + rest)[0] == (v % 256) as u8);
    }
}

proof fn lemma_le_shift(a: Seq<u8>, b: Seq<u8>, w: nat)
    requires
        a.len() == 1,
        w <= b.len(),
    ensures
        le_uint(a + b, 1, w) == le_uint(b, 0, w),
    decreases w,
{
    if w > 0 {
        lemma_le_shift_at(a, b, 1, w);
    }
}

proof fn lemma_le_shift_at(a: Seq<u8>, b: Seq<u8>, off: int, w: nat)
    requires
        a.len() == 1,
        off >= 1,
        off - 1 + w <= b.len(),
    ensures
        le_uint(a + b, off, w) == le_uint(b, off - 1, w),
    decreases w,
{
    if w > 0 {
        lemma_le_shift_at(a, b, off + 1, (w - 1) as nat);
        assert((a + b)[off] == b[off - 1]);
    }
}

/// A little-endian integer depends only on its own bytes.
pub proof fn lemma_le_uint_window(s: Seq<u8>, t: Seq<u8>, off: int, w: nat)
    requires
        0 <= off,
        off + w <= s.len(),
        t.len() == w,
        forall|i: int| 0 <= i < w ==> s[off + i] == t[i],
    ensures
        le_uint(s, off, w) == le_uint(t, 0, w),
    decreases w,
{
    if w > 0 {
        let t2 = t.subrange(1, w as int);
        assert forall|i: int| 0 <= i < w - 1 implies s[off + 1 + i] == t2[i] by {
            assert(s[off + (i + 1)] == t[i + 1]);
        }
        lemma_le_uint_window(s, t2, off + 1, (w - 1) as nat);
        lemma_le_uint_window(t, t2, 1, (w - 1) as nat);
        assert(s[off + 0] == t[0]);
    }
}

} // verus!

//! The append-only byte writer and the key and value segment layout.
use vstd::prelude::*;

use crate::sd_data::{SmDtonData, ST};
use crate::su::int_bytes;

verus! {

/// Bytes of one key entry: its length with the NUL, its text, a NUL.
pub open spec fn key_entry(k: Seq<u8>, w: nat) -> Seq<u8> {
    int_bytes(k.len() + 1, w) + k + seq![0u8]
}

/// The first `n` key entries, in order.
pub open spec fn key_seg(keys: Seq<Vec<u8>>, w: nat, n: int) -> Seq<u8>
    decreases n,
{
    if n <= 0 {
        Seq::empty()
    } else {
        key_seg(keys, w, n - 1) + key_entry(keys[n - 1]@, w)
    }
}

/// Room that the first `n` key entries take at width `w`.
pub open spec fn key_seg_len(keys: Seq<Vec<u8>>, w: nat, n: int) -> nat
    decreases n,
{
    if n <= 0 {
        0
    } else {
        key_seg_len(keys, w, n - 1) + w + keys[n - 1]@.len() + 1
    }
}

/// The first `n` value entries, in order.
pub open spec fn val_seg(values: Seq<SmDtonData>, w: nat, n: int) -> Seq<u8>
    decreases n,
{
    if n <= 0 {
        Seq::empty()
    } else {
        val_seg(values, w, n - 1) + values[n - 1].encoded(w)
    }
}

/// Room that the first `n` value entries take at width `w`.
pub open spec fn val_seg_len(values: Seq<SmDtonData>, w: nat, n: int) -> nat
    decreases n,
{
    if n <= 0 {
        0
    } else {
        val_seg_len(values, w, n - 1) + 1 + values[n - 1].len as nat + (if values[n - 1].has_len {
            w
        } else {
            0nat
        })
    }
}

/// Every staged value has its payload length right.
pub open spec fn values_wf(values: Seq<SmDtonData>) -> bool {
    forall|i: int| 0 <= i < values.len() ==> (#[trigger] values[i]).wf()
}

/// An append-only byte buffer with a write cursor.
#[derive(Clone)]
pub struct SmDtonBuffer {
    /// Write cursor.
    pub off: usize,
    /// The bytes written.
    pub buf: Vec<u8>,
}

impl SmDtonBuffer {
    /// The cursor stands at the end of what was written.
    pub open spec fn wf(&self) -> bool {
        self.off == self.buf@.len()
    }

    /// The offset width recorded in the header.
    pub open spec fn width(&self) -> nat {
        self.buf@[1] as nat
    }

    /// Whether the header's first two bytes are written.
    pub open spec fn started(&self) -> bool {
        self.wf() && self.buf@.len() >= 2
    }

    pub fn new() -> (r: Self)
        ensures
            r.wf(),
            r.buf@.len() == 0,
    {
        SmDtonBuffer { off: 0, buf: Vec::new() }
    }

    pub fn get_buffer(&self) -> (r: &[u8])
        ensures
            r@ == self.buf@,
    {
        self.buf.as_slice()
    }

    pub fn is_empty(&self) -> (r: bool)
        ensures
            r == (self.buf@.len() == 0),
    {
        self.buf.len() == 0
    }

    /// Starts a buffer of `size` bytes: the format tag and the width `oz`.
    pub fn build_start(&mut self, size: usize, oz: usize)
        ensures
            final(self).buf@ == seq![ST::SMTY_DTR, (oz % 256) as u8],
            final(self).started(),
    {
        self.buf = Vec::with_capacity(size);
        self.buf.push(ST::SMTY_DTR);
        self.buf.push((oz % 256) as u8);
        self.off = 2;
        assert(self.buf@ =~= seq![ST::SMTY_DTR, (oz % 256) as u8]);
    }

    pub fn build_put_u8(&mut self, b: u8)
        requires
            old(self).wf(),
        ensures
            final(self).buf@ == old(self).buf@.push(b),
            final(self).wf(),
    {
        self.buf.push(b);
        self.off = self.buf.len();
    }

    /// Appends the first `len` bytes of `bytes`.
    pub fn build_put_bin(&mut self, bytes: &[u8], len: usize)
        requires
            old(self).wf(),
            len <= bytes@.len(),
        ensures
            final(self).buf@ == old(self).buf@ + bytes@.take(len as int),
            final(self).wf(),
    {
        let mut i: usize = 0;
        while i < len
            invariant
                i <= len,
                len <= bytes@.len(),
                self.buf@ == old(self).buf@ + bytes@.take(i as int),
            decreases len - i,
        {
            self.buf.push(bytes[i]);
            i = i + 1;
            assert(self.buf@ =~= old(self).buf@ + bytes@.take(i as int));
        }
        self.off = self.buf.len();
    }

    /// Appends `data` at the buffer's width; nothing for an unknown width.
    pub fn build_put_int(&mut self, data: usize)
        requires
            old(self).started(),
        ensures
            final(self).buf@ == old(self).buf@ + int_bytes(data as nat, old(self).width()),
            final(self).started(),
    {
        let w = self.buf[1];
        if w == 1 || w == 2 || w == 4 {
            let mut b = crate::sd_data::le_vec(data as u64, w as usize);
            self.buf.append(&mut b);
        } else {
            assert(self.buf@ =~= old(self).buf@ + int_bytes(data as nat, old(self).width()));
        }
        self.off = self.buf.len();
    }

    /// Where each of the first `knum` keys starts, for a key segment at
    /// `kseg_off`.
    pub fn calc_key_part(&self, knum: usize, kseg_off: usize, keys: &Vec<Vec<u8>>) -> (r: Vec<usize>)
        requires
            self.started(),
            knum <= keys@.len(),
            kseg_off + key_seg_len(keys@, self.width(), knum as int) <= usize::MAX,
        ensures
            r@.len() == knum,
            forall|i: int|
                0 <= i < knum ==> #[trigger] r@[i] == kseg_off + key_seg_len(keys@, self.width(), i),
    {
        let mut r: Vec<usize> = Vec::with_capacity(knum);
        let mut off = kseg_off;
        let oz = self.buf[1] as usize;
        let mut i: usize = 0;
        while i < knum
            invariant
                i <= knum,
                knum <= keys@.len(),
                oz == self.width(),
                off == kseg_off + key_seg_len(keys@, self.width(), i as int),
                kseg_off + key_seg_len(keys@, self.width(), knum as int) <= usize::MAX,
                r@.len() == i,
                forall|j: int|
                    0 <= j < i ==> #[trigger] r@[j] == kseg_off + key_seg_len(keys@, self.width(), j),
            decreases knum - i,
        {
            proof {
                lemma_key_seg_len_mono(keys@, self.width(), i as int + 1, knum as int);
            }
            r.push(off);
            off = off + oz + keys[i].len() + 1;
            i = i + 1;
        }
        r
    }

    /// Where each of the first `vnum` values starts, for a value segment at
    /// `vseg_off`.
    pub fn calc_value_part(&self, vnum: usize, vseg_off: usize, values: &Vec<SmDtonData>) -> (r:
        Vec<usize>)
        requires
            self.started(),
            vnum <= values@.len(),
            vseg_off + val_seg_len(values@, self.width(), vnum as int) <= usize::MAX,
        ensures
            r@.len() == vnum,
            forall|i: int|
                0 <= i < vnum ==> #[trigger] r@[i] == vseg_off + val_seg_len(
                    values@,
                    self.width(),
                    i,
                ),
    {
        let mut r: Vec<usize> = Vec::with_capacity(vnum);
        let mut off = vseg_off;
        let oz = self.buf[1] as usize;
        let mut i: usize = 0;
        while i < vnum
            invariant
                i <= vnum,
                vnum <= values@.len(),
                oz == self.width(),
                off == vseg_off + val_seg_len(values@, self.width(), i as int),
                vseg_off + val_seg_len(values@, self.width(), vnum as int) <= usize::MAX,
                r@.len() == i,
                forall|j: int|
                    0 <= j < i ==> #[trigger] r@[j] == vseg_off + val_seg_len(
                        values@,
                        self.width(),
                        j,
                    ),
            decreases vnum - i,
        {
            proof {
                lemma_val_seg_len_mono(values@, self.width(), i as int + 1, vnum as int);
            }
            let vtm = &values[i];
            r.push(off);
            off = off + 1 + vtm.len;
            if vtm.has_len {
                off = off + oz;
            }
            i = i + 1;
        }
        r
    }

    /// Appends the key segment of the first `knum` keys and the value segment
    /// of the first `vnum` values, each closed by the sentinel byte.
    pub fn build_kvsegs(
        &mut self,
        knum: usize,
        vnum: usize,
        keys: &Vec<Vec<u8>>,
        values: &Vec<SmDtonData>,
    )
        requires
            old(self).started(),
            knum <= keys@.len(),
            vnum <= values@.len(),
            values_wf(values@),
            forall|i: int| 0 <= i < keys@.len() ==> #[trigger] keys@[i]@.len() < usize::MAX,
        ensures
            final(self).started(),
            final(self).width() == old(self).width(),
            final(self).buf@ == old(self).buf@ + key_seg(keys@, old(self).width(), knum as int)
                + seq![0x77u8] + val_seg(values@, old(self).width(), vnum as int) + seq![0x77u8],
    {
        let ghost w = old(self).width();
        let ghost start = old(self).buf@;
        let mut i: usize = 0;
        while i < knum
            invariant
                i <= knum,
                knum <= keys@.len(),
                forall|j: int| 0 <= j < keys@.len() ==> #[trigger] keys@[j]@.len() < usize::MAX,
                self.started(),
                start.len() >= 2,
                self.width() == w,
                w == start[1] as nat,
                self.buf@ == start + key_seg(keys@, w, i as int),
            decreases knum - i,
        {
            let ktm = keys[i].as_slice();
            self.build_put_int(ktm.len() + 1);
            self.build_put_bin(ktm, ktm.len());
            self.build_put_u8(0);
            assert(ktm@.take(ktm@.len() as int) =~= ktm@);
            assert(self.buf@ =~= start + key_seg(keys@, w, i as int + 1));
            i = i + 1;
        }
        self.build_put_u8(0x77);
        let ghost mid = self.buf@;
        assert(mid == start + key_seg(keys@, w, knum as int) + seq![0x77u8]);
        let mut i: usize = 0;
        while i < vnum
            invariant
                i <= vnum,
                vnum <= values@.len(),
                values_wf(values@),
                self.started(),
                mid.len() >= 2,
                self.width() == w,
                w == mid[1] as nat,
                self.buf@ == mid + val_seg(values@, w, i as int),
            decreases vnum - i,
        {
            let vtm = &values[i];
            assert(vtm.wf());
            self.build_put_u8(vtm.smdt);
            if vtm.has_len {
                let vlen = if vtm.smdt < 0x10 {
                    vtm.oid
                } else {
                    vtm.len
                };
                self.build_put_int(vlen);
            }
            self.build_put_bin(vtm.v8a.as_slice(), vtm.len);
            assert(vtm.v8a@.take(vtm.len as int) =~= vtm.v8a@);
            assert(self.buf@ =~= mid + val_seg(values@, w, i as int + 1));
            i = i + 1;
        }
        self.build_put_u8(0x77);
    }
}

/// Key room only grows with the number of keys.
pub proof fn lemma_key_seg_len_mono(keys: Seq<Vec<u8>>, w: nat, i: int, j: int)
    requires
        i <= j,
    ensures
        key_seg_len(keys, w, i) <= key_seg_len(keys, w, j),
    decreases j - i,
{
    if i < j {
        lemma_key_seg_len_mono(keys, w, i, j - 1);
    }
}

/// Value room only grows with the number of values.
pub proof fn lemma_val_seg_len_mono(values: Seq<SmDtonData>, w: nat, i: int, j: int)
    requires
        i <= j,
    ensures
        val_seg_len(values, w, i) <= val_seg_len(values, w, j),
    decreases j - i,
{
    if i < j {
        lemma_val_seg_len_mono(values, w, i, j - 1);
    }
}

} // verus!

//! The overlay façade: a base buffer patched by an update buffer.
use vstd::prelude::*;
use vstd::string::StringSliceAdditionalSpecFns;
use vstd::utf8::encode_utf8_decode_utf8;

use crate::sd_buffer::SmDtonBuffer;
use crate::sd_data::ST;
use crate::sd_json::{fields_of, overlay_json, set_all, JsonNode};
use crate::sd_pair::SmDtonPair;
use crate::sd_reader::{reads, SmDtonReader};

verus! {

/// The update layer's answer where it has one, else the base layer's.
pub open spec fn layered<T>(upd: Option<T>, base: Option<T>) -> Option<T> {
    if upd is Some {
        upd
    } else {
        base
    }
}

/// Whether the layer is there and its node 1 is a map or an array.
pub open spec fn has_root(q: Option<SmDtonReader>) -> bool {
    match q {
        Some(r) => r.has_node(1) && (r.type_of(1) == ST::SMDT_MAP || r.type_of(1) == ST::SMDT_ARR),
        None => false,
    }
}

/// `j` is the JSON form of the layer's node 1.
pub open spec fn form_of(q: Option<SmDtonReader>, j: JsonNode) -> bool {
    match q {
        Some(r) => r.node_json_is(j, 1, r.nnum as nat),
        None => false,
    }
}

/// `m` is `b` with the top-level fields of `u` set on it.
pub open spec fn merged_is(b: JsonNode, u: JsonNode, m: JsonNode) -> bool {
    match u {
        JsonNode::Object(uf) => if uf@.len() > 0 {
            m matches JsonNode::Object(f) && f@ == set_all(fields_of(b), uf@)
        } else {
            m == b
        },
        _ => m == b,
    }
}

/// The text of an optional string.
pub open spec fn text_of(r: Option<String>) -> Option<Seq<char>> {
    match r {
        Some(s) => Some(s@),
        None => None,
    }
}

/// The bytes of an optional slice.
pub open spec fn bytes_of(r: Option<&[u8]>) -> Option<Seq<u8>> {
    match r {
        Some(s) => Some(s@),
        None => None,
    }
}

/// Up to two readers: `oread` over the base buffer, `nread` over the update.
pub struct SmDton<'a> {
    pub oread: Option<SmDtonReader<'a>>,
    pub nread: Option<SmDtonReader<'a>>,
}

impl<'a> SmDton<'a> {
    pub open spec fn wf(&self) -> bool {
        &&& (self.oread matches Some(q) ==> q.wf())
        &&& (self.nread matches Some(q) ==> q.wf())
    }

    /// A façade over one buffer; over none where it is empty.
    pub fn new_from_buffer(smb: &'a SmDtonBuffer) -> (r: Self)
        ensures
            r.wf(),
            r.nread is None,
            smb.buf@.len() == 0 ==> r.oread is None,
            smb.buf@.len() > 0 ==> (r.oread matches Some(q) && reads(q, smb.buf@)),
    {
        let buf = smb.get_buffer();
        if buf.len() > 0 {
            SmDton { oread: Some(SmDtonReader::new(buf)), nread: None }
        } else {
            SmDton { oread: None, nread: None }
        }
    }

    /// A façade over a base and an update buffer. An empty base gives a
    /// façade over nothing; an empty update, one over the base alone.
    pub fn new_from_pair(pair: &'a SmDtonPair) -> (r: Self)
        ensures
            r.wf(),
            pair.raw.buf@.len() == 0 ==> r.oread is None && r.nread is None,
            pair.raw.buf@.len() > 0 ==> (r.oread matches Some(q) && reads(q, pair.raw.buf@)),
            pair.raw.buf@.len() > 0 && pair.update.buf@.len() == 0 ==> r.nread is None,
            pair.raw.buf@.len() > 0 && pair.update.buf@.len() > 0 ==> (r.nread matches Some(q)
                && reads(q, pair.update.buf@)),
    {
        let buf1 = pair.raw.get_buffer();
        let buf2 = pair.update.get_buffer();
        if buf1.len() > 0 {
            if buf2.len() > 0 {
                SmDton { oread: Some(SmDtonReader::new(buf1)), nread: Some(SmDtonReader::new(buf2)) }
            } else {
                SmDton { oread: Some(SmDtonReader::new(buf1)), nread: None }
            }
        } else {
            SmDton { oread: None, nread: None }
        }
    }

    /// Replaces the update layer by a reader over `vec`.
    pub fn update(&mut self, vec: &'a [u8])
        requires
            old(self).wf(),
        ensures
            final(self).wf(),
            final(self).oread == old(self).oread,
            final(self).nread matches Some(q) && reads(q, vec@),
    {
        self.nread = Some(SmDtonReader::new(vec));
    }

    /// Makes `ndt`'s base the update layer, where both façades have a base.
    pub fn update_by_dton(&mut self, ndt: &SmDton<'a>)
        requires
            old(self).wf(),
            ndt.wf(),
        ensures
            final(self).wf(),
            final(self).oread == old(self).oread,
            final(self).nread == (if old(self).oread is Some && ndt.oread is Some {
                ndt.oread
            } else {
                old(self).nread
            }),
    {
        if self.oread.is_some() {
            match &ndt.oread {
                Some(rd) => {
                    self.nread = Some(SmDtonReader::clone(rd));
                },
                None => {},
            }
        }
    }

    /// The JSON form of the façade: the update's top-level fields set on
    /// the base's, where both layers have a map or array root; else the one
    /// layer that has one; `None` where neither has.
    pub fn to_json(&self) -> (r: Option<JsonNode>)
        requires
            self.wf(),
        ensures
            r is Some <==> (has_root(self.oread) || has_root(self.nread)),
            !has_root(self.nread) ==> (r matches Some(m) ==> form_of(self.oread, m)),
            !has_root(self.oread) ==> (r matches Some(m) ==> form_of(self.nread, m)),
            has_root(self.oread) && has_root(self.nread) ==> (r matches Some(m) ==> exists|
                b: JsonNode,
                u: JsonNode,
            |
                #![trigger form_of(self.oread, b), form_of(self.nread, u)]
                form_of(self.oread, b) && form_of(self.nread, u) && merged_is(b, u, m)),
    {
        let base = match &self.oread {
            Some(q) => q.to_json(1),
            None => None,
        };
        let upd = match &self.nread {
            Some(q) => q.to_json(1),
            None => None,
        };
        let ghost gb = base;
        let ghost gu = upd;
        let r = overlay_json(base, upd);
        proof {
            if gb is Some && gu is Some {
                assert(form_of(self.oread, gb->Some_0) && form_of(self.nread, gu->Some_0));
            }
        }
        r
    }

    /// Another façade over the same buffers.
    pub fn clone(&self) -> (r: Self)
        ensures
            r == *self,
    {
        SmDton { oread: self.oread, nread: self.nread }
    }

    /// The text of root field `key`, from the update layer where it has it.
    pub fn get_string(&self, key: &str) -> (r: Option<String>)
        requires
            self.wf(),
        ensures
            text_of(r) == layered(
                match self.nread {
                    Some(q) => q.text_field(1, key.spec_bytes()),
                    None => None,
                },
                match self.oread {
                    Some(q) => q.text_field(1, key.spec_bytes()),
                    None => None,
                },
            ),
    {
        match &self.nread {
            Some(q) => {
                match q.get_string(1, key) {
                    Some(data) => {
                        proof {
                            encode_utf8_decode_utf8(data@);
                        }
                        return Some(data.to_owned());
                    },
                    None => {},
                }
            },
            None => {},
        }
        match &self.oread {
            Some(q) => {
                match q.get_string(1, key) {
                    Some(data) => {
                        proof {
                            encode_utf8_decode_utf8(data@);
                        }
                        return Some(data.to_owned());
                    },
                    None => {},
                }
            },
            None => {},
        }
        None
    }

    /// The blob of root field `key`, from the update layer where it has it.
    pub fn get_bin(&self, key: &str) -> (r: Option<&'a [u8]>)
        requires
            self.wf(),
        ensures
            bytes_of(r) == layered(
                match self.nread {
                    Some(q) => q.bin_field(1, key.spec_bytes()),
                    None => None,
                },
                match self.oread {
                    Some(q) => q.bin_field(1, key.spec_bytes()),
                    None => None,
                },
            ),
    {
        match &self.nread {
            Some(q) => {
                match q.get_bin(1, key) {
                    Some(data) => {
                        return Some(data);
                    },
                    None => {},
                }
            },
            None => {},
        }
        match &self.oread {
            Some(q) => {
                match q.get_bin(1, key) {
                    Some(data) => {
                        return Some(data);
                    },
                    None => {},
                }
            },
            None => {},
        }
        None
    }

    /// The `bool` value of root field `key`, from the update layer where it
    /// has one.
    pub fn get_bool(&self, key: &str) -> (r: Option<bool>)
        requires
            self.wf(),
        ensures
            r == layered(
                match self.nread {
                    Some(q) => q.bool_field(1, key.spec_bytes()),
                    None => None,
                },
                match self.oread {
                    Some(q) => q.bool_field(1, key.spec_bytes()),
                    None => None,
                },
            ),
    {
        match &self.nread {
            Some(q) => {
                match q.get_bool(1, key) {
                    Some(data) => {
                        return Some(data);
                    },
                    None => {},
                }
            },
            None => {},
        }
        match &self.oread {
            Some(q) => q.get_bool(1, key),
            None => None,
        }
    }

    /// The `u8` value of root field `key`, from the update layer where it
    /// has one.
    pub fn get_u8(&self, key: &str) -> (r: Option<u8>)
        requires
            self.wf(),
        ensures
            r == layered(
                match self.nread {
                    Some(q) => q.u8_field(1, key.spec_bytes()),
                    None => None,
                },
                match self.oread {
                    Some(q) => q.u8_field(1, key.spec_bytes()),
                    None => None,
                },
            ),
    {
        match &self.nread {
            Some(q) => {
                match q.get_u8(1, key) {
                    Some(data) => {
                        return Some(data);
                    },
                    None => {},
                }
            },
            None => {},
        }
        match &self.oread {
            Some(q) => q.get_u8(1, key),
            None => None,
        }
    }

    /// The `i16` value of root field `key`, from the update layer where it
    /// has one.
    pub fn get_i16(&self, key: &str) -> (r: Option<i16>)
        requires
            self.wf(),
        ensures
            r == layered(
                match self.nread {
                    Some(q) => q.i16_field(1, key.spec_bytes()),
                    None => None,
                },
                match self.oread {
                    Some(q) => q.i16_field(1, key.spec_bytes()),
                    None => None,
                },
            ),
    {
        match &self.nread {
            Some(q) => {
                match q.get_i16(1, key) {
                    Some(data) => {
                        return Some(data);
                    },
                    None => {},
                }
            },
            None => {},
        }
        match &self.oread {
            Some(q) => q.get_i16(1, key),
            None => None,
        }
    }

    /// The `u16` value of root field `key`, from the update layer where it
    /// has one.
    pub fn get_u16(&self, key: &str) -> (r: Option<u16>)
        requires
            self.wf(),
        ensures
            r == layered(
                match self.nread {
                    Some(q) => q.u16_field(1, key.spec_bytes()),
                    None => None,
                },
                match self.oread {
                    Some(q) => q.u16_field(1, key.spec_bytes()),
                    None => None,
                },
            ),
    {
        match &self.nread {
            Some(q) => {
                match q.get_u16(1, key) {
                    Some(data) => {
                        return Some(data);
                    },
                    None => {},
                }
            },
            None => {},
        }
        match &self.oread {
            Some(q) => q.get_u16(1, key),
            None => None,
        }
    }

    /// The `i32` value of root field `key`, from the update layer where it
    /// has one.
    pub fn get_i32(&self, key: &str) -> (r: Option<i32>)
        requires
            self.wf(),
        ensures
            r == layered(
                match self.nread {
                    Some(q) => q.i32_field(1, key.spec_bytes()),
                    None => None,
                },
                match self.oread {
                    Some(q) => q.i32_field(1, key.spec_bytes()),
                    None => None,
                },
            ),
    {
        match &self.nread {
            Some(q) => {
                match q.get_i32(1, key) {
                    Some(data) => {
                        return Some(data);
                    },
                    None => {},
                }
            },
            None => {},
        }
        match &self.oread {
            Some(q) => q.get_i32(1, key),
            None => None,
        }
    }

    /// The `u32` value of root field `key`, from the update layer where it
    /// has one.
    pub fn get_u32(&self, key: &str) -> (r: Option<u32>)
        requires
            self.wf(),
        ensures
            r == layered(
                match self.nread {
                    Some(q) => q.u32_field(1, key.spec_bytes()),
                    None => None,
                },
                match self.oread {
                    Some(q) => q.u32_field(1, key.spec_bytes()),
                    None => None,
                },
            ),
    {
        match &self.nread {
            Some(q) => {
                match q.get_u32(1, key) {
                    Some(data) => {
                        return Some(data);
                    },
                    None => {},
                }
            },
            None => {},
        }
        match &self.oread {
            Some(q) => q.get_u32(1, key),
            None => None,
        }
    }

    /// The `f32_bits` value of root field `key`, from the update layer where it
    /// has one.
    pub fn get_f32_bits(&self, key: &str) -> (r: Option<u32>)
        requires
            self.wf(),
        ensures
            r == layered(
                match self.nread {
                    Some(q) => q.f32_bits_field(1, key.spec_bytes()),
                    None => None,
                },
                match self.oread {
                    Some(q) => q.f32_bits_field(1, key.spec_bytes()),
                    None => None,
                },
            ),
    {
        match &self.nread {
            Some(q) => {
                match q.get_f32_bits(1, key) {
                    Some(data) => {
                        return Some(data);
                    },
                    None => {},
                }
            },
            None => {},
        }
        match &self.oread {
            Some(q) => q.get_f32_bits(1, key),
            None => None,
        }
    }

    /// The `i64` value of root field `key`, from the update layer where it
    /// has one.
    pub fn get_i64(&self, key: &str) -> (r: Option<i64>)
        requires
            self.wf(),
        ensures
            r == layered(
                match self.nread {
                    Some(q) => q.i64_field(1, key.spec_bytes()),
                    None => None,
                },
                match self.oread {
                    Some(q) => q.i64_field(1, key.spec_bytes()),
                    None => None,
                },
            ),
    {
        match &self.nread {
            Some(q) => {
                match q.get_i64(1, key) {
                    Some(data) => {
                        return Some(data);
                    },
                    None => {},
                }
            },
            None => {},
        }
        match &self.oread {
            Some(q) => q.get_i64(1, key),
            None => None,
        }
    }

    /// The `u64` value of root field `key`, from the update layer where it
    /// has one.
    pub fn get_u64(&self, key: &str) -> (r: Option<u64>)
        requires
            self.wf(),
        ensures
            r == layered(
                match self.nread {
                    Some(q) => q.u64_field(1, key.spec_bytes()),
                    None => None,
                },
                match self.oread {
                    Some(q) => q.u64_field(1, key.spec_bytes()),
                    None => None,
                },
            ),
    {
        match &self.nread {
            Some(q) => {
                match q.get_u64(1, key) {
                    Some(data) => {
                        return Some(data);
                    },
                    None => {},
                }
            },
            None => {},
        }
        match &self.oread {
            Some(q) => q.get_u64(1, key),
            None => None,
        }
    }

    /// The `f64_bits` value of root field `key`, from the update layer where it
    /// has one.
    pub fn get_f64_bits(&self, key: &str) -> (r: Option<u64>)
        requires
            self.wf(),
        ensures
            r == layered(
                match self.nread {
                    Some(q) => q.f64_bits_field(1, key.spec_bytes()),
                    None => None,
                },
                match self.oread {
                    Some(q) => q.f64_bits_field(1, key.spec_bytes()),
                    None => None,
                },
            ),
    {
        match &self.nread {
            Some(q) => {
                match q.get_f64_bits(1, key) {
                    Some(data) => {
                        return Some(data);
                    },
                    None => {},
                }
            },
            None => {},
        }
        match &self.oread {
            Some(q) => q.get_f64_bits(1, key),
            None => None,
        }
    }
}

/// A façade over no buffer answers no lookup and has no JSON form.
pub proof fn lemma_empty_facade(d: SmDton, kbs: Seq<u8>)
    requires
        d.oread is None,
        d.nread is None,
    ensures
        !(has_root(d.oread) || has_root(d.nread)),
        layered(
            match d.nread {
                Some(q) => q.text_field(1, kbs),
                None => None,
            },
            match d.oread {
                Some(q) => q.text_field(1, kbs),
                None => None,
            },
        ) is None,
        layered(
            match d.nread {
                Some(q) => q.i64_field(1, kbs),
                None => None,
            },
            match d.oread {
                Some(q) => q.i64_field(1, kbs),
                None => None,
            },
        ) is None,
{
}

} // verus!

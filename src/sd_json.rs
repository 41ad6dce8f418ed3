//! The JSON-shaped tree that buffers are built from and materialized into.
use vstd::prelude::*;
use vstd::string::StringSliceAdditionalSpecFns;
use vstd::utf8::encode_utf8_decode_utf8;

use crate::sd_builder::bytes_eq;

verus! {

/// A JSON value. Integers are held as `i64` (or `u64` where stored so) and
/// floats by their IEEE 754 bit patterns; object fields keep their order.
#[derive(Debug, PartialEq)]
pub enum JsonNode {
    Null,
    Bool(bool),
    Int(i64),
    UInt(u64),
    Float32(u32),
    Float64(u64),
    Str(String),
    Object(Vec<(String, JsonNode)>),
    Array(Vec<JsonNode>),
}

/// Ten to the power `e`.
pub open spec fn pow10(e: nat) -> nat
    decreases e,
{
    if e == 0 {
        1
    } else {
        10 * pow10((e - 1) as nat)
    }
}

/// The value of the decimal number `±mantissa × 10^exponent`, for a
/// non-negative exponent.
pub open spec fn decimal_value(positive: bool, mantissa: u64, exponent: nat) -> int {
    if positive {
        mantissa * pow10(exponent)
    } else {
        -(mantissa * pow10(exponent))
    }
}

/// The integer that a decimal number with a non-negative exponent stands
/// for, where it fits an `i64`; `None` for a negative exponent (a float) or
/// an integer out of range.
pub fn decimal_to_i64(positive: bool, mantissa: u64, exponent: i16) -> (r: Option<i64>)
    ensures
        exponent < 0 ==> r is None,
        exponent >= 0 ==> (r is Some <==> i64::MIN <= decimal_value(
            positive,
            mantissa,
            exponent as nat,
        ) <= i64::MAX),
        r matches Some(v) ==> v == decimal_value(positive, mantissa, exponent as nat),
{
    if exponent < 0 {
        return None;
    }
    let e = exponent as u16;
    let mut v: u128 = mantissa as u128;
    let mut i: u16 = 0;
    proof {
        assert(pow10(0) == 1);
        assert(v == mantissa * pow10(0));
    }
    while i < e
        invariant
            i <= e,
            e == exponent,
            v == mantissa * pow10(i as nat),
            v <= 10 * 0x8000_0000_0000_0000,
        decreases e - i,
    {
        if v > 0x8000_0000_0000_0000 {
            proof {
                lemma_pow10_split(i as nat, (e - i) as nat);
                lemma_pow10_pos((e - i) as nat);
                assert(mantissa * pow10(e as nat) == v * pow10((e - i) as nat)) by (nonlinear_arith)
                    requires
                        v == mantissa * pow10(i as nat),
                        pow10(e as nat) == pow10(i as nat) * pow10((e - i) as nat),
                ;
                assert(v * pow10((e - i) as nat) >= v) by (nonlinear_arith)
                    requires
                        pow10((e - i) as nat) >= 1,
                ;
            }
            return None;
        }
        proof {
            assert(pow10(i as nat + 1) == 10 * pow10(i as nat));
            assert(v * 10 == mantissa * pow10(i as nat + 1)) by (nonlinear_arith)
                requires
                    v == mantissa * pow10(i as nat),
                    pow10(i as nat + 1) == 10 * pow10(i as nat),
            ;
        }
        v = v * 10;
        i = i + 1;
    }
    if positive {
        if v <= 0x7FFF_FFFF_FFFF_FFFF {
            Some(v as i64)
        } else {
            None
        }
    } else {
        if v <= 0x8000_0000_0000_0000 {
            Some((0 - (v as i128)) as i64)
        } else {
            None
        }
    }
}

proof fn lemma_pow10_pos(e: nat)
    ensures
        pow10(e) >= 1,
    decreases e,
{
    if e > 0 {
        lemma_pow10_pos((e - 1) as nat);
    }
}

proof fn lemma_pow10_split(a: nat, b: nat)
    ensures
        pow10(a + b) == pow10(a) * pow10(b),
    decreases a,
{
    if a > 0 {
        lemma_pow10_split((a - 1) as nat, b);
        assert(pow10(a) == 10 * pow10((a - 1) as nat));
        assert(pow10(a + b) == 10 * pow10((a - 1 + b) as nat));
        assert(10 * (pow10((a - 1) as nat) * pow10(b)) == (10 * pow10((a - 1) as nat)) * pow10(b))
            by (nonlinear_arith);
    } else {
        assert(pow10(0) == 1);
        assert(pow10(a + b) == 1 * pow10(b));
    }
}

/// Index of the first field named `k` among the first `n` fields; -1 for none.
pub open spec fn first_key(s: Seq<(String, JsonNode)>, k: Seq<char>, n: int) -> int
    decreases n,
{
    if n <= 0 {
        -1
    } else {
        let f = first_key(s, k, n - 1);
        if f >= 0 {
            f
        } else if s[n - 1].0@ == k {
            n - 1
        } else {
            -1
        }
    }
}

/// The fields `s` with field `e` set: its value replaced where the name is
/// present, else appended.
pub open spec fn set_one(s: Seq<(String, JsonNode)>, e: (String, JsonNode)) -> Seq<(String, JsonNode)> {
    let i = first_key(s, e.0@, s.len() as int);
    if i >= 0 {
        s.update(i, e)
    } else {
        s.push(e)
    }
}

/// The fields `s` with each of `u` set in turn.
pub open spec fn set_all(s: Seq<(String, JsonNode)>, u: Seq<(String, JsonNode)>) -> Seq<(String, JsonNode)>
    decreases u.len(),
{
    if u.len() == 0 {
        s
    } else {
        set_one(set_all(s, u.drop_last()), u.last())
    }
}

/// The fields of an object; none for another value.
pub open spec fn fields_of(j: JsonNode) -> Seq<(String, JsonNode)> {
    match j {
        JsonNode::Object(v) => v@,
        _ => Seq::empty(),
    }
}

/// Where the first field of a name stands, if anywhere.
pub proof fn lemma_first_key_bounds(s: Seq<(String, JsonNode)>, k: Seq<char>, n: int)
    requires
        0 <= n <= s.len(),
    ensures
        -1 <= first_key(s, k, n) < n,
        first_key(s, k, n) >= 0 ==> s[first_key(s, k, n)].0@ == k,
        first_key(s, k, n) < 0 ==> forall|j: int| 0 <= j < n ==> s[j].0@ != k,
    decreases n,
{
    if n > 0 {
        lemma_first_key_bounds(s, k, n - 1);
    }
}

/// Sets field `k` of the fields `entries` to `v`, in place where the name is
/// present, else at the end.
pub fn set_field(entries: &mut Vec<(String, JsonNode)>, k: String, v: JsonNode)
    ensures
        final(entries)@ == set_one(old(entries)@, (k, v)),
{
    let ghost n = entries@.len() as int;
    let mut i: usize = 0;
    while i < entries.len()
        invariant
            i <= entries@.len(),
            n == old(entries)@.len(),
            entries@ == old(entries)@,
            first_key(entries@, k@, i as int) == -1,
        decreases entries@.len() - i,
    {
        if bytes_eq(entries[i].0.as_str().as_bytes(), k.as_str().as_bytes()) {
            proof {
                encode_utf8_decode_utf8(entries@[i as int].0@);
                encode_utf8_decode_utf8(k@);
                assert(entries@[i as int].0@ == k@);
                lemma_first_key_rest(entries@, k@, i as int + 1, n);
            }
            entries.set(i, (k, v));
            return;
        }
        proof {
            if entries@[i as int].0@ == k@ {
                encode_utf8_decode_utf8(entries@[i as int].0@);
            }
        }
        i = i + 1;
    }
    entries.push((k, v));
}

proof fn lemma_first_key_rest(s: Seq<(String, JsonNode)>, k: Seq<char>, i: int, n: int)
    requires
        0 < i <= n <= s.len(),
        first_key(s, k, i) == i - 1,
    ensures
        first_key(s, k, n) == i - 1,
    decreases n - i,
{
    if i < n {
        lemma_first_key_rest(s, k, i, n - 1);
    }
}

/// `base` with the top-level fields of `upd` set on it, one by one: where
/// `upd` is an object with fields, the result is an object (a `base` that is
/// none becomes an empty object first); otherwise it is `base` unchanged.
pub fn merge_top(base: JsonNode, upd: JsonNode) -> (r: JsonNode)
    ensures
        match upd {
            JsonNode::Object(u) => if u@.len() > 0 {
                r matches JsonNode::Object(f) && f@ == set_all(fields_of(base), u@)
            } else {
                r == base
            },
            _ => r == base,
        },
{
    match upd {
        JsonNode::Object(mut u) => {
            if u.len() == 0 {
                return base;
            }
            let mut f: Vec<(String, JsonNode)> = match base {
                JsonNode::Object(b) => b,
                _ => Vec::new(),
            };
            let ghost f0 = f@;
            let ghost u0 = u@;
            let ghost mut i: int = 0;
            while u.len() > 0
                invariant
                    0 <= i <= u0.len(),
                    u@ == u0.skip(i),
                    f@ == set_all(f0, u0.take(i)),
                decreases u@.len(),
            {
                let e = u.remove(0);
                proof {
                    assert(u0.take(i + 1).drop_last() =~= u0.take(i));
                    assert(u0.take(i + 1).last() == e);
                    assert(u@ =~= u0.skip(i + 1));
                }
                set_field(&mut f, e.0, e.1);
                proof {
                    i = i + 1;
                }
            }
            proof {
                assert(u0.take(u0.len() as int) =~= u0);
            }
            JsonNode::Object(f)
        },
        _ => base,
    }
}

/// The overlay of two materialized layers: the update's top-level fields
/// set on the base where both are there, else whichever is there.
pub fn overlay_json(base: Option<JsonNode>, upd: Option<JsonNode>) -> (r: Option<JsonNode>)
    ensures
        match (base, upd) {
            (Some(b), Some(u)) => r matches Some(m) && match u {
                JsonNode::Object(uf) => if uf@.len() > 0 {
                    m matches JsonNode::Object(f) && f@ == set_all(fields_of(b), uf@)
                } else {
                    m == b
                },
                _ => m == b,
            },
            (None, Some(u)) => r == Some(u),
            (Some(b), None) => r == Some(b),
            (None, None) => r is None,
        },
{
    match base {
        Some(b) => match upd {
            Some(u) => Some(merge_top(b, u)),
            None => Some(b),
        },
        None => upd,
    }
}

} // verus!

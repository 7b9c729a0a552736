//! Codec runtime: positional little-endian encoding and decoding of a
//! message's scalar values.
//!
//! A message value is the sequence of its scalars in declared order;
//! an array field contributes its elements one after another, with no
//! length prefix of any kind — the element count is fixed by the
//! schema (`spec_flat_types`) and is never re-derived from wire bytes.
//! Floating-point fields carry their raw bit patterns, which is
//! exactly what the wire holds, so the codec itself is bit-precise.

use vstd::bytes::*;
use vstd::prelude::*;

use crate::types::{UorbFieldType, all_scalar, is_scalar, spec_encoded_len, spec_sum_len};

verus! {

/// One scalar value of a message.
#[derive(Debug, Clone, Copy, PartialEq, Eq, Structural)]
pub enum FieldValue {
    Bool(bool),
    Char(u8),
    U8(u8),
    U16(u16),
    U32(u32),
    U64(u64),
    I8(i8),
    I16(i16),
    I32(i32),
    I64(i64),
    F32Bits(u32),
    F64Bits(u64),
}

/// The value carries exactly the scalar type `t`.
pub open spec fn scalar_fits(v: FieldValue, t: UorbFieldType) -> bool {
    match t {
        UorbFieldType::Bool => v is Bool,
        UorbFieldType::Char => v is Char,
        UorbFieldType::UInt8 => v is U8,
        UorbFieldType::UInt16 => v is U16,
        UorbFieldType::UInt32 => v is U32,
        UorbFieldType::UInt64 => v is U64,
        UorbFieldType::Int8 => v is I8,
        UorbFieldType::Int16 => v is I16,
        UorbFieldType::Int32 => v is I32,
        UorbFieldType::Int64 => v is I64,
        UorbFieldType::Float32 => v is F32Bits,
        UorbFieldType::Float64 => v is F64Bits,
        UorbFieldType::Array(..) => false,
    }
}

/// The values carry exactly the scalar layout `types`, in order.
pub open spec fn vals_match(vals: Seq<FieldValue>, types: Seq<UorbFieldType>) -> bool {
    &&& vals.len() == types.len()
    &&& forall|i: int| 0 <= i < vals.len() ==> scalar_fits(#[trigger] vals[i], types[i])
}

/// The wire bytes of one scalar: little-endian for every multi-byte
/// value, one byte for `Bool` (0 or 1), `Char` and the 8-bit integers.
pub open spec fn spec_scalar_bytes(v: FieldValue) -> Seq<u8> {
    match v {
        FieldValue::Bool(b) => seq![if b { 1u8 } else { 0u8 }],
        FieldValue::Char(c) => seq![c],
        FieldValue::U8(x) => seq![x],
        FieldValue::I8(x) => seq![x as u8],
        FieldValue::U16(x) => spec_u16_to_le_bytes(x),
        FieldValue::I16(x) => spec_u16_to_le_bytes(x as u16),
        FieldValue::U32(x) => spec_u32_to_le_bytes(x),
        FieldValue::I32(x) => spec_u32_to_le_bytes(x as u32),
        FieldValue::F32Bits(x) => spec_u32_to_le_bytes(x),
        FieldValue::U64(x) => spec_u64_to_le_bytes(x),
        FieldValue::I64(x) => spec_u64_to_le_bytes(x as u64),
        FieldValue::F64Bits(x) => spec_u64_to_le_bytes(x),
    }
}

/// The wire bytes of a value sequence: each scalar's bytes in order.
pub open spec fn spec_encode_vals(vals: Seq<FieldValue>) -> Seq<u8>
    decreases vals.len(),
{
    if vals.len() == 0 {
        Seq::empty()
    } else {
        spec_scalar_bytes(vals[0]) + spec_encode_vals(vals.skip(1))
    }
}

/// The scalar of type `t` read from its wire bytes `s`.  `Bool` decodes
/// any nonzero byte as true.
pub open spec fn spec_scalar_of(t: UorbFieldType, s: Seq<u8>) -> FieldValue
    recommends
        is_scalar(t),
        s.len() == spec_encoded_len(t),
{
    match t {
        UorbFieldType::Bool => FieldValue::Bool(s[0] != 0),
        UorbFieldType::Char => FieldValue::Char(s[0]),
        UorbFieldType::UInt8 => FieldValue::U8(s[0]),
        UorbFieldType::Int8 => FieldValue::I8(s[0] as i8),
        UorbFieldType::UInt16 => FieldValue::U16(spec_u16_from_le_bytes(s)),
        UorbFieldType::Int16 => FieldValue::I16(spec_u16_from_le_bytes(s) as i16),
        UorbFieldType::UInt32 => FieldValue::U32(spec_u32_from_le_bytes(s)),
        UorbFieldType::Int32 => FieldValue::I32(spec_u32_from_le_bytes(s) as i32),
        UorbFieldType::Float32 => FieldValue::F32Bits(spec_u32_from_le_bytes(s)),
        UorbFieldType::UInt64 => FieldValue::U64(spec_u64_from_le_bytes(s)),
        UorbFieldType::Int64 => FieldValue::I64(spec_u64_from_le_bytes(s) as i64),
        UorbFieldType::Float64 => FieldValue::F64Bits(spec_u64_from_le_bytes(s)),
        UorbFieldType::Array(..) => FieldValue::Bool(false),
    }
}

/// The values read from `bytes` for the scalar layout `types`: each
/// scalar in order, `None` exactly when the bytes run out.  Excess
/// trailing bytes are ignored.
pub open spec fn spec_decode_vals(types: Seq<UorbFieldType>, bytes: Seq<u8>) -> Option<
    Seq<FieldValue>,
>
    decreases types.len(),
{
    if types.len() == 0 {
        Some(Seq::empty())
    } else {
        let w = spec_encoded_len(types[0]) as int;
        if bytes.len() < w {
            None
        } else {
            match spec_decode_vals(types.skip(1), bytes.skip(w)) {
                Some(rest) => Some(seq![spec_scalar_of(types[0], bytes.take(w))] + rest),
                None => None,
            }
        }
    }
}

/// A scalar's wire size is its type's encoded length.
pub proof fn lemma_scalar_bytes_len(v: FieldValue, t: UorbFieldType)
    requires
        scalar_fits(v, t),
    ensures
        spec_scalar_bytes(v).len() == spec_encoded_len(t),
{
    lemma_auto_spec_u16_to_from_le_bytes();
    lemma_auto_spec_u32_to_from_le_bytes();
    lemma_auto_spec_u64_to_from_le_bytes();
    match v {
        FieldValue::U16(x) => {
            assert(spec_u16_to_le_bytes(x).len() == 2);
        },
        FieldValue::I16(x) => {
            assert(spec_u16_to_le_bytes(x as u16).len() == 2);
        },
        FieldValue::U32(x) => {
            assert(spec_u32_to_le_bytes(x).len() == 4);
        },
        FieldValue::I32(x) => {
            assert(spec_u32_to_le_bytes(x as u32).len() == 4);
        },
        FieldValue::F32Bits(x) => {
            assert(spec_u32_to_le_bytes(x).len() == 4);
        },
        FieldValue::U64(x) => {
            assert(spec_u64_to_le_bytes(x).len() == 8);
        },
        FieldValue::I64(x) => {
            assert(spec_u64_to_le_bytes(x as u64).len() == 8);
        },
        FieldValue::F64Bits(x) => {
            assert(spec_u64_to_le_bytes(x).len() == 8);
        },
        _ => {},
    }
}

/// Reading a scalar's own wire bytes back returns the scalar: the
/// value-level round trip for every variant, including the signed
/// types (two's complement) and the float bit patterns.
pub proof fn lemma_scalar_round_trip(v: FieldValue, t: UorbFieldType)
    requires
        scalar_fits(v, t),
    ensures
        spec_scalar_of(t, spec_scalar_bytes(v)) == v,
{
    lemma_auto_spec_u16_to_from_le_bytes();
    lemma_auto_spec_u32_to_from_le_bytes();
    lemma_auto_spec_u64_to_from_le_bytes();
    match v {
        FieldValue::I8(x) => {
            assert(((x as u8) as i8) == x) by (bit_vector);
        },
        FieldValue::U16(x) => {
            assert(spec_u16_to_le_bytes(x).len() == 2);
            assert(spec_u16_from_le_bytes(spec_u16_to_le_bytes(x)) == x);
        },
        FieldValue::I16(x) => {
            assert(spec_u16_to_le_bytes(x as u16).len() == 2);
            assert(spec_u16_from_le_bytes(spec_u16_to_le_bytes(x as u16)) == x as u16);
            assert(((x as u16) as i16) == x) by (bit_vector);
        },
        FieldValue::U32(x) => {
            assert(spec_u32_to_le_bytes(x).len() == 4);
            assert(spec_u32_from_le_bytes(spec_u32_to_le_bytes(x)) == x);
        },
        FieldValue::I32(x) => {
            assert(spec_u32_to_le_bytes(x as u32).len() == 4);
            assert(spec_u32_from_le_bytes(spec_u32_to_le_bytes(x as u32)) == x as u32);
            assert(((x as u32) as i32) == x) by (bit_vector);
        },
        FieldValue::F32Bits(x) => {
            assert(spec_u32_to_le_bytes(x).len() == 4);
            assert(spec_u32_from_le_bytes(spec_u32_to_le_bytes(x)) == x);
        },
        FieldValue::U64(x) => {
            assert(spec_u64_to_le_bytes(x).len() == 8);
            assert(spec_u64_from_le_bytes(spec_u64_to_le_bytes(x)) == x);
        },
        FieldValue::I64(x) => {
            assert(spec_u64_to_le_bytes(x as u64).len() == 8);
            assert(spec_u64_from_le_bytes(spec_u64_to_le_bytes(x as u64)) == x as u64);
            assert(((x as u64) as i64) == x) by (bit_vector);
        },
        FieldValue::F64Bits(x) => {
            assert(spec_u64_to_le_bytes(x).len() == 8);
            assert(spec_u64_from_le_bytes(spec_u64_to_le_bytes(x)) == x);
        },
        _ => {},
    }
}

/// Wire size of a typed value sequence: the sum of its scalar sizes.
pub proof fn lemma_encode_vals_len(vals: Seq<FieldValue>, types: Seq<UorbFieldType>)
    requires
        vals_match(vals, types),
    ensures
        spec_encode_vals(vals).len() == spec_sum_len(types),
    decreases vals.len(),
{
    if vals.len() == 0 {
    } else {
        lemma_scalar_bytes_len(vals[0], types[0]);
        assert(vals_match(vals.skip(1), types.skip(1))) by {
            assert(forall|i: int|
                0 <= i < vals.skip(1).len() ==> vals.skip(1)[i] == vals[i + 1] && types.skip(1)[i]
                    == types[i + 1]);
        }
        lemma_encode_vals_len(vals.skip(1), types.skip(1));
    }
}

/// Appending one value appends its bytes.
proof fn lemma_encode_vals_snoc(vals: Seq<FieldValue>, v: FieldValue)
    ensures
        spec_encode_vals(vals.push(v)) == spec_encode_vals(vals) + spec_scalar_bytes(v),
    decreases vals.len(),
{
    if vals.len() == 0 {
        assert(vals.push(v)[0] == v);
        assert(vals.push(v).skip(1) =~= Seq::<FieldValue>::empty());
        assert(spec_encode_vals(vals.push(v).skip(1)) == Seq::<u8>::empty());
        assert(spec_encode_vals(vals) == Seq::<u8>::empty());
        assert(spec_encode_vals(vals.push(v)) =~= spec_encode_vals(vals) + spec_scalar_bytes(v));
    } else {
        assert(vals.push(v)[0] == vals[0]);
        assert(vals.push(v).skip(1) =~= vals.skip(1).push(v));
        lemma_encode_vals_snoc(vals.skip(1), v);
        assert(spec_encode_vals(vals.push(v)) =~= spec_encode_vals(vals) + spec_scalar_bytes(v));
    }
}

/// Decoding the encoding returns the original values, whatever bytes
/// follow: the round trip of the codec.
pub proof fn lemma_codec_round_trip(
    types: Seq<UorbFieldType>,
    vals: Seq<FieldValue>,
    tail: Seq<u8>,
)
    requires
        vals_match(vals, types),
    ensures
        spec_decode_vals(types, spec_encode_vals(vals) + tail) == Some(vals),
    decreases vals.len(),
{
    if vals.len() == 0 {
        assert(spec_decode_vals(types, spec_encode_vals(vals) + tail) == Some(
            Seq::<FieldValue>::empty(),
        ));
        assert(vals =~= Seq::<FieldValue>::empty());
    } else {
        let bytes = spec_encode_vals(vals) + tail;
        let w = spec_encoded_len(types[0]) as int;
        lemma_scalar_bytes_len(vals[0], types[0]);
        assert(bytes.take(w) =~= spec_scalar_bytes(vals[0]));
        assert(bytes.skip(w) =~= spec_encode_vals(vals.skip(1)) + tail);
        lemma_scalar_round_trip(vals[0], types[0]);
        assert(vals_match(vals.skip(1), types.skip(1))) by {
            assert(forall|i: int|
                0 <= i < vals.skip(1).len() ==> vals.skip(1)[i] == vals[i + 1] && types.skip(1)[i]
                    == types[i + 1]);
        }
        lemma_codec_round_trip(types.skip(1), vals.skip(1), tail);
        assert(seq![vals[0]] + vals.skip(1) =~= vals);
    }
}

/// Decoding succeeds exactly when the input is long enough for the
/// layout's full encoded length.
pub proof fn lemma_decode_some_iff(types: Seq<UorbFieldType>, bytes: Seq<u8>)
    ensures
        spec_decode_vals(types, bytes) is Some <==> bytes.len() >= spec_sum_len(types),
        spec_decode_vals(types, bytes) matches Some(vs) ==> vals_match(vs, types) || !all_scalar(
            types,
        ),
    decreases types.len(),
{
    if types.len() == 0 {
        assert(vals_match(Seq::<FieldValue>::empty(), types));
    } else {
        let w = spec_encoded_len(types[0]) as int;
        if bytes.len() >= w {
            lemma_decode_some_iff(types.skip(1), bytes.skip(w));
            match spec_decode_vals(types.skip(1), bytes.skip(w)) {
                Some(rest) => {
                    if all_scalar(types) {
                        assert(all_scalar(types.skip(1))) by {
                            assert(forall|i: int|
                                0 <= i < types.skip(1).len() ==> types.skip(1)[i] == types[i + 1]);
                        }
                        let vs = seq![spec_scalar_of(types[0], bytes.take(w))] + rest;
                        assert(is_scalar(types[0]));
                        assert(scalar_fits(vs[0], types[0]));
                        assert(forall|i: int|
                            1 <= i < vs.len() ==> #[trigger] vs[i] == rest[i - 1] && types[i]
                                == types.skip(1)[i - 1]);
                        assert(vals_match(vs, types));
                    }
                },
                None => {},
            }
        }
    }
}

/// Append the wire bytes of one scalar to `out`.
fn encode_scalar(v: &FieldValue, out: &mut Vec<u8>)
    ensures
        final(out)@ == old(out)@ + spec_scalar_bytes(*v),
{
    match v {
        FieldValue::Bool(b) => {
            out.push(if *b {
                1
            } else {
                0
            });
        },
        FieldValue::Char(c) => {
            out.push(*c);
        },
        FieldValue::U8(x) => {
            out.push(*x);
        },
        FieldValue::I8(x) => {
            out.push(*x as u8);
        },
        FieldValue::U16(x) => {
            let mut b = u16_to_le_bytes(*x);
            out.append(&mut b);
        },
        FieldValue::I16(x) => {
            let mut b = u16_to_le_bytes(*x as u16);
            out.append(&mut b);
        },
        FieldValue::U32(x) => {
            let mut b = u32_to_le_bytes(*x);
            out.append(&mut b);
        },
        FieldValue::I32(x) => {
            let mut b = u32_to_le_bytes(*x as u32);
            out.append(&mut b);
        },
        FieldValue::F32Bits(x) => {
            let mut b = u32_to_le_bytes(*x);
            out.append(&mut b);
        },
        FieldValue::U64(x) => {
            let mut b = u64_to_le_bytes(*x);
            out.append(&mut b);
        },
        FieldValue::I64(x) => {
            let mut b = u64_to_le_bytes(*x as u64);
            out.append(&mut b);
        },
        FieldValue::F64Bits(x) => {
            let mut b = u64_to_le_bytes(*x);
            out.append(&mut b);
        },
    }
    proof {
        assert(out@ =~= old(out)@ + spec_scalar_bytes(*v));
    }
}

/// Encode a value sequence: each scalar's little-endian bytes in order.
pub fn encode_vals(vals: &Vec<FieldValue>) -> (r: Vec<u8>)
    ensures
        r@ == spec_encode_vals(vals@),
{
    let mut out: Vec<u8> = Vec::new();
    let mut i: usize = 0;
    while i < vals.len()
        invariant
            i <= vals@.len(),
            out@ == spec_encode_vals(vals@.take(i as int)),
        decreases vals@.len() - i,
    {
        encode_scalar(&vals[i], &mut out);
        proof {
            lemma_encode_vals_snoc(vals@.take(i as int), vals@[i as int]);
            assert(vals@.take(i + 1) =~= vals@.take(i as int).push(vals@[i as int]));
        }
        i = i + 1;
    }
    proof {
        assert(vals@.take(vals@.len() as int) =~= vals@);
    }
    out
}

/// The value carries exactly the scalar type `t` (executable form).
pub fn fits(v: &FieldValue, t: &UorbFieldType) -> (r: bool)
    ensures
        r == scalar_fits(*v, *t),
{
    match (v, t) {
        (FieldValue::Bool(_), UorbFieldType::Bool) => true,
        (FieldValue::Char(_), UorbFieldType::Char) => true,
        (FieldValue::U8(_), UorbFieldType::UInt8) => true,
        (FieldValue::U16(_), UorbFieldType::UInt16) => true,
        (FieldValue::U32(_), UorbFieldType::UInt32) => true,
        (FieldValue::U64(_), UorbFieldType::UInt64) => true,
        (FieldValue::I8(_), UorbFieldType::Int8) => true,
        (FieldValue::I16(_), UorbFieldType::Int16) => true,
        (FieldValue::I32(_), UorbFieldType::Int32) => true,
        (FieldValue::I64(_), UorbFieldType::Int64) => true,
        (FieldValue::F32Bits(_), UorbFieldType::Float32) => true,
        (FieldValue::F64Bits(_), UorbFieldType::Float64) => true,
        _ => false,
    }
}

/// Wire size of one scalar type, at most eight bytes.
pub(crate) fn scalar_len(t: &UorbFieldType) -> (r: usize)
    requires
        is_scalar(*t),
    ensures
        r == spec_encoded_len(*t),
        1 <= r <= 8,
{
    match t {
        UorbFieldType::Bool => 1,
        UorbFieldType::Char => 1,
        UorbFieldType::UInt8 => 1,
        UorbFieldType::Int8 => 1,
        UorbFieldType::UInt16 => 2,
        UorbFieldType::Int16 => 2,
        UorbFieldType::UInt32 => 4,
        UorbFieldType::Int32 => 4,
        UorbFieldType::Float32 => 4,
        UorbFieldType::UInt64 => 8,
        UorbFieldType::Int64 => 8,
        UorbFieldType::Float64 => 8,
        UorbFieldType::Array(..) => 1,
    }
}

/// Read one scalar of type `t` from `input` at `pos`.
fn decode_scalar(t: &UorbFieldType, input: &[u8], pos: usize, w: usize) -> (r: FieldValue)
    requires
        is_scalar(*t),
        w == spec_encoded_len(*t),
        pos + w <= input@.len(),
    ensures
        r == spec_scalar_of(*t, input@.subrange(pos as int, pos + w)),
{
    let n = input.len();
    let s = vstd::slice::slice_subrange(input, pos, pos + w);
    match t {
        UorbFieldType::Bool => FieldValue::Bool(s[0] != 0),
        UorbFieldType::Char => FieldValue::Char(s[0]),
        UorbFieldType::UInt8 => FieldValue::U8(s[0]),
        UorbFieldType::Int8 => FieldValue::I8(s[0] as i8),
        UorbFieldType::UInt16 => FieldValue::U16(u16_from_le_bytes(s)),
        UorbFieldType::Int16 => FieldValue::I16(u16_from_le_bytes(s) as i16),
        UorbFieldType::UInt32 => FieldValue::U32(u32_from_le_bytes(s)),
        UorbFieldType::Int32 => FieldValue::I32(u32_from_le_bytes(s) as i32),
        UorbFieldType::Float32 => FieldValue::F32Bits(u32_from_le_bytes(s)),
        UorbFieldType::UInt64 => FieldValue::U64(u64_from_le_bytes(s)),
        UorbFieldType::Int64 => FieldValue::I64(u64_from_le_bytes(s) as i64),
        UorbFieldType::Float64 => FieldValue::F64Bits(u64_from_le_bytes(s)),
        UorbFieldType::Array(..) => FieldValue::Bool(false),
    }
}

/// Decode the scalar layout `types` from `input`: `None` exactly when
/// the input is shorter than the layout's encoded length; excess
/// trailing bytes are ignored.
pub fn decode_vals(types: &Vec<UorbFieldType>, input: &[u8]) -> (r: Option<Vec<FieldValue>>)
    requires
        all_scalar(types@),
    ensures
        match r {
            Some(v) => spec_decode_vals(types@, input@) == Some(v@),
            None => spec_decode_vals(types@, input@) is None,
        },
{
    let mut out: Vec<FieldValue> = Vec::new();
    let mut pos: usize = 0;
    let mut i: usize = 0;
    proof {
        assert(types@.skip(0) =~= types@);
        assert(input@.skip(0) =~= input@);
        match spec_decode_vals(types@, input@) {
            Some(rest) => {
                assert(out@ + rest =~= rest);
            },
            None => {},
        }
    }
    while i < types.len()
        invariant
            all_scalar(types@),
            i <= types@.len(),
            pos <= input@.len(),
            match spec_decode_vals(types@.skip(i as int), input@.skip(pos as int)) {
                Some(rest) => spec_decode_vals(types@, input@) == Some(out@ + rest),
                None => spec_decode_vals(types@, input@) is None,
            },
        decreases types@.len() - i,
    {
        let t = &types[i];
        let w = scalar_len(t);
        proof {
            assert(types@.skip(i as int)[0] == types@[i as int]);
            assert(types@.skip(i as int).skip(1) =~= types@.skip(i + 1));
        }
        if input.len() - pos < w {
            proof {
                assert(input@.skip(pos as int).len() < spec_encoded_len(types@[i as int]));
                assert(spec_decode_vals(types@.skip(i as int), input@.skip(pos as int)) is None);
            }
            return None;
        }
        let v = decode_scalar(t, input, pos, w);
        proof {
            assert(input@.skip(pos as int).take(w as int) =~= input@.subrange(
                pos as int,
                pos + w,
            ));
            assert(input@.skip(pos as int).skip(w as int) =~= input@.skip(pos + w));
            let rest0 = spec_decode_vals(types@.skip(i as int), input@.skip(pos as int));
            let rest1 = spec_decode_vals(types@.skip(i + 1), input@.skip(pos + w));
            match rest1 {
                Some(r1) => {
                    assert(rest0 == Some(seq![v] + r1));
                    assert(out@ + (seq![v] + r1) =~= out@.push(v) + r1);
                },
                None => {
                    assert(rest0 is None);
                },
            }
        }
        out.push(v);
        pos = pos + w;
        i = i + 1;
    }
    proof {
        assert(types@.skip(types@.len() as int) =~= Seq::<UorbFieldType>::empty());
        assert(spec_decode_vals(types@.skip(types@.len() as int), input@.skip(pos as int))
            == Some(Seq::<FieldValue>::empty()));
        assert(out@ + Seq::<FieldValue>::empty() =~= out@);
    }
    Some(out)
}

} // verus!

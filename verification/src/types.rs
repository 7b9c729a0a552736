//! The field type model: the closed set of primitive scalar types plus
//! recursive fixed-size arrays, with each type's wire size and its
//! source-level type name.
//!
//! Schema text is ASCII, so the library works on byte strings
//! throughout: a type token is a `&[u8]` and a rendered type name is a
//! `Vec<u8>`.

use vstd::prelude::*;

use crate::text::{all_digits, spec_dec_value, find_byte_back, parse_dec, spec_rfind_byte};

verus! {

/// The schema-language names of the primitive types.
pub open spec fn name_bool() -> Seq<u8> {
    seq![98u8, 111u8, 111u8, 108u8]
}

pub open spec fn name_char() -> Seq<u8> {
    seq![99u8, 104u8, 97u8, 114u8]
}

pub open spec fn name_uint8() -> Seq<u8> {
    seq![117u8, 105u8, 110u8, 116u8, 56u8]
}

pub open spec fn name_uint16() -> Seq<u8> {
    seq![117u8, 105u8, 110u8, 116u8, 49u8, 54u8]
}

pub open spec fn name_uint32() -> Seq<u8> {
    seq![117u8, 105u8, 110u8, 116u8, 51u8, 50u8]
}

pub open spec fn name_uint64() -> Seq<u8> {
    seq![117u8, 105u8, 110u8, 116u8, 54u8, 52u8]
}

pub open spec fn name_int8() -> Seq<u8> {
    seq![105u8, 110u8, 116u8, 56u8]
}

pub open spec fn name_int16() -> Seq<u8> {
    seq![105u8, 110u8, 116u8, 49u8, 54u8]
}

pub open spec fn name_int32() -> Seq<u8> {
    seq![105u8, 110u8, 116u8, 51u8, 50u8]
}

pub open spec fn name_int64() -> Seq<u8> {
    seq![105u8, 110u8, 116u8, 54u8, 52u8]
}

pub open spec fn name_float32() -> Seq<u8> {
    seq![102u8, 108u8, 111u8, 97u8, 116u8, 51u8, 50u8]
}

pub open spec fn name_float64() -> Seq<u8> {
    seq![102u8, 108u8, 111u8, 97u8, 116u8, 54u8, 52u8]
}

/// A field's type: one of the primitive scalars, or a fixed-size array
/// of a further field type (the count applies to the outermost
/// dimension only).
#[derive(Debug, PartialEq, Eq)]
pub enum UorbFieldType {
    Bool,
    Char,
    UInt8,
    UInt16,
    UInt32,
    UInt64,
    Int8,
    Int16,
    Int32,
    Int64,
    Float32,
    Float64,
    Array(Box<UorbFieldType>, usize),
}

/// A primitive type's schema name parsed, if the token is one.
pub open spec fn spec_parse_prim(s: Seq<u8>) -> Option<UorbFieldType> {
    if s == name_bool() {
        Some(UorbFieldType::Bool)
    } else if s == name_char() {
        Some(UorbFieldType::Char)
    } else if s == name_uint8() {
        Some(UorbFieldType::UInt8)
    } else if s == name_uint16() {
        Some(UorbFieldType::UInt16)
    } else if s == name_uint32() {
        Some(UorbFieldType::UInt32)
    } else if s == name_uint64() {
        Some(UorbFieldType::UInt64)
    } else if s == name_int8() {
        Some(UorbFieldType::Int8)
    } else if s == name_int16() {
        Some(UorbFieldType::Int16)
    } else if s == name_int32() {
        Some(UorbFieldType::Int32)
    } else if s == name_int64() {
        Some(UorbFieldType::Int64)
    } else if s == name_float32() {
        Some(UorbFieldType::Float32)
    } else if s == name_float64() {
        Some(UorbFieldType::Float64)
    } else {
        None
    }
}

/// A type token parsed: a primitive name, or `<type>[<digits>]` with
/// the outermost count after the last opening bracket.  `None` for
/// anything else, and for a count that does not fit in `usize`.
pub open spec fn spec_parse_type(s: Seq<u8>) -> Option<UorbFieldType>
    decreases s.len(),
{
    match spec_parse_prim(s) {
        Some(t) => Some(t),
        None => {
            if s.len() >= 1 && s.last() == 93u8 {
                let open = spec_rfind_byte(s, 91u8);
                if 0 <= open && open < s.len() - 1 {
                    let digits = s.subrange(open + 1, s.len() - 1);
                    if digits.len() > 0 && all_digits(digits) && spec_dec_value(digits)
                        <= usize::MAX {
                        match spec_parse_type(s.take(open)) {
                            Some(e) => Some(
                                UorbFieldType::Array(
                                    Box::new(e),
                                    spec_dec_value(digits) as usize,
                                ),
                            ),
                            None => None,
                        }
                    } else {
                        None
                    }
                } else {
                    None
                }
            } else {
                None
            }
        },
    }
}

/// Wire size of a type in bytes: 1 for the one-byte scalars, the bit
/// width over eight for the others, and element size times count for an
/// array — an array is encoded as its elements in order, with no length
/// prefix of any kind.
pub open spec fn spec_encoded_len(t: UorbFieldType) -> nat
    decreases t,
{
    match t {
        UorbFieldType::Bool => 1,
        UorbFieldType::Char => 1,
        UorbFieldType::UInt8 => 1,
        UorbFieldType::Int8 => 1,
        UorbFieldType::UInt16 => 2,
        UorbFieldType::Int16 => 2,
        UorbFieldType::UInt32 => 4,
        UorbFieldType::Int32 => 4,
        UorbFieldType::Float32 => 4,
        UorbFieldType::UInt64 => 8,
        UorbFieldType::Int64 => 8,
        UorbFieldType::Float64 => 8,
        UorbFieldType::Array(elem, count) => spec_encoded_len(*elem) * (count as nat),
    }
}

impl UorbFieldType {
    /// Encoded size of a given type, in bytes
    pub fn encoded_len(&self) -> (r: usize)
        requires
            spec_encoded_len(*self) <= usize::MAX,
        ensures
            r == spec_encoded_len(*self),
        decreases *self,
    {
        match self {
            UorbFieldType::Bool => 1,
            UorbFieldType::Char => 1,
            UorbFieldType::UInt8 => 1,
            UorbFieldType::Int8 => 1,
            UorbFieldType::UInt16 => 2,
            UorbFieldType::Int16 => 2,
            UorbFieldType::UInt32 => 4,
            UorbFieldType::Int32 => 4,
            UorbFieldType::Float32 => 4,
            UorbFieldType::UInt64 => 8,
            UorbFieldType::Int64 => 8,
            UorbFieldType::Float64 => 8,
            UorbFieldType::Array(elem, count) => {
                if *count == 0 {
                    0
                } else {
                    proof {
                        lemma_array_elem_len_bound(**elem, *count);
                    }
                    let e = elem.encoded_len();
                    e * *count
                }
            },
        }
    }
}

/// Recognize a primitive type's schema name.
fn prim_of(s: &[u8]) -> (r: Option<UorbFieldType>)
    ensures
        r == spec_parse_prim(s@),
{
    let n = s.len();
    if n == 4 {
        if s[0] == 98u8 && s[1] == 111u8 && s[2] == 111u8 && s[3] == 108u8 {
            proof {
                assert(s@ =~= name_bool());
            }
            return Some(UorbFieldType::Bool);
        }
        if s[0] == 99u8 && s[1] == 104u8 && s[2] == 97u8 && s[3] == 114u8 {
            proof {
                assert(s@ =~= name_char());
            }
            return Some(UorbFieldType::Char);
        }
        if s[0] == 105u8 && s[1] == 110u8 && s[2] == 116u8 && s[3] == 56u8 {
            proof {
                assert(s@ =~= name_int8());
            }
            return Some(UorbFieldType::Int8);
        }
        return None;
    }
    if n == 5 {
        if s[0] == 117u8 && s[1] == 105u8 && s[2] == 110u8 && s[3] == 116u8 && s[4] == 56u8 {
            proof {
                assert(s@ =~= name_uint8());
            }
            return Some(UorbFieldType::UInt8);
        }
        if s[0] == 105u8 && s[1] == 110u8 && s[2] == 116u8 && s[3] == 49u8 && s[4] == 54u8 {
            proof {
                assert(s@ =~= name_int16());
            }
            return Some(UorbFieldType::Int16);
        }
        if s[0] == 105u8 && s[1] == 110u8 && s[2] == 116u8 && s[3] == 51u8 && s[4] == 50u8 {
            proof {
                assert(s@ =~= name_int32());
            }
            return Some(UorbFieldType::Int32);
        }
        if s[0] == 105u8 && s[1] == 110u8 && s[2] == 116u8 && s[3] == 54u8 && s[4] == 52u8 {
            proof {
                assert(s@ =~= name_int64());
            }
            return Some(UorbFieldType::Int64);
        }
        return None;
    }
    if n == 6 {
        if s[0] == 117u8 && s[1] == 105u8 && s[2] == 110u8 && s[3] == 116u8 {
            if s[4] == 49u8 && s[5] == 54u8 {
                proof {
                    assert(s@ =~= name_uint16());
                }
                return Some(UorbFieldType::UInt16);
            }
            if s[4] == 51u8 && s[5] == 50u8 {
                proof {
                    assert(s@ =~= name_uint32());
                }
                return Some(UorbFieldType::UInt32);
            }
            if s[4] == 54u8 && s[5] == 52u8 {
                proof {
                    assert(s@ =~= name_uint64());
                }
                return Some(UorbFieldType::UInt64);
            }
        }
        return None;
    }
    if n == 7 {
        if s[0] == 102u8 && s[1] == 108u8 && s[2] == 111u8 && s[3] == 97u8 && s[4] == 116u8 {
            if s[5] == 51u8 && s[6] == 50u8 {
                proof {
                    assert(s@ =~= name_float32());
                }
                return Some(UorbFieldType::Float32);
            }
            if s[5] == 54u8 && s[6] == 52u8 {
                proof {
                    assert(s@ =~= name_float64());
                }
                return Some(UorbFieldType::Float64);
            }
        }
        return None;
    }
    None
}

impl UorbFieldType {
    /// Parse a schema type token: a primitive name, or `<type>[<N>]`
    /// with `N` a decimal count on the outermost array dimension.
    pub fn parse_type(s: &[u8]) -> (r: Option<UorbFieldType>)
        ensures
            r == spec_parse_type(s@),
        decreases s@.len(),
    {
        match prim_of(s) {
            Some(t) => Some(t),
            None => {
                let n = s.len();
                if n >= 1 && s[n - 1] == 93u8 {
                    match find_byte_back(s, 91u8) {
                        Some(open) => {
                            if open < n - 1 {
                                let digits = vstd::slice::slice_subrange(s, open + 1, n - 1);
                                match parse_dec(digits) {
                                    Some(count) => {
                                        let prefix = vstd::slice::slice_subrange(s, 0, open);
                                        proof {
                                            assert(prefix@ =~= s@.take(open as int));
                                        }
                                        match Self::parse_type(prefix) {
                                            Some(e) => Some(
                                                UorbFieldType::Array(Box::new(e), count),
                                            ),
                                            None => None,
                                        }
                                    },
                                    None => None,
                                }
                            } else {
                                None
                            }
                        },
                        None => None,
                    }
                } else {
                    None
                }
            },
        }
    }
}

/// If an array fits in `usize`, so does its element type (a count of
/// zero makes the array length zero, where nothing is claimed of the
/// element).
proof fn lemma_array_elem_len_bound(elem: UorbFieldType, count: usize)
    requires
        spec_encoded_len(UorbFieldType::Array(Box::new(elem), count)) <= usize::MAX,
    ensures
        count > 0 ==> spec_encoded_len(elem) <= usize::MAX,
        spec_encoded_len(elem) * count <= usize::MAX,
{
    if count > 0 {
        assert(spec_encoded_len(elem) * 1 <= spec_encoded_len(elem) * count) by (nonlinear_arith)
            requires
                count >= 1,
        ;
    }
}

/// True of the primitive scalar types; false of arrays.
pub open spec fn is_scalar(t: UorbFieldType) -> bool {
    !(t is Array)
}

/// Every entry of the sequence is a primitive scalar type.
pub open spec fn all_scalar(types: Seq<UorbFieldType>) -> bool {
    forall|i: int| 0 <= i < types.len() ==> is_scalar(#[trigger] types[i])
}

/// The sequence repeated `n` times.
pub open spec fn spec_repeat<A>(s: Seq<A>, n: nat) -> Seq<A>
    decreases n,
{
    if n == 0 {
        Seq::empty()
    } else {
        s + spec_repeat(s, (n - 1) as nat)
    }
}

/// The flat scalar layout of a type: a primitive is itself, and an
/// array is its element's layout repeated `count` times.  A message
/// value is a sequence of scalars matching this layout in order.
pub open spec fn spec_flat_types(t: UorbFieldType) -> Seq<UorbFieldType>
    decreases t,
{
    match t {
        UorbFieldType::Array(elem, count) => spec_repeat(spec_flat_types(*elem), count as nat),
        _ => seq![t],
    }
}

/// Sum of the wire sizes of a sequence of scalar types.
pub open spec fn spec_sum_len(types: Seq<UorbFieldType>) -> nat
    decreases types.len(),
{
    if types.len() == 0 {
        0
    } else {
        spec_encoded_len(types[0]) + spec_sum_len(types.skip(1))
    }
}

pub proof fn lemma_sum_len_concat(a: Seq<UorbFieldType>, b: Seq<UorbFieldType>)
    ensures
        spec_sum_len(a + b) == spec_sum_len(a) + spec_sum_len(b),
    decreases a.len(),
{
    if a.len() == 0 {
        assert(a + b =~= b);
    } else {
        assert((a + b).skip(1) =~= a.skip(1) + b);
        lemma_sum_len_concat(a.skip(1), b);
    }
}

proof fn lemma_sum_len_repeat(s: Seq<UorbFieldType>, n: nat)
    ensures
        spec_sum_len(spec_repeat(s, n)) == n * spec_sum_len(s),
    decreases n,
{
    if n == 0 {
    } else {
        lemma_sum_len_repeat(s, (n - 1) as nat);
        lemma_sum_len_concat(s, spec_repeat(s, (n - 1) as nat));
        assert(spec_sum_len(s) + (n - 1) * spec_sum_len(s) == n * spec_sum_len(s))
            by (nonlinear_arith);
    }
}

pub proof fn lemma_all_scalar_concat(a: Seq<UorbFieldType>, b: Seq<UorbFieldType>)
    requires
        all_scalar(a),
        all_scalar(b),
    ensures
        all_scalar(a + b),
{
    assert forall|i: int| 0 <= i < (a + b).len() implies is_scalar(#[trigger] (a + b)[i]) by {
        if i < a.len() {
            assert((a + b)[i] == a[i]);
        } else {
            assert((a + b)[i] == b[i - a.len()]);
        }
    }
}

proof fn lemma_all_scalar_repeat(s: Seq<UorbFieldType>, n: nat)
    requires
        all_scalar(s),
    ensures
        all_scalar(spec_repeat(s, n)),
    decreases n,
{
    if n == 0 {
    } else {
        lemma_all_scalar_repeat(s, (n - 1) as nat);
        lemma_all_scalar_concat(s, spec_repeat(s, (n - 1) as nat));
    }
}

/// The flat layout of a type holds only scalars, and its wire sizes sum
/// to the type's encoded length.
pub proof fn lemma_flat_types_props(t: UorbFieldType)
    ensures
        all_scalar(spec_flat_types(t)),
        spec_sum_len(spec_flat_types(t)) == spec_encoded_len(t),
    decreases t,
{
    match t {
        UorbFieldType::Array(elem, count) => {
            lemma_flat_types_props(*elem);
            lemma_all_scalar_repeat(spec_flat_types(*elem), count as nat);
            lemma_sum_len_repeat(spec_flat_types(*elem), count as nat);
            assert((count as nat) * spec_encoded_len(*elem) == spec_encoded_len(*elem) * (
            count as nat)) by (nonlinear_arith);
        },
        _ => {
            assert(spec_flat_types(t) =~= seq![t]);
            assert(spec_sum_len(seq![t].skip(1)) == 0);
        },
    }
}

impl UorbFieldType {
    /// A structurally equal copy (the derived `Clone` carries no
    /// contract, so copies the proofs depend on are made here).
    pub fn dup(&self) -> (r: Self)
        ensures
            r == *self,
        decreases *self,
    {
        match self {
            UorbFieldType::Bool => UorbFieldType::Bool,
            UorbFieldType::Char => UorbFieldType::Char,
            UorbFieldType::UInt8 => UorbFieldType::UInt8,
            UorbFieldType::UInt16 => UorbFieldType::UInt16,
            UorbFieldType::UInt32 => UorbFieldType::UInt32,
            UorbFieldType::UInt64 => UorbFieldType::UInt64,
            UorbFieldType::Int8 => UorbFieldType::Int8,
            UorbFieldType::Int16 => UorbFieldType::Int16,
            UorbFieldType::Int32 => UorbFieldType::Int32,
            UorbFieldType::Int64 => UorbFieldType::Int64,
            UorbFieldType::Float32 => UorbFieldType::Float32,
            UorbFieldType::Float64 => UorbFieldType::Float64,
            UorbFieldType::Array(elem, count) => UorbFieldType::Array(
                Box::new(elem.dup()),
                *count,
            ),
        }
    }

    /// Append the flat scalar layout of this type to `out`.
    pub fn push_flat(&self, out: &mut Vec<UorbFieldType>)
        ensures
            final(out)@ == old(out)@ + spec_flat_types(*self),
        decreases *self,
    {
        match self {
            UorbFieldType::Array(elem, count) => {
                let mut unit: Vec<UorbFieldType> = Vec::new();
                elem.push_flat(&mut unit);
                let ghost base = out@;
                let mut i: usize = 0;
                while i < *count
                    invariant
                        i <= *count,
                        out@ == base + spec_repeat(unit@, i as nat),
                        unit@ == spec_flat_types(**elem),
                    decreases *count - i,
                {
                    let mut j: usize = 0;
                    while j < unit.len()
                        invariant
                            j <= unit@.len(),
                            out@ == base + spec_repeat(unit@, i as nat) + unit@.take(j as int),
                        decreases unit@.len() - j,
                    {
                        let t = unit[j].dup();
                        out.push(t);
                        proof {
                            assert(unit@.take(j as int).push(unit@[j as int]) =~= unit@.take(
                            j + 1));
                        }
                        j = j + 1;
                    }
                    proof {
                        lemma_repeat_snoc(unit@, i as nat);
                        assert(unit@.take(unit@.len() as int) =~= unit@);
                        assert(base + spec_repeat(unit@, i as nat) + unit@ =~= base + spec_repeat(
                        unit@,
                        (i + 1) as nat,
                        ));
                    }
                    i = i + 1;
                }
            },
            _ => {
                let t = self.dup();
                out.push(t);
                proof {
                    assert(out@ =~= old(out)@ + spec_flat_types(*self));
                }
            },
        }
    }
}

/// Repeating once more appends one copy at the end.
proof fn lemma_repeat_snoc<A>(s: Seq<A>, n: nat)
    ensures
        spec_repeat(s, n + 1) =~= spec_repeat(s, n) + s,
    decreases n,
{
    if n == 0 {
        assert(spec_repeat(s, 0) =~= Seq::<A>::empty());
        assert(spec_repeat(s, 1) =~= s);
    } else {
        lemma_repeat_snoc(s, (n - 1) as nat);
    }
}


/// The Rust type name of each primitive, as generated code would spell
/// it.
pub open spec fn spec_rust_prim_name(t: UorbFieldType) -> Seq<u8> {
    match t {
        UorbFieldType::Bool => seq![98u8, 111u8, 111u8, 108u8],
        UorbFieldType::Char => seq![99u8, 104u8, 97u8, 114u8],
        UorbFieldType::UInt8 => seq![117u8, 56u8],
        UorbFieldType::UInt16 => seq![117u8, 49u8, 54u8],
        UorbFieldType::UInt32 => seq![117u8, 51u8, 50u8],
        UorbFieldType::UInt64 => seq![117u8, 54u8, 52u8],
        UorbFieldType::Int8 => seq![105u8, 56u8],
        UorbFieldType::Int16 => seq![105u8, 49u8, 54u8],
        UorbFieldType::Int32 => seq![105u8, 51u8, 50u8],
        UorbFieldType::Int64 => seq![105u8, 54u8, 52u8],
        UorbFieldType::Float32 => seq![102u8, 51u8, 50u8],
        UorbFieldType::Float64 => seq![102u8, 54u8, 52u8],
        UorbFieldType::Array(..) => Seq::empty(),
    }
}

/// Decimal digits of a number, most significant first.
pub open spec fn spec_dec_digits(n: nat) -> Seq<u8>
    decreases n,
{
    if n < 10 {
        seq![(48 + n) as u8]
    } else {
        spec_dec_digits(n / 10) + seq![(48 + n % 10) as u8]
    }
}

/// The Rust type a field of this type gets in a generated record: the
/// primitive name, a fixed-size array `[T;N]` for a count of at most
/// 32, and a growable `Vec<T> /* N elements */` above that.  The
/// threshold affects only this in-memory representation, never the
/// wire encoding.
pub open spec fn spec_rust_type(t: UorbFieldType) -> Seq<u8>
    decreases t,
{
    match t {
        UorbFieldType::Array(elem, count) => {
            if count > 32 {
                // "Vec<" elem "> /* " count " elements */"
                seq![86u8, 101u8, 99u8, 60u8] + spec_rust_type(*elem) + seq![
                    62u8,
                    32u8,
                    47u8,
                    42u8,
                    32u8,
                ] + spec_dec_digits(count as nat) + seq![
                    32u8,
                    101u8,
                    108u8,
                    101u8,
                    109u8,
                    101u8,
                    110u8,
                    116u8,
                    115u8,
                    32u8,
                    42u8,
                    47u8,
                ]
            } else {
                // "[" elem ";" count "]"
                seq![91u8] + spec_rust_type(*elem) + seq![59u8] + spec_dec_digits(count as nat)
                    + seq![93u8]
            }
        },
        _ => spec_rust_prim_name(t),
    }
}

/// Append the decimal digits of `n`.
fn push_dec_digits(n: usize, out: &mut Vec<u8>)
    ensures
        final(out)@ == old(out)@ + spec_dec_digits(n as nat),
    decreases n,
{
    if n < 10 {
        out.push((48 + n) as u8);
        proof {
            assert(out@ =~= old(out)@ + spec_dec_digits(n as nat));
        }
    } else {
        push_dec_digits(n / 10, out);
        out.push((48 + n % 10) as u8);
        proof {
            assert(out@ =~= old(out)@ + spec_dec_digits(n as nat));
        }
    }
}

impl UorbFieldType {
    /// Append this type's Rust spelling to `out`.
    fn push_rust_type(&self, out: &mut Vec<u8>)
        ensures
            final(out)@ == old(out)@ + spec_rust_type(*self),
        decreases *self,
    {
        match self {
            UorbFieldType::Array(elem, count) => {
                if *count > 32 {
                    out.push(86u8);
                    out.push(101u8);
                    out.push(99u8);
                    out.push(60u8);
                    elem.push_rust_type(out);
                    out.push(62u8);
                    out.push(32u8);
                    out.push(47u8);
                    out.push(42u8);
                    out.push(32u8);
                    push_dec_digits(*count, out);
                    out.push(32u8);
                    out.push(101u8);
                    out.push(108u8);
                    out.push(101u8);
                    out.push(109u8);
                    out.push(101u8);
                    out.push(110u8);
                    out.push(116u8);
                    out.push(115u8);
                    out.push(32u8);
                    out.push(42u8);
                    out.push(47u8);
                    proof {
                        assert(out@ =~= old(out)@ + spec_rust_type(*self));
                    }
                } else {
                    out.push(91u8);
                    elem.push_rust_type(out);
                    out.push(59u8);
                    push_dec_digits(*count, out);
                    out.push(93u8);
                    proof {
                        assert(out@ =~= old(out)@ + spec_rust_type(*self));
                    }
                }
            },
            _ => {
                let name = rust_prim_name_vec(self);
                let mut i: usize = 0;
                let n = name.len();
                while i < n
                    invariant
                        i <= n,
                        n == name@.len(),
                        out@ == old(out)@ + name@.take(i as int),
                    decreases n - i,
                {
                    out.push(name[i]);
                    proof {
                        assert(old(out)@ + name@.take(i as int) + seq![name@[i as int]] =~= old(
                            out,
                        )@ + name@.take(i + 1));
                    }
                    i = i + 1;
                }
                proof {
                    assert(name@.take(n as int) =~= name@);
                }
            },
        }
    }

    /// Return rust equivalent of a given UorbFieldType
    pub fn rust_type(&self) -> (r: Vec<u8>)
        ensures
            r@ == spec_rust_type(*self),
    {
        let mut out: Vec<u8> = Vec::new();
        self.push_rust_type(&mut out);
        proof {
            assert(Seq::<u8>::empty() + spec_rust_type(*self) =~= spec_rust_type(*self));
        }
        out
    }
}

/// The primitive's Rust name as a byte vector.
fn rust_prim_name_vec(t: &UorbFieldType) -> (r: Vec<u8>)
    requires
        is_scalar(*t),
    ensures
        r@ == spec_rust_prim_name(*t),
{
    let mut v: Vec<u8> = Vec::new();
    match t {
        UorbFieldType::Bool => {
            v.push(98u8);
            v.push(111u8);
            v.push(111u8);
            v.push(108u8);
        },
        UorbFieldType::Char => {
            v.push(99u8);
            v.push(104u8);
            v.push(97u8);
            v.push(114u8);
        },
        UorbFieldType::UInt8 => {
            v.push(117u8);
            v.push(56u8);
        },
        UorbFieldType::UInt16 => {
            v.push(117u8);
            v.push(49u8);
            v.push(54u8);
        },
        UorbFieldType::UInt32 => {
            v.push(117u8);
            v.push(51u8);
            v.push(50u8);
        },
        UorbFieldType::UInt64 => {
            v.push(117u8);
            v.push(54u8);
            v.push(52u8);
        },
        UorbFieldType::Int8 => {
            v.push(105u8);
            v.push(56u8);
        },
        UorbFieldType::Int16 => {
            v.push(105u8);
            v.push(49u8);
            v.push(54u8);
        },
        UorbFieldType::Int32 => {
            v.push(105u8);
            v.push(51u8);
            v.push(50u8);
        },
        UorbFieldType::Int64 => {
            v.push(105u8);
            v.push(54u8);
            v.push(52u8);
        },
        UorbFieldType::Float32 => {
            v.push(102u8);
            v.push(51u8);
            v.push(50u8);
        },
        UorbFieldType::Float64 => {
            v.push(102u8);
            v.push(54u8);
            v.push(52u8);
        },
        UorbFieldType::Array(..) => {},
    }
    proof {
        assert(v@ =~= spec_rust_prim_name(*t));
    }
    v
}

} // verus!


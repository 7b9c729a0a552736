//! Per-message codec operations: a message descriptor's flat scalar
//! layout, its fixed encoded length, and `ser`/`deser` over values in
//! declared order.

use vstd::prelude::*;

use crate::codec::{
    FieldValue, decode_vals, encode_vals, lemma_codec_round_trip, lemma_decode_some_iff,
    lemma_encode_vals_len, scalar_len, spec_decode_vals, spec_encode_vals, vals_match,
};
use crate::parser::{FieldModel, UorbMsg};
use crate::types::{
    UorbFieldType, all_scalar, lemma_all_scalar_concat, lemma_flat_types_props,
    lemma_sum_len_concat, spec_encoded_len, spec_flat_types, spec_sum_len,
};

verus! {

/// The flat scalar layout of a field list: each field's layout in
/// declared order.
pub open spec fn spec_fields_flat(fields: Seq<FieldModel>) -> Seq<UorbFieldType>
    decreases fields.len(),
{
    if fields.len() == 0 {
        Seq::empty()
    } else {
        spec_flat_types(fields[0].ty) + spec_fields_flat(fields.skip(1))
    }
}

/// A message's fixed encoded length: the sum of its scalar sizes.
pub open spec fn spec_msg_encoded_len(fields: Seq<FieldModel>) -> nat {
    spec_sum_len(spec_fields_flat(fields))
}

/// A field list's flat layout holds only scalars.
pub proof fn lemma_fields_flat_scalar(fields: Seq<FieldModel>)
    ensures
        all_scalar(spec_fields_flat(fields)),
    decreases fields.len(),
{
    if fields.len() == 0 {
    } else {
        lemma_flat_types_props(fields[0].ty);
        lemma_fields_flat_scalar(fields.skip(1));
        lemma_all_scalar_concat(spec_flat_types(fields[0].ty), spec_fields_flat(fields.skip(1)));
    }
}

/// Appending one field appends its layout.
proof fn lemma_fields_flat_snoc(fields: Seq<FieldModel>, f: FieldModel)
    ensures
        spec_fields_flat(fields.push(f)) == spec_fields_flat(fields) + spec_flat_types(f.ty),
    decreases fields.len(),
{
    if fields.len() == 0 {
        assert(fields.push(f)[0] == f);
        assert(fields.push(f).skip(1) =~= Seq::<FieldModel>::empty());
        assert(spec_fields_flat(fields.push(f).skip(1)) == Seq::<UorbFieldType>::empty());
        assert(spec_fields_flat(fields) == Seq::<UorbFieldType>::empty());
        assert(spec_fields_flat(fields.push(f)) =~= spec_fields_flat(fields) + spec_flat_types(
            f.ty,
        ));
    } else {
        assert(fields.push(f)[0] == fields[0]);
        assert(fields.push(f).skip(1) =~= fields.skip(1).push(f));
        lemma_fields_flat_snoc(fields.skip(1), f);
        assert(spec_fields_flat(fields.push(f)) =~= spec_fields_flat(fields) + spec_flat_types(
            f.ty,
        ));
    }
}

impl UorbMsg {
    /// The message's flat scalar layout, in wire order.
    pub fn flat_types(&self) -> (r: Vec<UorbFieldType>)
        ensures
            r@ == spec_fields_flat(self@.fields),
            all_scalar(r@),
    {
        let mut out: Vec<UorbFieldType> = Vec::new();
        let n = self.fields.len();
        let mut i: usize = 0;
        proof {
            assert(self@.fields.take(0) =~= Seq::<FieldModel>::empty());
            assert(out@ =~= spec_fields_flat(self@.fields.take(0)));
        }
        while i < n
            invariant
                i <= n,
                n == self.fields@.len(),
                self@.fields.len() == n,
                out@ == spec_fields_flat(self@.fields.take(i as int)),
            decreases n - i,
        {
            proof {
                assert(self@.fields[i as int].ty == self.fields@[i as int].uorbtype);
            }
            self.fields[i].uorbtype.push_flat(&mut out);
            proof {
                lemma_fields_flat_snoc(self@.fields.take(i as int), self@.fields[i as int]);
                assert(self@.fields.take(i + 1) =~= self@.fields.take(i as int).push(
                    self@.fields[i as int],
                ));
            }
            i = i + 1;
        }
        proof {
            assert(self@.fields.take(n as int) =~= self@.fields);
            lemma_fields_flat_scalar(self@.fields);
        }
        out
    }

    /// Encoded size of this message, in bytes
    pub fn encoded_len(&self) -> (r: usize)
        requires
            spec_msg_encoded_len(self@.fields) <= usize::MAX,
        ensures
            r == spec_msg_encoded_len(self@.fields),
    {
        let ts = self.flat_types();
        let n = ts.len();
        let mut total: usize = 0;
        let mut i: usize = 0;
        proof {
            assert(ts@.take(0) =~= Seq::<UorbFieldType>::empty());
        }
        while i < n
            invariant
                i <= n,
                n == ts@.len(),
                all_scalar(ts@),
                spec_sum_len(ts@) <= usize::MAX,
                total == spec_sum_len(ts@.take(i as int)),
            decreases n - i,
        {
            let w = scalar_len(&ts[i]);
            proof {
                lemma_sum_len_snoc(ts@, i as int);
                assert(ts@ =~= ts@.take(i + 1) + ts@.skip(i + 1));
                lemma_sum_len_concat(ts@.take(i + 1), ts@.skip(i + 1));
            }
            total = total + w;
            i = i + 1;
        }
        proof {
            assert(ts@.take(n as int) =~= ts@);
        }
        total
    }

    /// The message's encoded length, or `None` where it does not fit
    /// the machine word (a guard for callers that cannot assume it).
    pub fn encoded_len_checked(&self) -> (r: Option<usize>)
        ensures
            match r {
                Some(v) => v == spec_msg_encoded_len(self@.fields),
                None => spec_msg_encoded_len(self@.fields) > usize::MAX,
            },
    {
        let ts = self.flat_types();
        let n = ts.len();
        let mut total: usize = 0;
        let mut i: usize = 0;
        proof {
            assert(ts@.take(0) =~= Seq::<UorbFieldType>::empty());
        }
        while i < n
            invariant
                i <= n,
                n == ts@.len(),
                all_scalar(ts@),
                ts@ == spec_fields_flat(self@.fields),
                total == spec_sum_len(ts@.take(i as int)),
            decreases n - i,
        {
            let w = scalar_len(&ts[i]);
            proof {
                lemma_sum_len_snoc(ts@, i as int);
            }
            match total.checked_add(w) {
                Some(t2) => {
                    total = t2;
                },
                None => {
                    proof {
                        assert(ts@ =~= ts@.take(i + 1) + ts@.skip(i + 1));
                        lemma_sum_len_concat(ts@.take(i + 1), ts@.skip(i + 1));
                    }
                    return None;
                },
            }
            i = i + 1;
        }
        proof {
            assert(ts@.take(n as int) =~= ts@);
        }
        Some(total)
    }

    /// serialize the message's values as bytes: each scalar
    /// little-endian, in declared order, with no length prefixes.  The
    /// result's length is exactly the message's encoded length.
    pub fn ser(&self, vals: &Vec<FieldValue>) -> (r: Vec<u8>)
        requires
            vals_match(vals@, spec_fields_flat(self@.fields)),
        ensures
            r@ == spec_encode_vals(vals@),
            r@.len() == spec_msg_encoded_len(self@.fields),
    {
        let out = encode_vals(vals);
        proof {
            lemma_encode_vals_len(vals@, spec_fields_flat(self@.fields));
        }
        out
    }

    /// Decode a message value from bytes: `None` exactly when the
    /// input is shorter than the message's encoded length; excess
    /// trailing bytes are ignored.
    pub fn deser(&self, input: &[u8]) -> (r: Option<Vec<FieldValue>>)
        ensures
            match r {
                Some(v) => {
                    &&& input@.len() >= spec_msg_encoded_len(self@.fields)
                    &&& spec_decode_vals(spec_fields_flat(self@.fields), input@) == Some(v@)
                    &&& vals_match(v@, spec_fields_flat(self@.fields))
                },
                None => input@.len() < spec_msg_encoded_len(self@.fields),
            },
    {
        let ts = self.flat_types();
        let r = decode_vals(&ts, input);
        proof {
            lemma_decode_some_iff(ts@, input@);
        }
        r
    }
}

/// Round trip: decoding a message's own encoding returns the values,
/// whatever bytes follow the payload.
pub proof fn lemma_msg_round_trip(
    fields: Seq<FieldModel>,
    vals: Seq<FieldValue>,
    tail: Seq<u8>,
)
    requires
        vals_match(vals, spec_fields_flat(fields)),
    ensures
        spec_decode_vals(spec_fields_flat(fields), spec_encode_vals(vals) + tail) == Some(vals),
{
    lemma_codec_round_trip(spec_fields_flat(fields), vals, tail);
}

/// A prefix of a layout weighs no more than the whole.
proof fn lemma_sum_len_snoc(ts: Seq<UorbFieldType>, i: int)
    requires
        0 <= i < ts.len(),
    ensures
        spec_sum_len(ts.take(i + 1)) == spec_sum_len(ts.take(i)) + spec_encoded_len(ts[i]),
{
    assert(ts.take(i + 1) =~= ts.take(i) + seq![ts[i]]);
    lemma_sum_len_concat(ts.take(i), seq![ts[i]]);
    assert(seq![ts[i]].skip(1) =~= Seq::<UorbFieldType>::empty());
    assert(spec_sum_len(seq![ts[i]].skip(1)) == 0);
    assert(spec_sum_len(seq![ts[i]]) == spec_encoded_len(ts[i]));
}

} // verus!

//! The schema registry: all message descriptors of a deployment,
//! assembled once at build time, with hash-keyed dispatch.
//!
//! Each registered message gets a camel-cased display name and the
//! CRC-16/X-25 hash of its raw name.  A hash collision between two
//! registered names fails the build; once built, the registry is
//! read-only and `parse` dispatches incoming payloads purely from the
//! 16-bit hash, by exact match.

use vstd::prelude::*;

use crate::codec::{
    FieldValue, fits, lemma_encode_vals_len, scalar_len, spec_decode_vals, spec_encode_vals,
    vals_match,
};
use crate::hash::hash16_of;
use crate::message::{lemma_msg_round_trip, spec_fields_flat, spec_msg_encoded_len};
use crate::parser::{MsgModel, SchemaError, UorbMsg, bytes_views, spec_fold_lines, spec_msg_of};
use crate::types::{UorbFieldType, all_scalar, lemma_sum_len_concat, spec_sum_len};

verus! {

/// The camel-cased form of a raw schema name.
pub uninterp spec fn camel_of(s: Seq<u8>) -> Seq<u8>;

/// Relies on heck's ToUpperCamelCase for str: the conversion depends
/// on the input characters alone.
#[verifier::external_body]
fn to_camel_case(s: &[u8]) -> (r: Vec<u8>)
    ensures
        r@ == camel_of(s@),
{
    let text = String::from_utf8_lossy(s);
    heck::ToUpperCamelCase::to_upper_camel_case(text.as_ref()).into_bytes()
}

/// A fatal registry-build error.
#[derive(Debug)]
pub enum BuildError {
    /// A schema file is invalid.
    Syntax(SchemaError),
    /// Two raw message names hash identically; both are named so the
    /// schema author can rename one.
    DuplicateHash { hash: u16, first: Vec<u8>, second: Vec<u8> },
}

/// One incoming message, dispatched by hash: the closed union over the
/// registered message set, keyed by the identity hash, with the
/// message's values in declared order.
#[derive(Debug, PartialEq, Eq)]
pub struct UorbMessage {
    pub hash: u16,
    pub values: Vec<FieldValue>,
}

/// The registered message with the given hash, if any (the first, and
/// with unique hashes the only, match).
pub open spec fn spec_msg_with_hash(msgs: Seq<MsgModel>, hash: u16) -> Option<MsgModel>
    decreases msgs.len(),
{
    if msgs.len() == 0 {
        None
    } else if msgs[0].hash == hash {
        Some(msgs[0])
    } else {
        spec_msg_with_hash(msgs.skip(1), hash)
    }
}

/// The schema registry under construction: processes one message
/// description at a time and, once all are in, serves as the immutable
/// dispatch table.
pub struct Parser {
    pub messages: Vec<UorbMsg>,
}

impl View for Parser {
    type V = Seq<MsgModel>;

    open spec fn view(&self) -> Seq<MsgModel> {
        Seq::new(self.messages@.len(), |i: int| self.messages@[i]@)
    }
}

impl Parser {
    /// All registered hashes are distinct.
    pub open spec fn wf(&self) -> bool {
        forall|i: int, j: int|
            0 <= i < j < self@.len() ==> #[trigger] self@[i].hash != #[trigger] self@[j].hash
    }

    pub fn new() -> (r: Parser)
        ensures
            r@.len() == 0,
            r.wf(),
    {
        Parser { messages: Vec::new() }
    }

    /// Register one message description: derive its display name by
    /// camel-casing the raw name, parse the text, and fail on an
    /// invalid schema or on an identity-hash collision with a message
    /// registered earlier.
    pub fn generate(&mut self, raw_name: Vec<u8>, lines: &Vec<Vec<u8>>) -> (r: Result<
        (),
        BuildError,
    >)
        requires
            old(self).wf(),
        ensures
            final(self).wf(),
            match r {
                Ok(()) => {
                    &&& final(self)@.len() == old(self)@.len() + 1
                    &&& final(self)@.take(old(self)@.len() as int) == old(self)@
                    &&& spec_msg_of(
                        raw_name@,
                        camel_of(raw_name@),
                        bytes_views(lines@),
                        final(self)@.last(),
                    )
                    &&& spec_msg_with_hash(old(self)@, hash16_of(raw_name@)) is None
                },
                Err(BuildError::Syntax(e)) => {
                    &&& final(self)@ == old(self)@
                    &&& spec_fold_lines(bytes_views(lines@)) == Err::<
                        crate::parser::ParsedLines,
                        SchemaError,
                    >(e)
                },
                Err(BuildError::DuplicateHash { hash, first, second }) => {
                    &&& final(self)@ == old(self)@
                    &&& hash == hash16_of(raw_name@)
                    &&& second@ == raw_name@
                    &&& match spec_msg_with_hash(old(self)@, hash16_of(raw_name@)) {
                        Some(m) => first@ == m.raw_name,
                        None => false,
                    }
                    &&& spec_fold_lines(bytes_views(lines@)) is Ok
                },
            },
    {
        let name = to_camel_case(raw_name.as_slice());
        let msg = match UorbMsg::from_lines(raw_name, name, lines) {
            Ok(m) => m,
            Err(e) => {
                return Err(BuildError::Syntax(e));
            },
        };
        match self.find_by_hash(msg.name_hash_val) {
            Some(idx) => {
                let first = vstd::slice::slice_to_vec(self.messages[idx].raw_name.as_slice());
                let second = msg.raw_name;
                Err(BuildError::DuplicateHash { hash: msg.name_hash_val, first, second })
            },
            None => {
                let ghost pre = self@;
                self.messages.push(msg);
                proof {
                    assert(self@.take(pre.len() as int) =~= pre);
                    assert forall|i: int, j: int| 0 <= i < j < self@.len() implies #[trigger] self@[
                        i
                    ].hash != #[trigger] self@[j].hash by {
                        if j < pre.len() {
                            assert(self@[i] == pre[i] && self@[j] == pre[j]);
                        } else {
                            assert(self@[i] == pre[i]);
                            lemma_msg_with_hash_none(pre, self@[j].hash, i);
                        }
                    }
                }
                Ok(())
            },
        }
    }

    /// Index of the registered message with this hash, if any.
    pub(crate) fn find_by_hash(&self, hash: u16) -> (r: Option<usize>)
        ensures
            match r {
                Some(idx) => {
                    &&& idx < self@.len()
                    &&& self@[idx as int].hash == hash
                    &&& spec_msg_with_hash(self@, hash) == Some(self@[idx as int])
                },
                None => spec_msg_with_hash(self@, hash) is None,
            },
    {
        let n = self.messages.len();
        let mut i: usize = 0;
        proof {
            assert(self@.skip(0) =~= self@);
        }
        while i < n
            invariant
                i <= n,
                n == self.messages@.len(),
                spec_msg_with_hash(self@, hash) == spec_msg_with_hash(
                    self@.skip(i as int),
                    hash,
                ),
            decreases n - i,
        {
            proof {
                assert(self@.skip(i as int)[0] == self@[i as int]);
                assert(self@.skip(i as int).skip(1) =~= self@.skip(i + 1));
            }
            if self.messages[i].name_hash_val == hash {
                return Some(i);
            }
            i = i + 1;
        }
        proof {
            assert(self@.skip(n as int) =~= Seq::<MsgModel>::empty());
        }
        None
    }

    /// Dispatch a payload by hash: an exact-match lookup against the
    /// registry and, on a match, that message's decoder on the
    /// payload.  `None` when the hash is not registered, and when the
    /// payload is shorter than the matched message's encoded length.
    pub fn parse(&self, hash_val: u16, payload: &[u8]) -> (r: Option<UorbMessage>)
        ensures
            match spec_msg_with_hash(self@, hash_val) {
                None => r is None,
                Some(m) => match r {
                    Some(um) => {
                        &&& um.hash == hash_val
                        &&& payload@.len() >= spec_msg_encoded_len(m.fields)
                        &&& spec_decode_vals(spec_fields_flat(m.fields), payload@) == Some(
                            um.values@,
                        )
                        &&& vals_match(um.values@, spec_fields_flat(m.fields))
                    },
                    None => payload@.len() < spec_msg_encoded_len(m.fields),
                },
            },
    {
        match self.find_by_hash(hash_val) {
            None => None,
            Some(idx) => match self.messages[idx].deser(payload) {
                Some(values) => Some(UorbMessage { hash: hash_val, values }),
                None => None,
            },
        }
    }
}

impl Parser {
    /// The message is well formed for this registry: its hash is
    /// registered, its values carry exactly that message's scalar
    /// layout, and the encoded length fits the frame's length field.
    /// This is the writer's documented precondition, made checkable.
    pub fn msg_well_formed(&self, data: &UorbMessage) -> (r: bool)
        ensures
            r == match spec_msg_with_hash(self@, data.hash) {
                Some(m) => vals_match(data.values@, spec_fields_flat(m.fields))
                    && spec_msg_encoded_len(m.fields) <= u16::MAX,
                None => false,
            },
    {
        let idx = match self.find_by_hash(data.hash) {
            Some(idx) => idx,
            None => {
                return false;
            },
        };
        let ts = self.messages[idx].flat_types();
        proof {
            assert(self@[idx as int] == self.messages@[idx as int]@);
            assert(ts@ == spec_fields_flat(self@[idx as int].fields));
        }
        let n = ts.len();
        if data.values.len() != n {
            return false;
        }
        let mut i: usize = 0;
        while i < n
            invariant
                i <= n,
                n == ts@.len(),
                n == data.values@.len(),
                idx < self@.len(),
                spec_msg_with_hash(self@, data.hash) == Some(self@[idx as int]),
                ts@ == spec_fields_flat(self@[idx as int].fields),
                forall|k: int|
                    0 <= k < i ==> crate::codec::scalar_fits(
                        #[trigger] data.values@[k],
                        ts@[k],
                    ),
            decreases n - i,
        {
            if !fits(&data.values[i], &ts[i]) {
                proof {
                    assert(!crate::codec::scalar_fits(data.values@[i as int], ts@[i as int]));
                    assert(!vals_match(data.values@, ts@));
                    assert(!vals_match(data.values@, spec_fields_flat(self@[idx as int].fields)));
                }
                return false;
            }
            i = i + 1;
        }
        let mut total: usize = 0;
        let mut i: usize = 0;
        proof {
            assert(ts@.take(0) =~= Seq::<UorbFieldType>::empty());
        }
        while i < n
            invariant
                i <= n,
                n == ts@.len(),
                all_scalar(ts@),
                idx < self@.len(),
                spec_msg_with_hash(self@, data.hash) == Some(self@[idx as int]),
                ts@ == spec_fields_flat(self@[idx as int].fields),
                total <= u16::MAX,
                total == spec_sum_len(ts@.take(i as int)),
            decreases n - i,
        {
            let w = scalar_len(&ts[i]);
            proof {
                assert(ts@.take(i + 1).drop_last() =~= ts@.take(i as int));
                assert(ts@.take(i + 1).last() == ts@[i as int]);
                lemma_sum_len_take_step(ts@, i as int);
            }
            if total + w > 65535 {
                proof {
                    assert(ts@ =~= ts@.take(i + 1) + ts@.skip(i + 1));
                    lemma_sum_len_concat(ts@.take(i + 1), ts@.skip(i + 1));
                    assert(spec_sum_len(ts@.take(i + 1)) > u16::MAX);
                    assert(spec_sum_len(ts@) > u16::MAX);
                    assert(spec_msg_encoded_len(self@[idx as int].fields) > u16::MAX);
                }
                return false;
            }
            total = total + w;
            i = i + 1;
        }
        proof {
            assert(ts@.take(n as int) =~= ts@);
        }
        true
    }
}

/// One more scalar adds its size to a prefix sum.
proof fn lemma_sum_len_take_step(ts: Seq<UorbFieldType>, i: int)
    requires
        0 <= i < ts.len(),
    ensures
        spec_sum_len(ts.take(i + 1)) == spec_sum_len(ts.take(i)) + crate::types::spec_encoded_len(
            ts[i],
        ),
{
    assert(ts.take(i + 1) =~= ts.take(i) + seq![ts[i]]);
    lemma_sum_len_concat(ts.take(i), seq![ts[i]]);
    assert(seq![ts[i]].skip(1) =~= Seq::<UorbFieldType>::empty());
    assert(spec_sum_len(seq![ts[i]].skip(1)) == 0);
    assert(spec_sum_len(seq![ts[i]]) == crate::types::spec_encoded_len(ts[i]));
}

/// Dispatch correctness: for a registered hash, the payload obtained
/// by encoding that message's own values decodes back to exactly those
/// values, and its length is the message's encoded length — so
/// dispatching such a payload yields the message unchanged, and a hash
/// not in the registry yields nothing (see `parse`).
pub proof fn lemma_dispatch_correct(
    msgs: Seq<MsgModel>,
    hash: u16,
    vals: Seq<crate::codec::FieldValue>,
)
    requires
        match spec_msg_with_hash(msgs, hash) {
            Some(m) => vals_match(vals, spec_fields_flat(m.fields)),
            None => false,
        },
    ensures
        match spec_msg_with_hash(msgs, hash) {
            Some(m) => {
                &&& spec_decode_vals(spec_fields_flat(m.fields), spec_encode_vals(vals)) == Some(
                    vals,
                )
                &&& spec_encode_vals(vals).len() == spec_msg_encoded_len(m.fields)
            },
            None => false,
        },
{
    match spec_msg_with_hash(msgs, hash) {
        Some(m) => {
            lemma_msg_round_trip(m.fields, vals, Seq::empty());
            assert(spec_encode_vals(vals) + Seq::<u8>::empty() =~= spec_encode_vals(vals));
            lemma_encode_vals_len(vals, spec_fields_flat(m.fields));
        },
        None => {},
    }
}

/// If no registered message carries the hash, no element does.
proof fn lemma_msg_with_hash_none(msgs: Seq<MsgModel>, hash: u16, i: int)
    requires
        spec_msg_with_hash(msgs, hash) is None,
        0 <= i < msgs.len(),
    ensures
        msgs[i].hash != hash,
    decreases msgs.len(),
{
    if i > 0 {
        lemma_msg_with_hash_none(msgs.skip(1), hash, i - 1);
        assert(msgs.skip(1)[i - 1] == msgs[i]);
    }
}

} // verus!

//! The wire framing protocol: a big-endian header behind a fixed
//! marker byte, a little-endian payload, and a resynchronizing reader.
//!
//! A frame is: marker (one byte, 0xAA), hash (u16), timestamp (u64),
//! instance id (one byte), payload length (u16, at most 255), then the
//! payload bytes verbatim.  The header's multi-byte fields are
//! big-endian.  The reader scans forward byte by byte for the marker
//! (resynchronization), parses the fixed header, rejects a frame whose
//! declared payload length exceeds the bound without reading that many
//! bytes, and dispatches the payload by hash.

use vstd::prelude::*;

use crate::UORB_MAGIC_V1;
use crate::codec::{FieldValue, spec_decode_vals, spec_encode_vals, vals_match};
use crate::endian::{
    spec_u16_from_be_bytes, spec_u16_to_be_bytes, spec_u64_from_be_bytes, spec_u64_to_be_bytes,
    u16_from_be_bytes, u16_to_be_bytes, u64_from_be_bytes, u64_to_be_bytes,
};
use crate::message::{spec_fields_flat, spec_msg_encoded_len};
use crate::parser::{MsgModel, UorbMsg};
use crate::registry::{Parser, UorbMessage, spec_msg_with_hash};

verus! {

/// The fixed number of header bytes of a frame, marker included.
pub const FRAME_HEADER_LEN: usize = 14;

/// The largest payload a frame may declare.
pub const MAX_PAYLOAD_LEN: u16 = 255;

/// One wire-frame header.  Created fresh per outgoing message.
#[derive(Debug, Clone, Copy, PartialEq, Eq, Structural)]
pub struct UorbHeader {
    /// indicates which version of the header we are sending
    pub version: u8,
    /// unique hash of the msg name
    pub hash: u16,
    /// time at which this message was generated
    pub timestamp: u64,
    /// the "instance" of the sensor/entity that sent this
    pub instance_id: u8,
    /// length of the payload in bytes
    pub payload_len: u16,
}

impl UorbMsg {
    /// The message's identity hash.
    pub fn get_hash_code(&self) -> (r: u16)
        ensures
            r == self@.hash,
    {
        self.name_hash_val
    }

    /// Create a UorbHeader for this message with the given uORB
    /// instance ID.
    pub fn header_for_instance(&self, instance_id: u8, timestamp: u64) -> (r: UorbHeader)
        requires
            spec_msg_encoded_len(self@.fields) <= u16::MAX,
        ensures
            r == (UorbHeader {
                version: UORB_MAGIC_V1,
                hash: self@.hash,
                timestamp,
                instance_id,
                payload_len: spec_msg_encoded_len(self@.fields) as u16,
            }),
    {
        let len = self.encoded_len();
        UorbHeader {
            version: UORB_MAGIC_V1,
            hash: self.name_hash_val,
            timestamp,
            instance_id,
            payload_len: len as u16,
        }
    }

    /// Generate a header and message pair for the given values.
    pub fn gen_ready_pair(&self, vals: &Vec<FieldValue>, instance_id: u8, timestamp: u64) -> (r: (
        UorbHeader,
        UorbMessage,
    ))
        requires
            vals_match(vals@, spec_fields_flat(self@.fields)),
            spec_msg_encoded_len(self@.fields) <= u16::MAX,
        ensures
            r.0 == (UorbHeader {
                version: UORB_MAGIC_V1,
                hash: self@.hash,
                timestamp,
                instance_id,
                payload_len: spec_msg_encoded_len(self@.fields) as u16,
            }),
            r.1.hash == self@.hash,
            r.1.values@ == vals@,
    {
        let hdr = self.header_for_instance(instance_id, timestamp);
        let values = vstd::slice::slice_to_vec(vals.as_slice());
        (hdr, UorbMessage { hash: self.name_hash_val, values })
    }
}

/// The bytes of one frame: marker, hash, timestamp, instance id and
/// payload length from the header (big-endian), then the payload
/// verbatim.  The length written is the payload's own, not the
/// header's field.
pub open spec fn spec_frame_bytes(h: UorbHeader, payload: Seq<u8>) -> Seq<u8> {
    seq![h.version] + spec_u16_to_be_bytes(h.hash) + spec_u64_to_be_bytes(h.timestamp) + seq![
        h.instance_id,
    ] + spec_u16_to_be_bytes(payload.len() as u16) + payload
}

/// Serialize the message and append its frame to `w`.  The caller is
/// responsible for a `header.hash` consistent with the message; the
/// writer performs no such validation.
pub fn write_msg(w: &mut Vec<u8>, registry: &Parser, header: &UorbHeader, data: &UorbMessage)
    requires
        match spec_msg_with_hash(registry@, data.hash) {
            Some(m) => vals_match(data.values@, spec_fields_flat(m.fields)) && spec_msg_encoded_len(
                m.fields,
            ) <= u16::MAX,
            None => false,
        },
    ensures
        final(w)@ == old(w)@ + spec_frame_bytes(*header, spec_encode_vals(data.values@)),
{
    let idx = match registry.find_by_hash(data.hash) {
        Some(idx) => idx,
        None => {
            proof {
                assert(false);
            }
            0
        },
    };
    let mut payload = registry.messages[idx].ser(&data.values);
    w.push(header.version);
    let mut b = u16_to_be_bytes(header.hash);
    w.append(&mut b);
    let mut b = u64_to_be_bytes(header.timestamp);
    w.append(&mut b);
    w.push(header.instance_id);
    let mut b = u16_to_be_bytes(payload.len() as u16);
    w.append(&mut b);
    w.append(&mut payload);
    proof {
        assert(w@ =~= old(w)@ + spec_frame_bytes(*header, spec_encode_vals(data.values@)));
    }
}

/// Parse the thirteen header bytes that follow the marker.
pub fn parse_header_fields(b: &[u8]) -> (h: UorbHeader)
    requires
        b@.len() == 13,
    ensures
        h.version == UORB_MAGIC_V1,
        h.hash == spec_u16_from_be_bytes(b@.subrange(0, 2)),
        h.timestamp == spec_u64_from_be_bytes(b@.subrange(2, 10)),
        h.instance_id == b@[10],
        h.payload_len == spec_u16_from_be_bytes(b@.subrange(11, 13)),
{
    let hash = u16_from_be_bytes(b[0], b[1]);
    let timestamp = u64_from_be_bytes(vstd::slice::slice_subrange(b, 2, 10));
    let instance_id = b[10];
    let payload_len = u16_from_be_bytes(b[11], b[12]);
    proof {
        assert(seq![b@[0], b@[1]] =~= b@.subrange(0, 2));
        assert(seq![b@[11], b@[12]] =~= b@.subrange(11, 13));
    }
    UorbHeader { version: UORB_MAGIC_V1, hash, timestamp, instance_id, payload_len }
}

/// What one read operation over a byte stream yields: a dispatched
/// frame and the count of bytes consumed; a well-framed message whose
/// hash is unknown or whose payload is shorter than its type's encoded
/// length; or the end of the input.
pub enum ReadModel {
    Eof,
    Unknown { header: UorbHeader, used: int },
    Short { header: UorbHeader, used: int },
    Frame { header: UorbHeader, values: Seq<FieldValue>, used: int },
}

/// The same outcome, `k` bytes of input earlier.
pub open spec fn spec_bump(o: ReadModel, k: int) -> ReadModel {
    match o {
        ReadModel::Eof => ReadModel::Eof,
        ReadModel::Unknown { header, used } => ReadModel::Unknown { header, used: used + k },
        ReadModel::Short { header, used } => ReadModel::Short { header, used: used + k },
        ReadModel::Frame { header, values, used } => ReadModel::Frame {
            header,
            values,
            used: used + k,
        },
    }
}

/// One read operation: scan for the marker byte, discarding what
/// precedes it; parse the fixed big-endian header; skip a frame whose
/// declared payload length exceeds the bound, never reading that many
/// bytes; read exactly the declared payload; and dispatch it by hash.
pub open spec fn spec_read(msgs: Seq<MsgModel>, input: Seq<u8>) -> ReadModel
    decreases input.len(),
{
    if input.len() == 0 {
        ReadModel::Eof
    } else if input[0] != UORB_MAGIC_V1 {
        spec_bump(spec_read(msgs, input.skip(1)), 1)
    } else if input.len() < FRAME_HEADER_LEN {
        ReadModel::Eof
    } else {
        let header = UorbHeader {
            version: UORB_MAGIC_V1,
            hash: spec_u16_from_be_bytes(input.subrange(1, 3)),
            timestamp: spec_u64_from_be_bytes(input.subrange(3, 11)),
            instance_id: input[11],
            payload_len: spec_u16_from_be_bytes(input.subrange(12, 14)),
        };
        if header.payload_len > MAX_PAYLOAD_LEN {
            spec_bump(spec_read(msgs, input.skip(FRAME_HEADER_LEN as int)), FRAME_HEADER_LEN as int)
        } else if input.len() < FRAME_HEADER_LEN + header.payload_len {
            ReadModel::Eof
        } else {
            let used = FRAME_HEADER_LEN + header.payload_len;
            let payload = input.subrange(FRAME_HEADER_LEN as int, used as int);
            match spec_msg_with_hash(msgs, header.hash) {
                None => ReadModel::Unknown { header, used: used as int },
                Some(m) => match spec_decode_vals(spec_fields_flat(m.fields), payload) {
                    Some(values) => ReadModel::Frame { header, values, used: used as int },
                    None => ReadModel::Short { header, used: used as int },
                },
            }
        }
    }
}

/// How a failed read operation is reported.
#[derive(Debug, Clone, Copy, PartialEq, Eq, Structural)]
pub enum ReadMsgError {
    /// The input ran out: mid-seek, mid-header or mid-payload.
    Eof,
    /// A well-framed message whose hash is not registered.
    UnknownHash(u16),
    /// A well-framed message whose payload is shorter than its
    /// registered type's encoded length.
    ShortPayload(u16),
}

/// Two shifts compose.
proof fn lemma_bump_bump(o: ReadModel, a: int, b: int)
    ensures
        spec_bump(spec_bump(o, a), b) == spec_bump(o, a + b),
{
}

/// Read one message from a byte buffer: resynchronize on the marker,
/// parse the header, reject an oversize frame without reading its
/// declared payload, and dispatch by hash.  On success the third
/// component is the exact number of bytes consumed.
pub fn read_msg(registry: &Parser, input: &[u8]) -> (r: Result<
    (UorbHeader, UorbMessage, usize),
    ReadMsgError,
>)
    ensures
        match spec_read(registry@, input@) {
            ReadModel::Frame { header, values, used } => match r {
                Ok((h, m, u)) => h == header && m.hash == header.hash && m.values@ == values && u
                    == used,
                Err(_) => false,
            },
            ReadModel::Unknown { header, used } => r == Err::<
                (UorbHeader, UorbMessage, usize),
                ReadMsgError,
            >(ReadMsgError::UnknownHash(header.hash)),
            ReadModel::Short { header, used } => r == Err::<
                (UorbHeader, UorbMessage, usize),
                ReadMsgError,
            >(ReadMsgError::ShortPayload(header.hash)),
            ReadModel::Eof => r == Err::<(UorbHeader, UorbMessage, usize), ReadMsgError>(
                ReadMsgError::Eof,
            ),
        },
{
    let n = input.len();
    let mut pos: usize = 0;
    proof {
        assert(input@.skip(0) =~= input@);
    }
    while pos < n
        invariant
            pos <= n,
            n == input@.len(),
            spec_read(registry@, input@) == spec_bump(
                spec_read(registry@, input@.skip(pos as int)),
                pos as int,
            ),
        decreases n - pos,
    {
        let ghost s = input@.skip(pos as int);
        proof {
            assert(s[0] == input@[pos as int]);
        }
        if input[pos] != UORB_MAGIC_V1 {
            proof {
                assert(s.skip(1) =~= input@.skip(pos + 1));
                lemma_bump_bump(spec_read(registry@, input@.skip(pos + 1)), 1, pos as int);
            }
            pos = pos + 1;
            continue ;
        }
        if n - pos < FRAME_HEADER_LEN {
            proof {
                assert(spec_read(registry@, s) == ReadModel::Eof);
            }
            return Err(ReadMsgError::Eof);
        }
        let hdr_bytes = vstd::slice::slice_subrange(input, pos + 1, pos + FRAME_HEADER_LEN);
        proof {
            assert(hdr_bytes@ =~= s.subrange(1, FRAME_HEADER_LEN as int));
            assert(hdr_bytes@.subrange(0, 2) =~= s.subrange(1, 3));
            assert(hdr_bytes@.subrange(2, 10) =~= s.subrange(3, 11));
            assert(hdr_bytes@[10] == s[11]);
            assert(hdr_bytes@.subrange(11, 13) =~= s.subrange(12, 14));
        }
        let header = parse_header_fields(hdr_bytes);
        if header.payload_len > MAX_PAYLOAD_LEN {
            proof {
                assert(s.skip(FRAME_HEADER_LEN as int) =~= input@.skip(pos + FRAME_HEADER_LEN));
                lemma_bump_bump(
                    spec_read(registry@, input@.skip(pos + FRAME_HEADER_LEN)),
                    FRAME_HEADER_LEN as int,
                    pos as int,
                );
            }
            pos = pos + FRAME_HEADER_LEN;
            continue ;
        }
        let plen = header.payload_len as usize;
        if n - pos - FRAME_HEADER_LEN < plen {
            proof {
                assert(spec_read(registry@, s) == ReadModel::Eof);
            }
            return Err(ReadMsgError::Eof);
        }
        let payload = vstd::slice::slice_subrange(
            input,
            pos + FRAME_HEADER_LEN,
            pos + FRAME_HEADER_LEN + plen,
        );
        proof {
            assert(payload@ =~= s.subrange(
                FRAME_HEADER_LEN as int,
                FRAME_HEADER_LEN + header.payload_len,
            ));
        }
        match registry.parse(header.hash, payload) {
            Some(m) => {
                return Ok((header, m, pos + FRAME_HEADER_LEN + plen));
            },
            None => {
                proof {
                    match spec_msg_with_hash(registry@, header.hash) {
                        Some(m) => {
                            crate::codec::lemma_decode_some_iff(
                                spec_fields_flat(m.fields),
                                payload@,
                            );
                        },
                        None => {},
                    }
                }
                match registry.find_by_hash(header.hash) {
                    Some(_) => {
                        return Err(ReadMsgError::ShortPayload(header.hash));
                    },
                    None => {
                        return Err(ReadMsgError::UnknownHash(header.hash));
                    },
                }
            },
        }
    }
    proof {
        assert(input@.skip(n as int) =~= Seq::<u8>::empty());
    }
    Err(ReadMsgError::Eof)
}

/// Writer/reader coherence: reading a buffer that holds exactly one
/// written frame yields that frame — its header fields, its values and
/// its full length — provided the frame's hash is registered, its
/// values carry that message's layout, and the payload is within the
/// frame bound.
pub proof fn lemma_write_read_frame(msgs: Seq<MsgModel>, h: UorbHeader, vals: Seq<FieldValue>)
    requires
        h.version == UORB_MAGIC_V1,
        match spec_msg_with_hash(msgs, h.hash) {
            Some(m) => vals_match(vals, spec_fields_flat(m.fields)),
            None => false,
        },
        spec_encode_vals(vals).len() <= MAX_PAYLOAD_LEN,
    ensures
        ({
            let payload = spec_encode_vals(vals);
            spec_read(msgs, spec_frame_bytes(h, payload)) == (ReadModel::Frame {
                header: UorbHeader {
                    version: UORB_MAGIC_V1,
                    hash: h.hash,
                    timestamp: h.timestamp,
                    instance_id: h.instance_id,
                    payload_len: payload.len() as u16,
                },
                values: vals,
                used: FRAME_HEADER_LEN + payload.len(),
            })
        }),
{
    let payload = spec_encode_vals(vals);
    let bytes = spec_frame_bytes(h, payload);
    crate::endian::lemma_u16_be_round_trip(h.hash);
    crate::endian::lemma_u64_be_round_trip(h.timestamp);
    crate::endian::lemma_u16_be_round_trip(payload.len() as u16);
    assert(bytes.len() == FRAME_HEADER_LEN + payload.len());
    assert(bytes[0] == h.version);
    assert(bytes.subrange(1, 3) =~= spec_u16_to_be_bytes(h.hash));
    assert(bytes.subrange(3, 11) =~= spec_u64_to_be_bytes(h.timestamp));
    assert(bytes[11] == h.instance_id);
    assert(bytes.subrange(12, 14) =~= spec_u16_to_be_bytes(payload.len() as u16));
    assert(bytes.subrange(FRAME_HEADER_LEN as int, FRAME_HEADER_LEN + payload.len()) =~= payload);
    match spec_msg_with_hash(msgs, h.hash) {
        Some(m) => {
            crate::message::lemma_msg_round_trip(m.fields, vals, Seq::empty());
            assert(payload + Seq::<u8>::empty() =~= payload);
        },
        None => {},
    }
}

/// Resynchronization: bytes before the next marker are discarded, and
/// what the reader yields on the rest is shifted by exactly their
/// count — so a stream of `N` garbage bytes followed by one valid
/// frame yields that frame with exactly `N` plus the frame's length
/// consumed.
pub proof fn lemma_resync(msgs: Seq<MsgModel>, garbage: Seq<u8>, rest: Seq<u8>)
    requires
        forall|i: int| 0 <= i < garbage.len() ==> garbage[i] != UORB_MAGIC_V1,
    ensures
        spec_read(msgs, garbage + rest) == spec_bump(spec_read(msgs, rest), garbage.len() as int),
    decreases garbage.len(),
{
    if garbage.len() == 0 {
        assert(garbage + rest =~= rest);
    } else {
        let whole = garbage + rest;
        assert(whole[0] == garbage[0]);
        assert(whole.skip(1) =~= garbage.skip(1) + rest);
        lemma_resync(msgs, garbage.skip(1), rest);
        lemma_bump_bump(spec_read(msgs, rest), garbage.len() - 1, 1);
        if rest.len() == 0 && garbage.len() > 0 {
            assert(whole.len() > 0);
        }
    }
}

/// Bound enforcement: a frame whose header declares a payload length
/// over the bound is skipped after its fixed header — the declared
/// length is never read as payload.
pub proof fn lemma_oversize_frame_skipped(msgs: Seq<MsgModel>, input: Seq<u8>)
    requires
        input.len() >= FRAME_HEADER_LEN,
        input[0] == UORB_MAGIC_V1,
        spec_u16_from_be_bytes(input.subrange(12, 14)) > MAX_PAYLOAD_LEN,
    ensures
        spec_read(msgs, input) == spec_bump(
            spec_read(msgs, input.skip(FRAME_HEADER_LEN as int)),
            FRAME_HEADER_LEN as int,
        ),
{
}

} // verus!

//! Envelope codec: a self-describing, length-prefixed framing for
//! `BaseMessage`.
//!
//! Layout, all integers little-endian:
//! service (4 bytes), object (4 bytes), kind tag (1 byte), then for a
//! request or response the correlation id (8 bytes), then the content
//! length (4 bytes) and the content itself. A frame must be consumed
//! exactly: trailing or missing bytes are malformed. An unrecognized kind
//! tag is reported as `UnknownKind` so that new message kinds can be
//! rejected without tearing the connection down.

use vstd::prelude::*;
use vstd::bytes::*;
use vstd::slice::*;
use crate::messages::{BaseMessage, BaseMessageKind, EnvelopeView};

verus! {

/// Kind tag of a request envelope.
pub const TAG_REQUEST: u8 = 0;

/// Kind tag of a response envelope.
pub const TAG_RESPONSE: u8 = 1;

/// Kind tag of an event envelope.
pub const TAG_EVENT: u8 = 2;

/// Decoding failures; both are recoverable at the transport boundary.
#[derive(Clone, Copy, Debug, PartialEq, Eq, Structural)]
pub enum DecodeError {
    /// Truncated or trailing bytes, or a content length that disagrees
    /// with the frame.
    Malformed,
    /// An unrecognized message-kind tag.
    UnknownKind,
}

/// An envelope is encodable when its content length fits the 4-byte
/// length prefix.
pub open spec fn valid_envelope(v: EnvelopeView) -> bool {
    v.content.len() <= u32::MAX
}

/// The byte encoding of a message kind: the tag, then the correlation id
/// where the kind carries one.
pub open spec fn spec_encode_kind(k: BaseMessageKind) -> Seq<u8> {
    match k {
        BaseMessageKind::Request(id) => seq![TAG_REQUEST] + spec_u64_to_le_bytes(id),
        BaseMessageKind::Response(id) => seq![TAG_RESPONSE] + spec_u64_to_le_bytes(id),
        BaseMessageKind::Event => seq![TAG_EVENT],
    }
}

/// The byte encoding of a whole envelope.
pub open spec fn spec_encode(v: EnvelopeView) -> Seq<u8> {
    spec_u32_to_le_bytes(v.service) + spec_u32_to_le_bytes(v.object) + spec_encode_kind(v.kind)
        + spec_u32_to_le_bytes(v.content.len() as u32) + v.content
}

/// The mathematical decoder: the unique envelope a byte sequence frames,
/// or the error that classifies it.
pub open spec fn spec_decode(b: Seq<u8>) -> Result<EnvelopeView, DecodeError> {
    if b.len() < 9 {
        Err(DecodeError::Malformed)
    } else {
        let service = spec_u32_from_le_bytes(b.subrange(0, 4));
        let object = spec_u32_from_le_bytes(b.subrange(4, 8));
        let tag = b[8];
        if tag == TAG_REQUEST || tag == TAG_RESPONSE {
            if b.len() < 21 {
                Err(DecodeError::Malformed)
            } else {
                let id = spec_u64_from_le_bytes(b.subrange(9, 17));
                let n = spec_u32_from_le_bytes(b.subrange(17, 21));
                if b.len() == 21 + n {
                    Ok(EnvelopeView {
                        service,
                        object,
                        kind: if tag == TAG_REQUEST {
                            BaseMessageKind::Request(id)
                        } else {
                            BaseMessageKind::Response(id)
                        },
                        content: b.subrange(21, b.len() as int),
                    })
                } else {
                    Err(DecodeError::Malformed)
                }
            }
        } else if tag == TAG_EVENT {
            if b.len() < 13 {
                Err(DecodeError::Malformed)
            } else {
                let n = spec_u32_from_le_bytes(b.subrange(9, 13));
                if b.len() == 13 + n {
                    Ok(EnvelopeView {
                        service,
                        object,
                        kind: BaseMessageKind::Event,
                        content: b.subrange(13, b.len() as int),
                    })
                } else {
                    Err(DecodeError::Malformed)
                }
            }
        } else {
            Err(DecodeError::UnknownKind)
        }
    }
}

/// Round trip: decoding an encoded envelope yields the envelope back.
/// Encoding is injective as a consequence: two envelopes with one
/// encoding decode to both, hence are equal.
pub proof fn lemma_decode_encode(v: EnvelopeView)
    requires
        valid_envelope(v),
    ensures
        spec_decode(spec_encode(v)) == Ok::<EnvelopeView, DecodeError>(v),
{
    lemma_auto_spec_u32_to_from_le_bytes();
    lemma_auto_spec_u64_to_from_le_bytes();
    let b = spec_encode(v);
    let head = spec_u32_to_le_bytes(v.service) + spec_u32_to_le_bytes(v.object)
        + spec_encode_kind(v.kind);
    assert(b == head + spec_u32_to_le_bytes(v.content.len() as u32) + v.content);
    assert(b.subrange(0, 4) =~= spec_u32_to_le_bytes(v.service));
    assert(b.subrange(4, 8) =~= spec_u32_to_le_bytes(v.object));
    match v.kind {
        BaseMessageKind::Request(id) => {
            assert(b[8] == TAG_REQUEST);
            assert(b.len() == 21 + v.content.len());
            assert(b.subrange(9, 17) =~= spec_u64_to_le_bytes(id));
            assert(b.subrange(17, 21) =~= spec_u32_to_le_bytes(v.content.len() as u32));
            assert(b.subrange(21, b.len() as int) =~= v.content);
            assert(spec_decode(b)->Ok_0 =~= v);
        },
        BaseMessageKind::Response(id) => {
            assert(b[8] == TAG_RESPONSE);
            assert(b.len() == 21 + v.content.len());
            assert(b.subrange(9, 17) =~= spec_u64_to_le_bytes(id));
            assert(b.subrange(17, 21) =~= spec_u32_to_le_bytes(v.content.len() as u32));
            assert(b.subrange(21, b.len() as int) =~= v.content);
            assert(spec_decode(b)->Ok_0 =~= v);
        },
        BaseMessageKind::Event => {
            assert(b[8] == TAG_EVENT);
            assert(b.len() == 13 + v.content.len());
            assert(b.subrange(9, 13) =~= spec_u32_to_le_bytes(v.content.len() as u32));
            assert(b.subrange(13, b.len() as int) =~= v.content);
            assert(spec_decode(b)->Ok_0 =~= v);
        },
    }
}

/// Encode an envelope. Total for every well-formed envelope: the only
/// bound is the 4-byte length prefix on the content.
pub fn encode(m: &BaseMessage) -> (r: Vec<u8>)
    requires
        valid_envelope(m@),
    ensures
        r@ == spec_encode(m@),
{
    let mut out: Vec<u8> = Vec::new();
    let mut part = u32_to_le_bytes(m.service);
    out.append(&mut part);
    let mut part = u32_to_le_bytes(m.object);
    out.append(&mut part);
    match m.kind {
        BaseMessageKind::Request(id) => {
            out.push(TAG_REQUEST);
            let mut idb = u64_to_le_bytes(id);
            out.append(&mut idb);
        },
        BaseMessageKind::Response(id) => {
            out.push(TAG_RESPONSE);
            let mut idb = u64_to_le_bytes(id);
            out.append(&mut idb);
        },
        BaseMessageKind::Event => {
            out.push(TAG_EVENT);
        },
    }
    let mut lenb = u32_to_le_bytes(m.content.len() as u32);
    out.append(&mut lenb);
    let ghost prefix = out@;
    let mut i: usize = 0;
    while i < m.content.len()
        invariant
            i <= m.content.len(),
            out@ == prefix + m.content@.subrange(0, i as int),
        decreases m.content.len() - i,
    {
        out.push(m.content[i]);
        assert(prefix + m.content@.subrange(0, i as int) + seq![m.content@[i as int]] =~= prefix
            + m.content@.subrange(0, i as int + 1));
        i += 1;
    }
    assert(m.content@.subrange(0, m.content@.len() as int) =~= m.content@);
    assert(out@ =~= spec_encode(m@));
    out
}

/// Decode a framed envelope. Returns exactly what the mathematical
/// decoder says of the bytes: the envelope, or the classified error.
pub fn decode(bytes: &[u8]) -> (r: Result<BaseMessage, DecodeError>)
    ensures
        match r {
            Ok(m) => spec_decode(bytes@) == Ok::<EnvelopeView, DecodeError>(m@) && valid_envelope(
                m@,
            ),
            Err(e) => spec_decode(bytes@) == Err::<EnvelopeView, DecodeError>(e),
        },
{
    if bytes.len() < 9 {
        return Err(DecodeError::Malformed);
    }
    let service = u32_from_le_bytes(slice_subrange(bytes, 0, 4));
    let object = u32_from_le_bytes(slice_subrange(bytes, 4, 8));
    let tag = *slice_index_get(bytes, 8);
    if tag == TAG_REQUEST || tag == TAG_RESPONSE {
        if bytes.len() < 21 {
            return Err(DecodeError::Malformed);
        }
        let id = u64_from_le_bytes(slice_subrange(bytes, 9, 17));
        let n = u32_from_le_bytes(slice_subrange(bytes, 17, 21));
        let rest: usize = bytes.len() - 21;
        if rest as u64 != n as u64 {
            return Err(DecodeError::Malformed);
        }
        let content = slice_to_vec(slice_subrange(bytes, 21, bytes.len()));
        let kind = if tag == TAG_REQUEST {
            BaseMessageKind::Request(id)
        } else {
            BaseMessageKind::Response(id)
        };
        let m = BaseMessage { service, object, kind, content };
        assert(spec_decode(bytes@)->Ok_0 =~= m@);
        Ok(m)
    } else if tag == TAG_EVENT {
        if bytes.len() < 13 {
            return Err(DecodeError::Malformed);
        }
        let n = u32_from_le_bytes(slice_subrange(bytes, 9, 13));
        let rest: usize = bytes.len() - 13;
        if rest as u64 != n as u64 {
            return Err(DecodeError::Malformed);
        }
        let content = slice_to_vec(slice_subrange(bytes, 13, bytes.len()));
        let m = BaseMessage { service, object, kind: BaseMessageKind::Event, content };
        assert(spec_decode(bytes@)->Ok_0 =~= m@);
        Ok(m)
    } else {
        Err(DecodeError::UnknownKind)
    }
}

} // verus!

//! The versioned binary envelope around a document's encoded state.
//!
//! An envelope is laid out as a one-byte format-version tag, followed by the
//! state bytes and the update bytes, each preceded by its length as eight
//! little-endian bytes. A future format stays distinguishable by the leading
//! tag, so an old decoder reports `UnsupportedVersion` instead of misparsing.

use vstd::prelude::*;
use vstd::bytes::{lemma_auto_spec_u64_to_from_le_bytes, spec_u64_from_le_bytes,
    spec_u64_to_le_bytes, u64_from_le_bytes, u64_to_le_bytes};
use vstd::slice::{slice_index_get, slice_subrange, slice_to_vec};
use crate::entity::DecodeError;

verus! {

/// The only format version this codec writes and understands.
pub const FORMAT_VERSION: u8 = 1;

/// A document's versioned envelope: opaque state bytes plus opaque (possibly
/// empty) update bytes.
#[derive(Clone, Debug, PartialEq, Eq)]
pub struct EncodedEnvelope {
    pub format_version: u8,
    pub state_bytes: Vec<u8>,
    pub update_bytes: Vec<u8>,
}

/// Mathematical model of an `EncodedEnvelope`.
#[verifier::ext_equal]
pub ghost struct EnvelopeModel {
    pub format_version: u8,
    pub state_bytes: Seq<u8>,
    pub update_bytes: Seq<u8>,
}

impl EnvelopeModel {
    /// A well-formed envelope carries the supported format version.
    pub open spec fn wf(self) -> bool {
        self.format_version == FORMAT_VERSION
    }
}

impl View for EncodedEnvelope {
    type V = EnvelopeModel;

    open spec fn view(&self) -> EnvelopeModel {
        EnvelopeModel {
            format_version: self.format_version,
            state_bytes: self.state_bytes@,
            update_bytes: self.update_bytes@,
        }
    }
}

/// The byte sequence that encodes an envelope.
pub open spec fn spec_encode(m: EnvelopeModel) -> Seq<u8> {
    seq![m.format_version] + spec_u64_to_le_bytes(m.state_bytes.len() as u64) + m.state_bytes
        + spec_u64_to_le_bytes(m.update_bytes.len() as u64) + m.update_bytes
}

/// What decoding a byte sequence yields: the envelope it encodes, or the
/// distinct error for empty/short input, an unknown version tag, or bytes
/// left over after the announced content.
pub open spec fn spec_decode(s: Seq<u8>) -> Result<EnvelopeModel, DecodeError> {
    if s.len() < 1 {
        Err(DecodeError::Truncated)
    } else if s[0] != FORMAT_VERSION {
        Err(DecodeError::UnsupportedVersion)
    } else if s.len() < 9 {
        Err(DecodeError::Truncated)
    } else {
        let state_len = spec_u64_from_le_bytes(s.subrange(1, 9)) as int;
        if s.len() < 9 + state_len + 8 {
            Err(DecodeError::Truncated)
        } else {
            let update_len = spec_u64_from_le_bytes(
                s.subrange(9 + state_len, 9 + state_len + 8),
            ) as int;
            if s.len() < 9 + state_len + 8 + update_len {
                Err(DecodeError::Truncated)
            } else if s.len() > 9 + state_len + 8 + update_len {
                Err(DecodeError::Malformed)
            } else {
                Ok(EnvelopeModel {
                    format_version: FORMAT_VERSION,
                    state_bytes: s.subrange(9, 9 + state_len),
                    update_bytes: s.subrange(9 + state_len + 8, 9 + state_len + 8 + update_len),
                })
            }
        }
    }
}

impl EncodedEnvelope {
    /// A fresh version-1 envelope around the given state and update bytes.
    pub fn new_v1(state_bytes: Vec<u8>, update_bytes: Vec<u8>) -> (r: EncodedEnvelope)
        ensures
            r@ == (EnvelopeModel {
                format_version: FORMAT_VERSION,
                state_bytes: state_bytes@,
                update_bytes: update_bytes@,
            }),
            r@.wf(),
    {
        EncodedEnvelope { format_version: FORMAT_VERSION, state_bytes, update_bytes }
    }

    /// Encode this envelope into its byte representation.
    pub fn encode(&self) -> (r: Vec<u8>)
        requires
            self@.wf(),
            self.state_bytes@.len() + self.update_bytes@.len() + 17 <= usize::MAX,
        ensures
            r@ == spec_encode(self@),
    {
        let mut out: Vec<u8> = Vec::new();
        out.push(self.format_version);
        let mut state_len = u64_to_le_bytes(self.state_bytes.len() as u64);
        out.append(&mut state_len);
        let mut state = slice_to_vec(self.state_bytes.as_slice());
        out.append(&mut state);
        let mut update_len = u64_to_le_bytes(self.update_bytes.len() as u64);
        out.append(&mut update_len);
        let mut update = slice_to_vec(self.update_bytes.as_slice());
        out.append(&mut update);
        proof {
            assert(out@ =~= spec_encode(self@));
        }
        out
    }

    /// Decode a byte representation back into an envelope.
    pub fn decode(bytes: &[u8]) -> (r: Result<EncodedEnvelope, DecodeError>)
        ensures
            match r {
                Ok(e) => spec_decode(bytes@) == Ok::<EnvelopeModel, DecodeError>(e@) && e@.wf(),
                Err(err) => spec_decode(bytes@) == Err::<EnvelopeModel, DecodeError>(err),
            },
    {
        let n = bytes.len();
        if n < 1 {
            return Err(DecodeError::Truncated);
        }
        let version = *slice_index_get(bytes, 0);
        if version != FORMAT_VERSION {
            return Err(DecodeError::UnsupportedVersion);
        }
        if n < 9 {
            return Err(DecodeError::Truncated);
        }
        let state_len_u64 = u64_from_le_bytes(slice_subrange(bytes, 1, 9));
        if state_len_u64 > (n - 9) as u64 {
            return Err(DecodeError::Truncated);
        }
        let state_len = state_len_u64 as usize;
        let state_end = 9 + state_len;
        if n - state_end < 8 {
            return Err(DecodeError::Truncated);
        }
        let update_len_u64 = u64_from_le_bytes(slice_subrange(bytes, state_end, state_end + 8));
        if update_len_u64 > (n - state_end - 8) as u64 {
            return Err(DecodeError::Truncated);
        }
        let update_len = update_len_u64 as usize;
        if state_end + 8 + update_len < n {
            return Err(DecodeError::Malformed);
        }
        let state_bytes = slice_to_vec(slice_subrange(bytes, 9, state_end));
        let update_bytes = slice_to_vec(
            slice_subrange(bytes, state_end + 8, state_end + 8 + update_len),
        );
        Ok(EncodedEnvelope { format_version: FORMAT_VERSION, state_bytes, update_bytes })
    }
}

/// Round-trip law: decoding the encoding of any well-formed envelope yields
/// that envelope back. The length bounds only keep each section's length
/// representable in its eight-byte field.
pub proof fn lemma_envelope_round_trip(m: EnvelopeModel)
    requires
        m.wf(),
        m.state_bytes.len() <= u64::MAX,
        m.update_bytes.len() <= u64::MAX,
    ensures
        spec_decode(spec_encode(m)) == Ok::<EnvelopeModel, DecodeError>(m),
{
    lemma_auto_spec_u64_to_from_le_bytes();
    let s = spec_encode(m);
    let sl = m.state_bytes.len() as int;
    let ul = m.update_bytes.len() as int;
    assert(spec_u64_to_le_bytes(m.state_bytes.len() as u64).len() == 8);
    assert(spec_u64_to_le_bytes(m.update_bytes.len() as u64).len() == 8);
    assert(s.len() == 17 + sl + ul);
    assert(s[0] == m.format_version);
    assert(s.subrange(1, 9) =~= spec_u64_to_le_bytes(m.state_bytes.len() as u64));
    assert(spec_u64_from_le_bytes(s.subrange(1, 9)) == m.state_bytes.len() as u64);
    assert(s.subrange(9, 9 + sl) =~= m.state_bytes);
    assert(s.subrange(9 + sl, 9 + sl + 8) =~= spec_u64_to_le_bytes(m.update_bytes.len() as u64));
    assert(spec_u64_from_le_bytes(s.subrange(9 + sl, 9 + sl + 8)) == m.update_bytes.len() as u64);
    assert(s.subrange(9 + sl + 8, 9 + sl + 8 + ul) =~= m.update_bytes);
    assert(spec_decode(s) matches Ok(d) && d =~= m);
}

} // verus!

//! Validated, shareable audio buffers.
//!
//! An [`AudioSource`] holds the raw encoded bytes of one piece of audio. It
//! is built once, by [`AudioSource::from_bytes`], which proves the bytes are
//! a recognizable audio container by attempting one decode and then keeps
//! only the bytes. Every playback of the source decodes those bytes afresh,
//! so one source can back any number of simultaneous instances.

use vstd::prelude::*;

verus! {

/// The supplied bytes are not a supported encoded-audio container or codec.
/// The caller may discard the input and retry with corrected data.
#[derive(Clone, Copy, Debug, PartialEq, Eq, Structural)]
pub struct DecodeError;

/// Whether the decoding collaborator recognizes these bytes as a supported
/// audio container. The decoder is a pure parser, so this is a function of
/// the bytes alone; which containers it accepts is the collaborator's
/// business, and this crate stays agnostic to it.
pub uninterp spec fn decodable(bytes: Seq<u8>) -> bool;

/// Relies on `rodio::Decoder::new`: it parses the given bytes alone and
/// returns `Ok` exactly when they are a recognized audio container.
#[verifier::external_body]
fn probe_decode(data: &[u8]) -> (ok: bool)
    ensures
        ok == decodable(data@),
{
    rodio::Decoder::new(std::io::Cursor::new(data.to_vec())).is_ok()
}

/// An immutable, validated, shareable encoded-audio buffer.
#[derive(Debug)]
pub struct AudioSource {
    bytes: Vec<u8>,
}

impl View for AudioSource {
    type V = Seq<u8>;

    closed spec fn view(&self) -> Seq<u8> {
        self.bytes@
    }
}

impl AudioSource {
    /// A source only ever holds bytes that passed the validation decode.
    pub open spec fn wf(&self) -> bool {
        decodable(self@)
    }

    /// Validates the bytes by attempting one decode, then retains only the
    /// raw bytes. Returns the source exactly when the bytes are a supported
    /// audio container, and `DecodeError` otherwise.
    pub fn from_bytes(data: &[u8]) -> (r: Result<AudioSource, DecodeError>)
        ensures
            match r {
                Ok(source) => decodable(data@) && source@ == data@ && source.wf(),
                Err(e) => !decodable(data@) && e == DecodeError,
            },
    {
        if probe_decode(data) {
            Ok(AudioSource { bytes: vstd::slice::slice_to_vec(data) })
        } else {
            Err(DecodeError)
        }
    }

    /// The validated encoded bytes, for the decoding collaborator to play.
    pub fn as_bytes(&self) -> (b: &[u8])
        ensures
            b@ == self@,
    {
        self.bytes.as_slice()
    }
}

} // verus!

//! The deflate codec.

use super::gzip::{EncodeFault, DEFAULT_LEVEL, MAX_LEVEL};
use super::{PayloadCodec, DEFAULT_MIN_SIZE};
use crate::error::{MqttError, Result};
use crate::text::joined;
use crate::types::Bytes;
use flate2::read::DeflateDecoder;
use flate2::write::DeflateEncoder;
use flate2::Compression;
use std::io::{Read, Write};
use std::sync::Arc;
use vstd::prelude::*;

verus! {

/// The deflate stream that a payload is compressed to at a level, or why it cannot be: `true` and
/// the text of the error if it came while the payload was written, `false` if when the stream was
/// finished.
pub uninterp spec fn deflated(level: u32, payload: Seq<u8>) -> std::result::Result<
    Seq<u8>,
    (bool, Seq<char>),
>;

/// What a deflate stream holds, or the text of the error.
pub uninterp spec fn inflated(stream: Seq<u8>) -> std::result::Result<Seq<u8>, Seq<char>>;

/// Writes the payload through `flate2::write::DeflateEncoder` and finishes it. The stream depends
/// on the level and the payload alone, and reading it back through `flate2::read::DeflateDecoder`
/// gives the payload.
#[verifier::external_body]
fn deflate_encode(level: u32, payload: &[u8]) -> (r: std::result::Result<Vec<u8>, EncodeFault>)
    requires
        level <= MAX_LEVEL,
    ensures
        deflated(level, payload@) == match r {
            Ok(stream) => Ok(stream@),
            Err(EncodeFault::Write(text)) => Err((true, text@)),
            Err(EncodeFault::Finish(text)) => Err((false, text@)),
        },
        r matches Ok(stream) ==> inflated(stream@) is Ok && inflated(stream@)->Ok_0 == payload@,
{
    let mut encoder = DeflateEncoder::new(Vec::new(), Compression::new(level));
    encoder.write_all(payload).map_err(|e| EncodeFault::Write(e.to_string()))?;
    encoder.finish().map_err(|e| EncodeFault::Finish(e.to_string()))
}

/// Reads a deflate stream to its end through `flate2::read::DeflateDecoder`. What is read depends
/// on the stream alone.
#[verifier::external_body]
fn deflate_decode(stream: &[u8]) -> (r: std::result::Result<Vec<u8>, String>)
    ensures
        inflated(stream@) == match r {
            Ok(bytes) => Ok(bytes@),
            Err(text) => Err(text@),
        },
{
    let mut bytes = Vec::new();
    let mut reader = DeflateDecoder::new(stream);
    reader.read_to_end(&mut bytes).map_err(|e| e.to_string())?;
    Ok(bytes)
}

/// Compresses payloads with deflate.
#[derive(Debug)]
pub struct DeflateCodec {
    level: u32,
    min_size: usize,
}

impl DeflateCodec {
    /// The compression level.
    pub closed spec fn strength(&self) -> u32 {
        self.level
    }

    /// The codec with the default settings.
    pub fn new() -> (r: Self)
        ensures
            r.strength() == DEFAULT_LEVEL,
            r.least() == DEFAULT_MIN_SIZE,
            r.usable(),
    {
        DeflateCodec { level: DEFAULT_LEVEL, min_size: DEFAULT_MIN_SIZE }
    }

    /// Sets the compression level.
    pub fn with_level(self, level: u32) -> (r: Self)
        ensures
            r.strength() == level,
            r.least() == self.least(),
    {
        DeflateCodec { level, ..self }
    }

    /// Sets how long a payload has to be for encoding to be worth it.
    pub fn with_min_size(self, size: usize) -> (r: Self)
        ensures
            r.strength() == self.strength(),
            r.least() == size,
    {
        DeflateCodec { min_size: size, ..self }
    }
}

impl Default for DeflateCodec {
    fn default() -> (r: Self)
        ensures
            r.strength() == DEFAULT_LEVEL,
            r.least() == DEFAULT_MIN_SIZE,
            r.usable(),
    {
        DeflateCodec::new()
    }
}

/// What encoding gives, by what the compressor gave.
pub fn after_encode(outcome: std::result::Result<Vec<u8>, EncodeFault>) -> (r: Result<Bytes>)
    ensures
        match outcome {
            Ok(stream) => r matches Ok(bytes) && bytes@ == stream@,
            Err(EncodeFault::Write(text)) => r matches Err(MqttError::ProtocolError(t)) && t@
                == "deflate encode failed: "@ + text@,
            Err(EncodeFault::Finish(text)) => r matches Err(MqttError::ProtocolError(t)) && t@
                == "deflate finish failed: "@ + text@,
        },
{
    match outcome {
        Ok(stream) => Ok(Arc::new(stream)),
        Err(EncodeFault::Write(text)) => {
            let t = joined("deflate encode failed: ", text.as_str(), "");
            proof {
                reveal_strlit("");
                assert(t@ =~= "deflate encode failed: "@ + text@);
            }
            Err(MqttError::ProtocolError(t))
        },
        Err(EncodeFault::Finish(text)) => {
            let t = joined("deflate finish failed: ", text.as_str(), "");
            proof {
                reveal_strlit("");
                assert(t@ =~= "deflate finish failed: "@ + text@);
            }
            Err(MqttError::ProtocolError(t))
        },
    }
}

/// What decoding gives, by what the decompressor gave.
pub fn after_decode(outcome: std::result::Result<Vec<u8>, String>) -> (r: Result<Bytes>)
    ensures
        match outcome {
            Ok(bytes) => r matches Ok(b) && b@ == bytes@,
            Err(text) => r matches Err(MqttError::ProtocolError(t)) && t@
                == "deflate decode failed: "@ + text@,
        },
{
    match outcome {
        Ok(bytes) => Ok(Arc::new(bytes)),
        Err(text) => {
            let t = joined("deflate decode failed: ", text.as_str(), "");
            proof {
                reveal_strlit("");
                assert(t@ =~= "deflate decode failed: "@ + text@);
            }
            Err(MqttError::ProtocolError(t))
        },
    }
}

impl PayloadCodec for DeflateCodec {
    open spec fn kind(&self) -> Seq<char> {
        "application/x-deflate"@
    }

    closed spec fn least(&self) -> usize {
        self.min_size
    }

    open spec fn usable(&self) -> bool {
        self.strength() <= MAX_LEVEL
    }

    open spec fn encoded(&self, payload: Seq<u8>) -> Option<Seq<u8>> {
        match deflated(self.strength(), payload) {
            Ok(stream) => Some(stream),
            Err(_) => None,
        }
    }

    open spec fn decoded(&self, payload: Seq<u8>) -> Option<Seq<u8>> {
        match inflated(payload) {
            Ok(bytes) => Some(bytes),
            Err(_) => None,
        }
    }

    open spec fn encode_fails(&self, payload: Seq<u8>, e: MqttError) -> bool {
        &&& deflated(self.strength(), payload) is Err
        &&& e matches MqttError::ProtocolError(t) && t@ == (
        if deflated(self.strength(), payload)->Err_0.0 {
            "deflate encode failed: "@
        } else {
            "deflate finish failed: "@
        }) + deflated(self.strength(), payload)->Err_0.1
    }

    open spec fn decode_fails(&self, payload: Seq<u8>, e: MqttError) -> bool {
        &&& inflated(payload) is Err
        &&& e matches MqttError::ProtocolError(t) && t@ == "deflate decode failed: "@ + inflated(
            payload,
        )->Err_0
    }

    fn name(&self) -> (r: &'static str)
        ensures
            r@ == "deflate"@,
    {
        "deflate"
    }

    fn content_type(&self) -> (r: &'static str) {
        "application/x-deflate"
    }

    fn encode(&self, payload: &[u8]) -> (r: Result<Bytes>)
        ensures
            r matches Ok(bytes) ==> self.decoded(bytes@) == Some(payload@),
    {
        after_encode(deflate_encode(self.level, payload))
    }

    fn decode(&self, payload: &[u8]) -> (r: Result<Bytes>) {
        after_decode(deflate_decode(payload))
    }

    fn is_usable(&self) -> (r: bool) {
        self.level <= MAX_LEVEL
    }

    fn min_size_threshold(&self) -> (r: usize) {
        self.min_size
    }
}

/// A payload that is decoded is what the stream holds, and every stream that can be read is decoded. A
/// payload is encoded at the level that was set, and an error comes only where there is no result.
pub proof fn law_decoded_payload_is_what_the_stream_holds(
    codec: DeflateCodec,
    payload: Seq<u8>,
    e: MqttError,
)
    requires
        codec.usable(),
    ensures
        codec.decoded(payload) matches Some(bytes) ==> inflated(payload)
            == std::result::Result::<Seq<u8>, Seq<char>>::Ok(bytes),
        inflated(payload) is Ok ==> codec.decoded(payload) is Some,
        codec.encoded(payload) matches Some(stream) ==> deflated(codec.strength(), payload)
            == std::result::Result::<Seq<u8>, (bool, Seq<char>)>::Ok(stream),
        deflated(codec.strength(), payload) is Ok ==> codec.encoded(payload) is Some,
        codec.encode_fails(payload, e) ==> codec.encoded(payload) is None && e is ProtocolError,
        codec.decode_fails(payload, e) ==> codec.decoded(payload) is None && e is ProtocolError,
        codec.strength() <= 10,
{
}

} // verus!

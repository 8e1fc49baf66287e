//! The gzip codec.

use super::{PayloadCodec, DEFAULT_MIN_SIZE};
use crate::error::{MqttError, Result};
use crate::text::{decimal_text, joined};
use crate::types::Bytes;
use flate2::read::GzDecoder;
use flate2::write::GzEncoder;
use flate2::Compression;
use std::io::{Read, Write};
use std::sync::Arc;
use vstd::prelude::*;

verus! {

/// How large a payload may get when it is decoded, unless another limit is set: 10 MiB.
pub const DEFAULT_MAX_DECOMPRESSED_SIZE: usize = 10_485_760;

/// The compression level that is used unless another is set.
pub const DEFAULT_LEVEL: u32 = 6;

/// The highest compression level that the compressor takes.
pub const MAX_LEVEL: u32 = 10;

/// Why compressing failed: while the payload was written, or when the stream was finished.
#[derive(Debug)]
pub enum EncodeFault {
    Write(String),
    Finish(String),
}

/// The gzip stream that a payload is compressed to at a level, or why it cannot be: `true` and the
/// text of the error if it came while the payload was written, `false` if when the stream was
/// finished.
pub uninterp spec fn gz_encoded(level: u32, payload: Seq<u8>) -> std::result::Result<
    Seq<u8>,
    (bool, Seq<char>),
>;

/// The first bytes, up to a number of them, of what a gzip stream holds, or the text of the error.
pub uninterp spec fn gz_decoded(stream: Seq<u8>, most: u64) -> std::result::Result<
    Seq<u8>,
    Seq<char>,
>;

/// Writes the payload through `flate2::write::GzEncoder` and finishes it. The stream depends on
/// the level and the payload alone (the header carries neither a name nor a time), and reading it
/// back through `flate2::read::GzDecoder` gives the payload, as long as the reader may read that
/// many bytes.
#[verifier::external_body]
fn gz_encode(level: u32, payload: &[u8]) -> (r: std::result::Result<Vec<u8>, EncodeFault>)
    requires
        level <= MAX_LEVEL,
    ensures
        gz_encoded(level, payload@) == match r {
            Ok(stream) => Ok(stream@),
            Err(EncodeFault::Write(text)) => Err((true, text@)),
            Err(EncodeFault::Finish(text)) => Err((false, text@)),
        },
        r matches Ok(stream) ==> (forall|most: u64|
            most >= payload@.len() ==> (#[trigger] gz_decoded(stream@, most)) is Ok && gz_decoded(
                stream@,
                most,
            )->Ok_0 == payload@),
{
    let mut encoder = GzEncoder::new(Vec::new(), Compression::new(level));
    encoder.write_all(payload).map_err(|e| EncodeFault::Write(e.to_string()))?;
    encoder.finish().map_err(|e| EncodeFault::Finish(e.to_string()))
}

/// Reads a gzip stream through `flate2::read::GzDecoder`, up to a number of bytes
/// (`std::io::Read::take`). What is read depends on the stream and the number alone, and it is no
/// longer than the number.
#[verifier::external_body]
fn gz_decode(stream: &[u8], most: u64) -> (r: std::result::Result<Vec<u8>, String>)
    ensures
        gz_decoded(stream@, most) == match r {
            Ok(bytes) => Ok(bytes@),
            Err(text) => Err(text@),
        },
        r matches Ok(bytes) ==> bytes@.len() <= most,
{
    let mut bytes = Vec::new();
    let mut reader = GzDecoder::new(stream).take(most);
    reader.read_to_end(&mut bytes).map_err(|e| e.to_string())?;
    Ok(bytes)
}

/// Compresses payloads with gzip.
#[derive(Debug)]
pub struct GzipCodec {
    level: u32,
    min_size: usize,
    max_decompressed_size: usize,
}

impl GzipCodec {
    /// The compression level.
    pub closed spec fn strength(&self) -> u32 {
        self.level
    }

    /// How large a payload may get when it is decoded.
    pub closed spec fn limit(&self) -> usize {
        self.max_decompressed_size
    }

    /// The codec with the default settings.
    pub fn new() -> (r: Self)
        ensures
            r.strength() == DEFAULT_LEVEL,
            r.least() == DEFAULT_MIN_SIZE,
            r.limit() == DEFAULT_MAX_DECOMPRESSED_SIZE,
            r.usable(),
    {
        GzipCodec {
            level: DEFAULT_LEVEL,
            min_size: DEFAULT_MIN_SIZE,
            max_decompressed_size: DEFAULT_MAX_DECOMPRESSED_SIZE,
        }
    }

    /// Sets the compression level.
    pub fn with_level(self, level: u32) -> (r: Self)
        ensures
            r.strength() == level,
            r.least() == self.least(),
            r.limit() == self.limit(),
    {
        GzipCodec { level, ..self }
    }

    /// Sets how long a payload has to be for encoding to be worth it.
    pub fn with_min_size(self, size: usize) -> (r: Self)
        ensures
            r.strength() == self.strength(),
            r.least() == size,
            r.limit() == self.limit(),
    {
        GzipCodec { min_size: size, ..self }
    }

    /// Sets how large a payload may get when it is decoded.
    pub fn with_max_decompressed_size(self, size: usize) -> (r: Self)
        ensures
            r.strength() == self.strength(),
            r.least() == self.least(),
            r.limit() == size,
    {
        GzipCodec { max_decompressed_size: size, ..self }
    }
}

impl Default for GzipCodec {
    fn default() -> (r: Self)
        ensures
            r.strength() == DEFAULT_LEVEL,
            r.least() == DEFAULT_MIN_SIZE,
            r.limit() == DEFAULT_MAX_DECOMPRESSED_SIZE,
            r.usable(),
    {
        GzipCodec::new()
    }
}

/// What encoding gives, by what the compressor gave.
pub fn after_encode(outcome: std::result::Result<Vec<u8>, EncodeFault>) -> (r: Result<Bytes>)
    ensures
        match outcome {
            Ok(stream) => r matches Ok(bytes) && bytes@ == stream@,
            Err(EncodeFault::Write(text)) => r matches Err(MqttError::ProtocolError(t)) && t@
                == "gzip encode failed: "@ + text@,
            Err(EncodeFault::Finish(text)) => r matches Err(MqttError::ProtocolError(t)) && t@
                == "gzip finish failed: "@ + text@,
        },
{
    match outcome {
        Ok(stream) => Ok(Arc::new(stream)),
        Err(EncodeFault::Write(text)) => {
            let t = joined("gzip encode failed: ", text.as_str(), "");
            proof {
                reveal_strlit("");
                assert(t@ =~= "gzip encode failed: "@ + text@);
            }
            Err(MqttError::ProtocolError(t))
        },
        Err(EncodeFault::Finish(text)) => {
            let t = joined("gzip finish failed: ", text.as_str(), "");
            proof {
                reveal_strlit("");
                assert(t@ =~= "gzip finish failed: "@ + text@);
            }
            Err(MqttError::ProtocolError(t))
        },
    }
}

/// What decoding gives, by what the decompressor gave when it was allowed to read one byte more
/// than the limit.
pub fn after_decode(outcome: std::result::Result<Vec<u8>, String>, limit: usize) -> (r: Result<
    Bytes,
>)
    ensures
        match outcome {
            Ok(bytes) => if bytes@.len() > limit {
                r matches Err(MqttError::ProtocolError(t)) && t@ == "gzip decompressed size "@
                    + crate::text::decimal(bytes@.len()) + " exceeds limit "@
                    + crate::text::decimal(limit as nat)
            } else {
                r matches Ok(b) && b@ == bytes@
            },
            Err(text) => r matches Err(MqttError::ProtocolError(t)) && t@
                == "gzip decode failed: "@ + text@,
        },
{
    match outcome {
        Ok(bytes) => {
            if bytes.len() > limit {
                let size = decimal_text(bytes.len() as u64);
                let most = decimal_text(limit as u64);
                let head = joined("gzip decompressed size ", size.as_str(), " exceeds limit ");
                let t = joined(head.as_str(), most.as_str(), "");
                proof {
                    reveal_strlit("");
                    assert(t@ =~= "gzip decompressed size "@ + crate::text::decimal(bytes@.len())
                        + " exceeds limit "@ + crate::text::decimal(limit as nat));
                }
                return Err(MqttError::ProtocolError(t));
            }
            Ok(Arc::new(bytes))
        },
        Err(text) => {
            let t = joined("gzip decode failed: ", text.as_str(), "");
            proof {
                reveal_strlit("");
                assert(t@ =~= "gzip decode failed: "@ + text@);
            }
            Err(MqttError::ProtocolError(t))
        },
    }
}

impl PayloadCodec for GzipCodec {
    open spec fn kind(&self) -> Seq<char> {
        "application/gzip"@
    }

    closed spec fn least(&self) -> usize {
        self.min_size
    }

    open spec fn usable(&self) -> bool {
        self.strength() <= MAX_LEVEL && self.limit() < usize::MAX
    }

    open spec fn encoded(&self, payload: Seq<u8>) -> Option<Seq<u8>> {
        match gz_encoded(self.strength(), payload) {
            Ok(stream) => Some(stream),
            Err(_) => None,
        }
    }

    open spec fn decoded(&self, payload: Seq<u8>) -> Option<Seq<u8>> {
        match gz_decoded(payload, (self.limit() + 1) as u64) {
            Ok(bytes) => if bytes.len() > self.limit() {
                None
            } else {
                Some(bytes)
            },
            Err(_) => None,
        }
    }

    open spec fn encode_fails(&self, payload: Seq<u8>, e: MqttError) -> bool {
        &&& gz_encoded(self.strength(), payload) is Err
        &&& e matches MqttError::ProtocolError(t) && t@ == (
        if gz_encoded(self.strength(), payload)->Err_0.0 {
            "gzip encode failed: "@
        } else {
            "gzip finish failed: "@
        }) + gz_encoded(self.strength(), payload)->Err_0.1
    }

    open spec fn decode_fails(&self, payload: Seq<u8>, e: MqttError) -> bool {
        e matches MqttError::ProtocolError(t) && match gz_decoded(
            payload,
            (self.limit() + 1) as u64,
        ) {
            Ok(bytes) => bytes.len() > self.limit() && t@ == "gzip decompressed size "@
                + crate::text::decimal(bytes.len()) + " exceeds limit "@ + crate::text::decimal(
                self.limit() as nat,
            ),
            Err(text) => t@ == "gzip decode failed: "@ + text,
        }
    }

    fn name(&self) -> (r: &'static str)
        ensures
            r@ == "gzip"@,
    {
        "gzip"
    }

    fn content_type(&self) -> (r: &'static str) {
        "application/gzip"
    }

    fn encode(&self, payload: &[u8]) -> (r: Result<Bytes>)
        ensures
            payload@.len() <= self.limit() ==> (r matches Ok(bytes) ==> self.decoded(bytes@)
                == Some(payload@)),
    {
        after_encode(gz_encode(self.level, payload))
    }

    fn decode(&self, payload: &[u8]) -> (r: Result<Bytes>) {
        let limit: usize = self.max_decompressed_size;
        after_decode(gz_decode(payload, (limit + 1) as u64), limit)
    }

    fn is_usable(&self) -> (r: bool) {
        self.level <= MAX_LEVEL && self.max_decompressed_size < usize::MAX
    }

    fn min_size_threshold(&self) -> (r: usize) {
        self.min_size
    }
}

/// A payload that is decoded is what the stream holds, whole, and never larger than the limit; a stream
/// that holds no more than that is decoded. A payload is encoded at the level that was set, and an error
/// comes only where there is no result.
pub proof fn law_decoded_payload_is_within_the_limit(
    codec: GzipCodec,
    payload: Seq<u8>,
    e: MqttError,
)
    requires
        codec.usable(),
    ensures
        codec.decoded(payload) matches Some(bytes) ==> bytes.len() <= codec.limit() && gz_decoded(
            payload,
            (codec.limit() + 1) as u64,
        ) == std::result::Result::<Seq<u8>, Seq<char>>::Ok(bytes),
        gz_decoded(payload, (codec.limit() + 1) as u64) matches Ok(bytes) ==> (codec.decoded(
            payload,
        ) is Some <==> bytes.len() <= codec.limit()),
        codec.encoded(payload) matches Some(stream) ==> gz_encoded(codec.strength(), payload)
            == std::result::Result::<Seq<u8>, (bool, Seq<char>)>::Ok(stream),
        gz_encoded(codec.strength(), payload) is Ok ==> codec.encoded(payload) is Some,
        codec.encode_fails(payload, e) ==> codec.encoded(payload) is None && e is ProtocolError,
        codec.decode_fails(payload, e) ==> codec.decoded(payload) is None && e is ProtocolError,
        codec.strength() <= 10,
{
}

} // verus!

//! Payload codecs: what is done to a payload before it is published and after it came.

use crate::error::{MqttError, Result};
use crate::types::Bytes;
use vstd::prelude::*;

pub mod deflate;
pub mod gzip;
pub mod registry;

verus! {

/// How long a payload has to be for encoding to be worth it, where a codec has no reason for
/// another threshold.
pub const DEFAULT_MIN_SIZE: usize = 128;

/// What a codec is, as far as its users can tell.
pub struct Behaviour {
    /// The content type that marks an encoded payload.
    pub kind: Seq<char>,
    /// How long a payload has to be for encoding to be worth it.
    pub least: usize,
    /// The encoded form of a payload, if it can be encoded.
    pub encoded: spec_fn(Seq<u8>) -> Option<Seq<u8>>,
    /// The payload that an encoded form stands for, if it stands for one.
    pub decoded: spec_fn(Seq<u8>) -> Option<Seq<u8>>,
    /// Whether an error is the one with which a payload is not encoded.
    pub encode_fails: spec_fn(Seq<u8>, MqttError) -> bool,
    /// Whether an error is the one with which an encoded form is not decoded.
    pub decode_fails: spec_fn(Seq<u8>, MqttError) -> bool,
}

/// The behaviour of a codec that does not say what it is: some function of the codec.
pub open spec fn unstated<C: ?Sized>(codec: &C) -> Behaviour {
    arbitrary::<spec_fn(&C) -> Behaviour>()(codec)
}

/// Encodes and decodes payloads. What a codec makes of a payload is a function of the codec and
/// the payload. A codec that does not say which function it is leaves that open.
pub trait PayloadCodec: Send + Sync {
    /// The content type that marks an encoded payload.
    open spec fn kind(&self) -> Seq<char> {
        unstated(self).kind
    }

    /// How long a payload has to be for encoding to be worth it.
    open spec fn least(&self) -> usize {
        unstated(self).least
    }

    /// Whether the settings of the codec can be used.
    open spec fn usable(&self) -> bool {
        true
    }

    /// The encoded form of a payload, if it can be encoded.
    open spec fn encoded(&self, payload: Seq<u8>) -> Option<Seq<u8>> {
        (unstated(self).encoded)(payload)
    }

    /// The payload that an encoded form stands for, if it stands for one.
    open spec fn decoded(&self, payload: Seq<u8>) -> Option<Seq<u8>> {
        (unstated(self).decoded)(payload)
    }

    /// Whether an error is the one with which a payload is not encoded.
    open spec fn encode_fails(&self, payload: Seq<u8>, e: MqttError) -> bool {
        (unstated(self).encode_fails)(payload, e)
    }

    /// Whether an error is the one with which an encoded form is not decoded.
    open spec fn decode_fails(&self, payload: Seq<u8>, e: MqttError) -> bool {
        (unstated(self).decode_fails)(payload, e)
    }

    /// The name of the codec.
    fn name(&self) -> (r: &'static str);

    /// The content type that marks an encoded payload.
    fn content_type(&self) -> (r: &'static str)
        ensures
            r@ == self.kind(),
    ;

    /// Whether the settings of the codec can be used: only then it can be registered.
    fn is_usable(&self) -> (r: bool)
        ensures
            r == self.usable(),
    ;

    /// Encodes a payload.
    fn encode(&self, payload: &[u8]) -> (r: Result<Bytes>)
        requires
            self.usable(),
        ensures
            match r {
                Ok(bytes) => self.encoded(payload@) == Some(bytes@),
                Err(e) => self.encoded(payload@) is None && self.encode_fails(payload@, e),
            },
    ;

    /// Decodes a payload.
    fn decode(&self, payload: &[u8]) -> (r: Result<Bytes>)
        requires
            self.usable(),
        ensures
            match r {
                Ok(bytes) => self.decoded(payload@) == Some(bytes@),
                Err(e) => self.decoded(payload@) is None && self.decode_fails(payload@, e),
            },
    ;

    /// How long a payload has to be for encoding to be worth it.
    fn min_size_threshold(&self) -> (r: usize)
        ensures
            r == self.least(),
    ;

    /// Whether a payload is long enough to be encoded.
    fn should_encode(&self, payload: &[u8]) -> (r: bool)
        ensures
            r == (payload@.len() >= self.least()),
    {
        payload.len() >= self.min_size_threshold()
    }
}

} // verus!

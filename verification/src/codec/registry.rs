//! The codecs that a client knows, by content type.

use super::PayloadCodec;
use crate::error::{MqttError, Result};
use crate::text::{joined, owned};
use crate::text_map::TextMap;
use crate::types::Bytes;
use std::sync::Arc;
use vstd::prelude::*;

verus! {

/// A codec of any type.
pub struct SharedCodec {
    pub codec: Arc<dyn PayloadCodec>,
}

/// Codecs by content type, one of which may be the default for what is published.
pub struct CodecRegistry {
    codecs: TextMap<SharedCodec>,
    default_codec: Option<String>,
}

/// The bytes of a slice.
fn copied(payload: &[u8]) -> (r: Bytes)
    ensures
        r@ == payload@,
{
    Arc::new(vstd::slice::slice_to_vec(payload))
}

impl CodecRegistry {
    /// The codecs by content type.
    pub closed spec fn known(&self) -> Map<Seq<char>, SharedCodec> {
        self.codecs@
    }

    /// The content type of the default codec.
    pub closed spec fn preferred(&self) -> Option<Seq<char>> {
        match self.default_codec {
            Some(content_type) => Some(content_type@),
            None => None,
        }
    }

    /// Every codec stands under its content type and can be used, and the default is among them.
    pub closed spec fn wf(&self) -> bool {
        &&& self.codecs.wf()
        &&& forall|k: Seq<char>| #[trigger]
            self.codecs@.contains_key(k) ==> self.codecs@[k].codec.kind() == k
                && self.codecs@[k].codec.usable()
        &&& self.default_codec matches Some(content_type) ==> self.codecs@.contains_key(
            content_type@,
        )
    }

    /// A registry without codecs.
    pub fn new() -> (r: Self)
        ensures
            r.wf(),
            r.known() == Map::<Seq<char>, SharedCodec>::empty(),
            r.preferred() is None,
    {
        CodecRegistry { codecs: TextMap::new(), default_codec: None }
    }

    /// Registers a codec; one with the same content type is replaced.
    pub fn register(&mut self, shared: SharedCodec)
        requires
            old(self).wf(),
            shared.codec.usable(),
        ensures
            final(self).wf(),
            final(self).known() == old(self).known().insert(shared.codec.kind(), shared),
            final(self).preferred() == old(self).preferred(),
    {
        let content_type = owned(shared.codec.content_type());
        let _ = self.codecs.insert(content_type, shared);
    }

    /// Makes a registered codec the default.
    pub fn set_default(&mut self, content_type: &str) -> (r: Result<()>)
        requires
            old(self).wf(),
        ensures
            final(self).wf(),
            final(self).known() == old(self).known(),
            match r {
                Ok(()) => old(self).known().contains_key(content_type@)
                    && final(self).preferred() == Some(content_type@),
                Err(e) => {
                    &&& !old(self).known().contains_key(content_type@)
                    &&& final(self).preferred() == old(self).preferred()
                    &&& e matches MqttError::ProtocolError(t) && t@ == "codec not registered: "@
                        + content_type@
                },
            },
    {
        if self.codecs.contains_key(content_type) {
            self.default_codec = Some(owned(content_type));
            Ok(())
        } else {
            let t = joined("codec not registered: ", content_type, "");
            proof {
                reveal_strlit("");
                assert(t@ =~= "codec not registered: "@ + content_type@);
            }
            Err(MqttError::ProtocolError(t))
        }
    }

    /// The codec for a content type.
    pub fn get(&self, content_type: &str) -> (r: Option<&SharedCodec>)
        requires
            self.wf(),
        ensures
            match r {
                Some(shared) => {
                    &&& self.known().contains_key(content_type@)
                    &&& *shared == self.known()[content_type@]
                    &&& shared.codec.usable()
                    &&& shared.codec.kind() == content_type@
                },
                None => !self.known().contains_key(content_type@),
            },
    {
        self.codecs.get(content_type)
    }

    /// The default codec.
    pub fn default_codec(&self) -> (r: Option<&SharedCodec>)
        requires
            self.wf(),
        ensures
            match r {
                Some(shared) => {
                    &&& self.preferred() == Some(shared.codec.kind())
                    &&& *shared == self.known()[shared.codec.kind()]
                    &&& shared.codec.usable()
                },
                None => self.preferred() is None,
            },
    {
        match &self.default_codec {
            Some(content_type) => self.get(content_type.as_str()),
            None => None,
        }
    }

    /// Encodes a payload with the default codec and says with which content type. Without a
    /// default codec, and if the payload is too short for it, the payload stays as it is.
    pub fn encode_with_default(&self, payload: &[u8]) -> (r: Result<(Bytes, Option<String>)>)
        requires
            self.wf(),
        ensures
            match self.preferred() {
                Some(content_type) if payload@.len() >= self.known()[content_type].codec.least() => {
                    match self.known()[content_type].codec.encoded(payload@) {
                        Some(bytes) => r matches Ok(out) && out.0@ == bytes && (
                        out.1 matches Some(t) && t@ == content_type),
                        None => r matches Err(e) && self.known()[content_type].codec.encode_fails(
                            payload@,
                            e,
                        ),
                    }
                },
                _ => r matches Ok(out) && out.0@ == payload@ && out.1 is None,
            },
    {
        match self.default_codec() {
            Some(shared) => {
                if !shared.codec.should_encode(payload) {
                    return Ok((copied(payload), None));
                }
                match shared.codec.encode(payload) {
                    Ok(bytes) => Ok((bytes, Some(owned(shared.codec.content_type())))),
                    Err(e) => Err(e),
                }
            },
            None => Ok((copied(payload), None)),
        }
    }

    /// Decodes a payload with the codec of its content type. Without a content type, and with one
    /// that is not known, the payload stays as it is.
    pub fn decode_if_needed(&self, payload: &[u8], content_type: Option<&str>) -> (r: Result<Bytes>)
        requires
            self.wf(),
        ensures
            match content_type {
                Some(t) if self.known().contains_key(t@) => {
                    match self.known()[t@].codec.decoded(payload@) {
                        Some(bytes) => r matches Ok(out) && out@ == bytes,
                        None => r matches Err(e) && self.known()[t@].codec.decode_fails(
                            payload@,
                            e,
                        ),
                    }
                },
                _ => r matches Ok(out) && out@ == payload@,
            },
    {
        match content_type {
            Some(t) => match self.get(t) {
                Some(shared) => shared.codec.decode(payload),
                None => Ok(copied(payload)),
            },
            None => Ok(copied(payload)),
        }
    }
}

impl Default for CodecRegistry {
    fn default() -> (r: Self)
        ensures
            r.wf(),
            r.known() == Map::<Seq<char>, SharedCodec>::empty(),
            r.preferred() is None,
    {
        CodecRegistry::new()
    }
}

} // verus!

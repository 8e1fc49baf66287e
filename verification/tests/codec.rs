use mqtt5::callback::CallbackManager;
use mqtt5::codec::deflate::DeflateCodec;
use mqtt5::codec::gzip::{after_decode, after_encode, EncodeFault, GzipCodec};
use mqtt5::codec::registry::{CodecRegistry, SharedCodec};
use mqtt5::codec::{PayloadCodec, DEFAULT_MIN_SIZE};
use mqtt5::error::{MqttError, Result};
use mqtt5::types::Bytes;
use std::sync::Arc;

#[test]
fn test_deflate_roundtrip() {
    let codec = DeflateCodec::new();
    let original = b"Hello, World! This is a test payload for compression.";

    let encoded = codec.encode(original).unwrap();
    assert_ne!(&encoded[..], original);
    let decoded = codec.decode(&encoded).unwrap();

    assert_eq!(&decoded[..], original);
}

#[test]
fn test_deflate_compression_ratio() {
    let codec = DeflateCodec::new();
    let original: Vec<u8> = vec![b'A'; 1000];

    let encoded = codec.encode(&original).unwrap();

    assert!(encoded.len() < original.len());
}

#[test]
fn test_deflate_with_level() {
    let codec = DeflateCodec::new().with_level(9);
    let original = b"Hello, World! This is a test payload for compression.";

    let encoded = codec.encode(original).unwrap();
    let decoded = codec.decode(&encoded).unwrap();

    assert_eq!(&decoded[..], original);
}

#[test]
fn test_deflate_content_type() {
    let codec = DeflateCodec::new();
    assert_eq!(codec.content_type(), "application/x-deflate");
    assert_eq!(codec.name(), "deflate");
}

#[test]
fn test_deflate_min_size_threshold() {
    let codec = DeflateCodec::new().with_min_size(256);
    assert_eq!(codec.min_size_threshold(), 256);
}

#[test]
fn test_deflate_should_encode() {
    let codec = DeflateCodec::new().with_min_size(100);

    let small_payload = vec![0u8; 50];
    let large_payload = vec![0u8; 150];

    assert!(!codec.should_encode(&small_payload));
    assert!(codec.should_encode(&large_payload));
}

#[test]
fn test_deflate_invalid_data() {
    let codec = DeflateCodec::new();
    let invalid = b"\xff\xfe\xfd\xfc";

    let result = codec.decode(invalid);
    assert!(result.is_err());
}

#[test]
fn test_gzip_roundtrip() {
    let codec = GzipCodec::new();
    let original = b"Hello, World! This is a test payload for compression.";

    let encoded = codec.encode(original).unwrap();
    assert_ne!(&encoded[..], original);
    let decoded = codec.decode(&encoded).unwrap();

    assert_eq!(&decoded[..], original);
}

#[test]
fn test_gzip_compression_ratio() {
    let codec = GzipCodec::new();
    let original: Vec<u8> = vec![b'A'; 1000];

    let encoded = codec.encode(&original).unwrap();

    assert!(encoded.len() < original.len());
}

#[test]
fn test_gzip_with_level() {
    let codec = GzipCodec::new().with_level(9);
    let original = b"Hello, World! This is a test payload for compression.";

    let encoded = codec.encode(original).unwrap();
    let decoded = codec.decode(&encoded).unwrap();

    assert_eq!(&decoded[..], original);
}

#[test]
fn test_gzip_content_type() {
    let codec = GzipCodec::new();
    assert_eq!(codec.content_type(), "application/gzip");
    assert_eq!(codec.name(), "gzip");
}

#[test]
fn test_gzip_min_size_threshold() {
    let codec = GzipCodec::new().with_min_size(256);
    assert_eq!(codec.min_size_threshold(), 256);
}

#[test]
fn test_gzip_should_encode() {
    let codec = GzipCodec::new().with_min_size(100);

    let small_payload = vec![0u8; 50];
    let large_payload = vec![0u8; 150];

    assert!(!codec.should_encode(&small_payload));
    assert!(codec.should_encode(&large_payload));
}

#[test]
fn test_gzip_invalid_data() {
    let codec = GzipCodec::new();
    let invalid = b"not gzip data";

    let result = codec.decode(invalid);
    assert!(result.is_err());
}

#[test]
fn gzip_refuses_more_than_the_limit() {
    let limited = GzipCodec::new().with_max_decompressed_size(10);
    let encoded = limited.encode(&[b'A'; 11]).unwrap();
    assert!(matches!(
        limited.decode(&encoded),
        Err(MqttError::ProtocolError(_))
    ));
    let fits = limited.encode(&[b'A'; 10]).unwrap();
    assert_eq!(limited.decode(&fits).unwrap().len(), 10);
}

#[test]
fn faults_of_the_compression_are_reported() {
    assert!(after_encode(Err(EncodeFault::Write("x".to_string()))).is_err());
    assert!(after_encode(Err(EncodeFault::Finish("x".to_string()))).is_err());
    assert_eq!(&after_encode(Ok(vec![1])).unwrap()[..], [1]);
    assert!(after_decode(Err("x".to_string()), 5).is_err());
    assert!(after_decode(Ok(vec![0; 6]), 5).is_err());
    assert_eq!(after_decode(Ok(vec![0; 5]), 5).unwrap().len(), 5);
}

struct MockCodec {
    min_size: usize,
}

impl MockCodec {
    fn shared() -> SharedCodec {
        SharedCodec {
            codec: Arc::new(MockCodec { min_size: 10 }),
        }
    }
}

impl PayloadCodec for MockCodec {
    fn name(&self) -> &'static str {
        "mock"
    }

    fn content_type(&self) -> &'static str {
        "application/mock"
    }

    fn encode(&self, payload: &[u8]) -> Result<Bytes> {
        let mut encoded = b"MOCK:".to_vec();
        encoded.extend_from_slice(payload);
        Ok(Arc::new(encoded))
    }

    fn decode(&self, payload: &[u8]) -> Result<Bytes> {
        if payload.starts_with(b"MOCK:") {
            Ok(Arc::new(payload[5..].to_vec()))
        } else {
            Err(MqttError::ProtocolError("invalid mock payload".into()))
        }
    }

    fn is_usable(&self) -> bool {
        true
    }

    fn min_size_threshold(&self) -> usize {
        self.min_size
    }
}

#[test]
fn codecs_tell_whether_their_settings_can_be_used() {
    assert!(GzipCodec::new().is_usable());
    assert!(!GzipCodec::new().with_level(11).is_usable());
    assert!(!GzipCodec::new()
        .with_max_decompressed_size(usize::MAX)
        .is_usable());
    assert!(DeflateCodec::new().is_usable());
    assert!(!DeflateCodec::new().with_level(11).is_usable());
    assert_eq!(GzipCodec::new().min_size_threshold(), DEFAULT_MIN_SIZE);
    assert_eq!(DeflateCodec::new().min_size_threshold(), 128);
}

#[test]
fn test_register_and_get() {
    let mut registry = CodecRegistry::new();
    registry.register(MockCodec::shared());

    assert!(registry.get("application/mock").is_some());
    assert!(registry.get("application/other").is_none());
}

#[test]
fn test_set_default() {
    let mut registry = CodecRegistry::new();
    registry.register(MockCodec::shared());

    assert!(registry.default_codec().is_none());

    registry.set_default("application/mock").unwrap();
    assert!(registry.default_codec().is_some());
}

#[test]
fn test_set_default_unregistered() {
    let mut registry = CodecRegistry::new();
    let result = registry.set_default("application/unknown");
    assert!(result.is_err());
}

#[test]
fn test_encode_with_default() {
    let mut registry = CodecRegistry::new();
    registry.register(MockCodec::shared());
    registry.set_default("application/mock").unwrap();

    let payload = b"hello world test data";
    let (encoded, content_type) = registry.encode_with_default(payload).unwrap();

    assert!(content_type.is_some());
    assert_eq!(content_type.unwrap(), "application/mock");
    assert!(encoded.starts_with(b"MOCK:"));
}

#[test]
fn test_encode_skip_small_payload() {
    let mut registry = CodecRegistry::new();
    registry.register(MockCodec::shared());
    registry.set_default("application/mock").unwrap();

    let payload = b"small";
    let (encoded, content_type) = registry.encode_with_default(payload).unwrap();

    assert!(content_type.is_none());
    assert_eq!(&encoded[..], payload);
}

#[test]
fn test_decode_if_needed() {
    let mut registry = CodecRegistry::new();
    registry.register(MockCodec::shared());

    let payload = b"MOCK:hello world";
    let decoded = registry
        .decode_if_needed(payload, Some("application/mock"))
        .unwrap();

    assert_eq!(&decoded[..], b"hello world");
}

#[test]
fn test_decode_no_content_type() {
    let mut registry = CodecRegistry::new();
    registry.register(MockCodec::shared());

    let payload = b"raw payload";
    let decoded = registry.decode_if_needed(payload, None).unwrap();

    assert_eq!(&decoded[..], payload);
}

#[test]
fn test_decode_unknown_content_type() {
    let registry = CodecRegistry::new();

    let payload = b"raw payload";
    let decoded = registry
        .decode_if_needed(payload, Some("application/unknown"))
        .unwrap();

    assert_eq!(&decoded[..], payload);
}

#[test]
fn registered_codecs_are_chosen_by_content_type() {
    let mut registry = CodecRegistry::new();
    registry.register(SharedCodec {
        codec: Arc::new(GzipCodec::new().with_min_size(1)),
    });
    registry.register(SharedCodec {
        codec: Arc::new(DeflateCodec::new().with_min_size(1)),
    });
    registry.set_default("application/gzip").unwrap();
    let (encoded, content_type) = registry.encode_with_default(b"payload").unwrap();
    assert_eq!(content_type.as_deref(), Some("application/gzip"));
    let decoded = registry
        .decode_if_needed(&encoded, content_type.as_deref())
        .unwrap();
    assert_eq!(&decoded[..], b"payload");
    assert!(registry
        .decode_if_needed(&encoded, Some("application/x-deflate"))
        .is_err());
}

#[test]
fn test_exact_match_callback() {
    let mut manager = CallbackManager::new();
    let id = manager.register_with_id("test/topic".to_string()).unwrap();
    assert_eq!(manager.dispatch("test/topic"), vec![id]);
    assert!(manager.dispatch("test/other").is_empty());
}

#[test]
fn test_wildcard_callback() {
    let mut manager = CallbackManager::new();
    let id = manager.register_with_id("test/+/topic".to_string()).unwrap();
    assert_eq!(manager.dispatch("test/foo/topic"), vec![id]);
    assert_eq!(manager.dispatch("test/bar/topic"), vec![id]);
    assert!(manager.dispatch("test/topic").is_empty());
}

#[test]
fn test_multiple_callbacks() {
    let mut manager = CallbackManager::new();
    let first = manager.register_with_id("test/topic".to_string()).unwrap();
    let second = manager.register_with_id("test/topic".to_string()).unwrap();
    assert_ne!(first, second);
    let called = manager.dispatch("test/topic");
    assert_eq!(called.len(), 2);
    assert!(called.contains(&first));
    assert!(called.contains(&second));
}

#[test]
fn test_unregister() {
    let mut manager = CallbackManager::new();
    manager.register("test/topic".to_string()).unwrap();
    assert_eq!(manager.dispatch("test/topic").len(), 1);
    manager.unregister("test/topic").unwrap();
    assert!(manager.dispatch("test/topic").is_empty());
}

#[test]
fn unregister_refuses_an_invalid_filter() {
    let mut manager = CallbackManager::new();
    manager.register("a/#".to_string()).unwrap();
    assert!(matches!(
        manager.unregister("a/#/b"),
        Err(MqttError::InvalidTopicFilter(_))
    ));
    assert_eq!(manager.callback_count(), 1);
    assert!(!manager.unregister("b/#").unwrap());
    assert!(manager.unregister("a/#").unwrap());
}

#[test]
fn test_callback_count() {
    let mut manager = CallbackManager::new();

    assert_eq!(manager.callback_count(), 0);

    manager.register("test/exact".to_string()).unwrap();
    assert_eq!(manager.callback_count(), 1);

    manager.register("test/+/wildcard".to_string()).unwrap();
    assert_eq!(manager.callback_count(), 2);

    manager.register("test/exact".to_string()).unwrap();
    assert_eq!(manager.callback_count(), 3);

    manager.clear();
    assert_eq!(manager.callback_count(), 0);
}

#[test]
fn test_shared_subscription_callback() {
    let mut manager = CallbackManager::new();
    let id = manager.register_with_id("$share/workers/tasks/#".to_string()).unwrap();
    assert_eq!(manager.dispatch("tasks/job1"), vec![id]);
    assert_eq!(manager.dispatch("tasks/job2"), vec![id]);
    assert!(manager.dispatch("other/topic").is_empty());
}

#[test]
fn test_dispatch_handles_multiple_concurrent_callbacks() {
    let mut manager = CallbackManager::new();
    let mut ids = Vec::new();
    for i in 0..5 {
        ids.push(manager.register_with_id(format!("test/topic{i}")).unwrap());
    }
    let wildcard = manager.register_with_id("test/#".to_string()).unwrap();
    let called = manager.dispatch("test/topic0");
    assert_eq!(called.len(), 2);
    assert!(called.contains(&ids[0]));
    assert!(called.contains(&wildcard));
}

#[test]
fn registered_callback_is_not_restored_twice() {
    let mut manager = CallbackManager::new();
    let id = manager.register_with_id("t".to_string()).unwrap();
    assert!(manager.restore_callback(id));
    assert_eq!(manager.dispatch("t"), vec![id]);
    assert!(!manager.restore_callback(id + 1));
}

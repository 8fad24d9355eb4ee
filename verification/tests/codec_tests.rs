use java_bindings::codec::decode_state_hashes;
use java_bindings::codec::encode_service;
use java_bindings::codec::encode_state_hashes;
use java_bindings::codec::parse_varint;
use java_bindings::codec::to_hash;
use java_bindings::codec::ServiceRuntimeStateHashes;
use java_bindings::codec::ServiceStateHashes;
use java_bindings::codec::HASH_SIZE;
use java_bindings::calls::ReturnValue;
use java_bindings::exception::CallOutcome;
use java_bindings::exception::PendingException;
use java_bindings::runtime::state_hashes_response;

fn hash_bytes(fill: u8) -> Vec<u8> {
    vec![fill; HASH_SIZE]
}

#[test]
fn varint_reads_multi_byte_values() {
    assert_eq!(parse_varint(&vec![0x96, 0x01], 0), Some((150, 2)));
    assert_eq!(parse_varint(&vec![0x00], 0), Some((0, 1)));
    assert_eq!(parse_varint(&vec![0x7f], 0), Some((127, 1)));
    assert_eq!(
        parse_varint(&vec![0xff, 0xff, 0xff, 0xff, 0xff, 0xff, 0xff, 0xff, 0xff, 0x01], 0),
        Some((u64::MAX, 10))
    );
    // The bytes end inside a value.
    assert_eq!(parse_varint(&vec![0x96], 0), None);
    // An eleventh group cannot belong to one value.
    assert_eq!(
        parse_varint(&vec![0x80, 0x80, 0x80, 0x80, 0x80, 0x80, 0x80, 0x80, 0x80, 0x80, 0x01], 0),
        None
    );
}

#[test]
fn round_trip_keeps_counts_and_order() {
    let aggregate = ServiceRuntimeStateHashes {
        runtime_state_hashes: vec![hash_bytes(1), hash_bytes(2)],
        service_state_hashes: vec![
            ServiceStateHashes { instance_id: 1, state_hashes: vec![hash_bytes(3)] },
            ServiceStateHashes {
                instance_id: 9,
                state_hashes: vec![hash_bytes(4), hash_bytes(5)],
            },
        ],
    };
    let encoded = encode_state_hashes(&aggregate);
    let decoded = decode_state_hashes(&encoded).unwrap();
    assert_eq!(decoded.runtime_state_hashes.len(), 2);
    assert_eq!(decoded.runtime_state_hashes, vec![hash_bytes(1), hash_bytes(2)]);
    assert_eq!(decoded.service_state_hashes.len(), 2);
    assert_eq!(decoded.service_state_hashes[0].instance_id, 1);
    assert_eq!(decoded.service_state_hashes[0].state_hashes, vec![hash_bytes(3)]);
    assert_eq!(decoded.service_state_hashes[1].instance_id, 9);
    assert_eq!(
        decoded.service_state_hashes[1].state_hashes,
        vec![hash_bytes(4), hash_bytes(5)]
    );
}

#[test]
fn round_trip_of_the_empty_aggregate() {
    let aggregate = ServiceRuntimeStateHashes {
        runtime_state_hashes: vec![],
        service_state_hashes: vec![],
    };
    let encoded = encode_state_hashes(&aggregate);
    assert_eq!(encoded, Vec::<u8>::new());
    let decoded = decode_state_hashes(&encoded).unwrap();
    assert!(decoded.runtime_state_hashes.is_empty());
    assert!(decoded.service_state_hashes.is_empty());
}

#[test]
fn encoded_service_has_the_wire_layout() {
    let svc = ServiceStateHashes { instance_id: 150, state_hashes: vec![vec![7, 8]] };
    let encoded = encode_service(&svc);
    assert_eq!(encoded, vec![0x08, 0x96, 0x01, 0x12, 0x02, 7, 8]);
}

#[test]
fn decode_skips_unknown_fields() {
    // Field three as a small integer, then field one as a two-byte string.
    let bytes = vec![0x18, 0x05, 0x0a, 0x02, 0xca, 0xfe];
    let decoded = decode_state_hashes(&bytes).unwrap();
    assert_eq!(decoded.runtime_state_hashes, vec![vec![0xca, 0xfe]]);
    assert!(decoded.service_state_hashes.is_empty());
}

#[test]
fn decode_rejects_malformed_buffers() {
    // A length that runs past the end.
    assert!(decode_state_hashes(&vec![0x0a, 0xff]).is_err());
    // A bare truncated value.
    assert!(decode_state_hashes(&vec![0x08]).is_err());
    // The retired group wire type.
    assert!(decode_state_hashes(&vec![0x0b]).is_err());
}

#[test]
fn state_hashes_response_decodes_a_returned_buffer() {
    let aggregate = ServiceRuntimeStateHashes {
        runtime_state_hashes: vec![hash_bytes(1)],
        service_state_hashes: vec![ServiceStateHashes {
            instance_id: 4,
            state_hashes: vec![hash_bytes(2)],
        }],
    };
    let encoded = encode_state_hashes(&aggregate);
    let result = state_hashes_response(CallOutcome::Returned(ReturnValue::Bytes(encoded)))
        .unwrap();
    assert_eq!(result.runtime.len(), 1);
    assert_eq!(result.runtime[0].as_bytes(), &hash_bytes(1));
    assert_eq!(result.instances.len(), 1);
    assert_eq!(result.instances[0].0, 4);
    assert_eq!(result.instances[0].1[0].as_bytes(), &hash_bytes(2));
}

#[test]
fn state_hashes_response_is_fatal_on_any_failure() {
    let exc = PendingException {
        instance_of: vec![],
        message: None,
        string_form: "boom".to_string(),
        error_code: 0,
    };
    assert!(state_hashes_response(CallOutcome::Exception(exc)).is_err());
    // A buffer whose hash is not of the fixed width.
    let aggregate = ServiceRuntimeStateHashes {
        runtime_state_hashes: vec![vec![1, 2, 3]],
        service_state_hashes: vec![],
    };
    let encoded = encode_state_hashes(&aggregate);
    assert!(state_hashes_response(CallOutcome::Returned(ReturnValue::Bytes(encoded))).is_err());
    // No buffer at all.
    assert!(state_hashes_response(CallOutcome::Returned(ReturnValue::Void)).is_err());
}

#[test]
fn to_hash_keeps_the_bytes() {
    let h = to_hash(&hash_bytes(0xab));
    assert_eq!(h.as_bytes(), &hash_bytes(0xab));
}

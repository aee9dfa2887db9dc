use sn_node::error::PutError;
use sn_node::record::{
    chunk_address_of, chunk_record, deserialize_record, record_kind, serialize_record,
    validate_key, RecordKind,
};
use xor_name::XorName;

const KINDS: [RecordKind; 5] = [
    RecordKind::Chunk,
    RecordKind::ChunkWithPayment,
    RecordKind::Register,
    RecordKind::RegisterWithPayment,
    RecordKind::Spend,
];

#[test]
fn framing_round_trips_for_every_kind() {
    let payload = vec![1u8, 2, 3, 250];
    for kind in KINDS {
        let value = serialize_record(&payload, kind);
        assert_eq!(value.len(), payload.len() + 2);
        let (k, p) = deserialize_record(&value).unwrap();
        assert_eq!(k, kind);
        assert_eq!(p, payload);
        assert_eq!(record_kind(&value), Ok(kind));
    }
}

#[test]
fn framing_writes_header_then_payload() {
    assert_eq!(serialize_record(&vec![9], RecordKind::Spend), vec![0x91, 4, 9]);
    assert_eq!(serialize_record(&vec![], RecordKind::Chunk), vec![0x91, 0]);
}

#[test]
fn malformed_headers_are_refused() {
    assert_eq!(record_kind(&vec![]), Err(PutError::RecordHeaderParsingFailed));
    assert_eq!(record_kind(&vec![0x91]), Err(PutError::RecordHeaderParsingFailed));
    assert_eq!(record_kind(&vec![0x92, 0]), Err(PutError::RecordHeaderParsingFailed));
    assert_eq!(record_kind(&vec![0x91, 5]), Err(PutError::RecordHeaderParsingFailed));
}

#[test]
fn key_must_match_address() {
    let addr = vec![7u8; 32];
    assert_eq!(validate_key(&addr, &addr.clone()), Ok(()));
    assert_eq!(validate_key(&addr, &vec![8u8; 32]), Err(PutError::RecordKeyMismatch));
    assert_eq!(validate_key(&addr, &vec![7u8; 31]), Err(PutError::RecordKeyMismatch));
}

#[test]
fn chunk_record_is_keyed_by_content_name() {
    let content = b"some chunk".to_vec();
    let expected = XorName::from_content(&content).0.to_vec();
    assert_eq!(chunk_address_of(&content), expected);
    let rec = chunk_record(&content);
    assert_eq!(rec.key, expected);
    assert_ne!(rec.key, content);
    let (kind, payload) = deserialize_record(&rec.value).unwrap();
    assert_eq!(kind, RecordKind::Chunk);
    assert_eq!(payload, content);
}

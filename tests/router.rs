use sn_node::error::PutError;
use sn_node::record::RecordKind;
use sn_node::router::{
    client_route, non_chunk_replication, paid_chunk_outcome, paid_register_admission,
    replicated_chunk_outcome, replicated_route, spend_outcome, spend_record, ClientRoute,
    ReplicatedRoute, ReplicationKind,
};
use xor_name::XorName;

#[test]
fn client_routes() {
    assert_eq!(client_route(RecordKind::ChunkWithPayment), Ok(ClientRoute::PaidChunk));
    assert_eq!(client_route(RecordKind::Chunk), Err(PutError::InvalidPutWithoutPayment));
    assert_eq!(client_route(RecordKind::Spend), Ok(ClientRoute::Spend));
    assert_eq!(client_route(RecordKind::Register), Ok(ClientRoute::UnpaidRegister));
    assert_eq!(client_route(RecordKind::RegisterWithPayment), Ok(ClientRoute::PaidRegister));
}

#[test]
fn replicated_routes_refuse_payments() {
    assert_eq!(replicated_route(RecordKind::ChunkWithPayment), Err(PutError::UnexpectedRecordWithPayment));
    assert_eq!(replicated_route(RecordKind::RegisterWithPayment), Err(PutError::UnexpectedRecordWithPayment));
    assert_eq!(replicated_route(RecordKind::Chunk), Ok(ReplicatedRoute::Chunk));
    assert_eq!(replicated_route(RecordKind::Spend), Ok(ReplicatedRoute::Spend));
    assert_eq!(replicated_route(RecordKind::Register), Ok(ReplicatedRoute::Register));
}

#[test]
fn paid_chunk_retried() {
    let first = paid_chunk_outcome(false, Ok(()));
    assert!(first.write && first.replicate);
    assert_eq!(first.result, Ok(()));
    let second = paid_chunk_outcome(true, Err(PutError::ReusedPayment));
    assert!(!second.write);
    assert!(second.replicate);
    assert_eq!(second.result, Ok(()));
}

#[test]
fn paid_chunk_with_bad_payment_is_not_stored() {
    let o = paid_chunk_outcome(false, Err(PutError::NoNetworkRoyaltiesPayment));
    assert!(!o.write && !o.replicate);
    assert_eq!(o.result, Err(PutError::NoNetworkRoyaltiesPayment));
}

#[test]
fn replicated_chunk_is_stored_once() {
    assert!(replicated_chunk_outcome(false).write);
    assert!(!replicated_chunk_outcome(true).write);
    assert!(!replicated_chunk_outcome(false).replicate);
}

#[test]
fn paid_register_payment_error_only_for_new() {
    assert_eq!(paid_register_admission(true, Err(PutError::ReusedPayment)), Ok(()));
    assert_eq!(paid_register_admission(false, Err(PutError::ReusedPayment)), Err(PutError::ReusedPayment));
    assert_eq!(paid_register_admission(false, Ok(())), Ok(()));
}

#[test]
fn spend_outcomes() {
    let ok = spend_outcome(&Ok(vec![vec![1]]), true);
    assert!(ok.write && ok.replicate);
    let replicated = spend_outcome(&Ok(vec![vec![1]]), false);
    assert!(replicated.write && !replicated.replicate);
    let err = spend_outcome(&Err(PutError::InvalidParentSpend), true);
    assert!(!err.write && !err.replicate);
    assert_eq!(err.result, Err(PutError::InvalidParentSpend));
}

#[test]
fn non_chunk_replication_names_the_value() {
    let value = vec![0x91, 4, 1, 2, 3];
    match non_chunk_replication(&value) {
        ReplicationKind::NonChunk(h) => {
            assert_eq!(h, XorName::from_content(&value).0.to_vec());
            assert_ne!(h, value);
        }
        ReplicationKind::Chunk => panic!("expected a non-chunk key"),
    }
}

#[test]
fn spend_record_keeps_key() {
    let rec = spend_record(&vec![4u8; 32], &vec![9]);
    assert_eq!(rec.key, vec![4u8; 32]);
    assert_eq!(rec.value, vec![0x91, 4, 9]);
}

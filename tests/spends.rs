use sn_node::error::PutError;
use sn_node::spends::{
    keep_spends_under_key, local_spend_payload, network_spends, skip_put_on_full_record, spend_record_key_of,
    spends_for_key, spends_to_keep, NetworkSpends, Verification,
};
use xor_name::XorName;

fn spend(pk_byte: u8, sig_byte: u8) -> Vec<u8> {
    let mut s = vec![pk_byte; 48];
    s.extend(vec![sig_byte; 96]);
    s
}

fn key_of(pk_byte: u8) -> Vec<u8> {
    XorName::from_content(&[pk_byte; 48]).0.to_vec()
}

#[test]
fn spend_key_is_name_of_pubkey() {
    assert_eq!(spend_record_key_of(&spend(7, 1)), key_of(7));
    assert_ne!(spend_record_key_of(&spend(7, 1)), spend(7, 1));
}

#[test]
fn double_spend_evidence_preserved() {
    let a = spend(3, 1);
    let b = spend(3, 2);
    let kept = spends_for_key(&vec![a.clone(), b.clone()], &key_of(3)).unwrap();
    assert_eq!(kept.len(), 2);
    let checked = vec![(b.clone(), Verification::Valid), (a.clone(), Verification::Valid)];
    let stored = spends_to_keep(&vec![], &checked).unwrap();
    assert_eq!(stored, vec![a, b]);
}

#[test]
fn spends_for_other_keys_are_dropped() {
    let ours = spend(3, 1);
    let other = spend(4, 1);
    let kept = spends_for_key(&vec![other.clone(), ours.clone()], &key_of(3)).unwrap();
    assert_eq!(kept, vec![ours]);
    assert_eq!(spends_for_key(&vec![other], &key_of(3)), Err(PutError::InvalidRequest));
    assert_eq!(spends_for_key(&vec![], &key_of(3)), Err(PutError::InvalidRequest));
}

#[test]
fn same_spend_twice_is_kept_once() {
    let s = spend(5, 9);
    let checked = vec![(s.clone(), Verification::Valid), (s.clone(), Verification::Valid)];
    assert_eq!(spends_to_keep(&vec![], &checked).unwrap(), vec![s.clone()]);
    let again = vec![(s.clone(), Verification::Valid)];
    assert_eq!(spends_to_keep(&vec![s.clone()], &again).unwrap(), vec![s]);
}

#[test]
fn parent_double_spend_with_single_spend_is_refused() {
    let s = spend(6, 1);
    let checked = vec![(s, Verification::ParentDoubleSpend)];
    assert_eq!(spends_to_keep(&vec![], &checked), Err(PutError::InvalidParentSpend));
}

#[test]
fn parent_double_spend_with_two_spends_is_stored() {
    let a = spend(6, 1);
    let b = spend(6, 2);
    let checked = vec![
        (a.clone(), Verification::ParentDoubleSpend),
        (b.clone(), Verification::ParentDoubleSpend),
    ];
    assert_eq!(spends_to_keep(&vec![], &checked).unwrap(), vec![a, b]);
}

#[test]
fn invalid_spends_are_skipped_and_none_left_is_an_error() {
    let a = spend(6, 1);
    let checked = vec![(a.clone(), Verification::Invalid)];
    assert_eq!(spends_to_keep(&vec![], &checked), Err(PutError::InvalidRequest));
    let local = vec![spend(6, 3)];
    assert_eq!(spends_to_keep(&local, &checked).unwrap(), local);
}

#[test]
fn failed_task_fails_the_merge() {
    let checked = vec![
        (spend(6, 1), Verification::Valid),
        (spend(6, 2), Verification::TaskFailed),
    ];
    assert_eq!(spends_to_keep(&vec![], &checked), Err(PutError::JoinErrorInAsyncThread));
}

#[test]
fn stored_spends_are_capped_at_thirty_in_order() {
    let mut checked = Vec::new();
    for sig in (0u8..40).rev() {
        checked.push((spend(8, sig), Verification::Valid));
    }
    let stored = spends_to_keep(&vec![], &checked).unwrap();
    assert_eq!(stored.len(), 30);
    let expected: Vec<Vec<u8>> = (0u8..30).map(|sig| spend(8, sig)).collect();
    assert_eq!(stored, expected);
}

#[test]
fn local_spends_are_trusted_and_merged() {
    let local = vec![spend(2, 5), spend(2, 1)];
    let checked = vec![(spend(2, 3), Verification::Valid)];
    let stored = spends_to_keep(&local, &checked).unwrap();
    assert_eq!(stored, vec![spend(2, 1), spend(2, 3), spend(2, 5)]);
}

#[test]
fn full_local_record_stops_puts_only() {
    let packet = 1000;
    assert!(skip_put_on_full_record(15, 10, packet, true));
    assert!(!skip_put_on_full_record(14, 10, packet, true));
    assert!(!skip_put_on_full_record(15, 10, packet, false));
    assert!(skip_put_on_full_record(2, 500, packet, true));
    assert!(!skip_put_on_full_record(1, 1000, packet, true));
    assert!(!skip_put_on_full_record(2, 499, packet, true));
}

#[test]
fn network_answers_give_their_spends() {
    let a = spend(1, 1);
    let b = spend(1, 2);
    assert_eq!(network_spends(&NetworkSpends::Found(vec![a.clone()])), vec![a.clone()]);
    assert!(network_spends(&NetworkSpends::NotFound).is_empty());
    assert!(network_spends(&NetworkSpends::Failed).is_empty());
    let split = NetworkSpends::Split(vec![Some(vec![a.clone()]), None, Some(vec![b.clone()])]);
    assert_eq!(network_spends(&split), vec![a.clone(), b]);
    assert_eq!(network_spends(&NetworkSpends::NotEnoughCopies(Some(vec![a.clone()]))), vec![a]);
    assert!(network_spends(&NetworkSpends::NotEnoughCopies(None)).is_empty());
}

#[test]
fn local_spend_record_must_be_a_spend() {
    assert_eq!(local_spend_payload(&None), Ok(None));
    assert_eq!(local_spend_payload(&Some(vec![0x91, 4, 7, 8])), Ok(Some(vec![7, 8])));
    assert_eq!(local_spend_payload(&Some(vec![0x91, 0, 7])), Err(PutError::RecordKindMismatch));
    assert_eq!(local_spend_payload(&Some(vec![1])), Err(PutError::RecordHeaderParsingFailed));
}

#[test]
fn selection_by_given_keys() {
    let spends = vec![vec![1u8], vec![2u8], vec![3u8]];
    let keys = vec![vec![9u8], vec![8u8], vec![9u8]];
    assert_eq!(keep_spends_under_key(&spends, &keys, &vec![9u8]), Ok(vec![vec![1u8], vec![3u8]]));
    assert_eq!(keep_spends_under_key(&spends, &keys, &vec![7u8]), Err(PutError::InvalidRequest));
}

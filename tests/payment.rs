use sn_node::error::PutError;
use sn_node::payment::{
    check_sufficient, decode_transfers, settle_payment, total_amount, unspent_notes, CashNoteInfo,
    TransferOutcome,
};

fn note(value: u64, already_spent: bool) -> CashNoteInfo {
    CashNoteInfo { spend_address: vec![value as u8; 32], value, already_spent }
}

#[test]
fn insufficient_payment() {
    assert_eq!(
        check_sufficient(105, 100, 10),
        Err(PutError::PaymentProofInsufficientAmount { paid: 105, expected: 110 })
    );
    assert_eq!(check_sufficient(110, 100, 10), Ok(()));
    assert_eq!(check_sufficient(u64::MAX, u64::MAX, 1), Err(PutError::NumericOverflow));
}

#[test]
fn settle_uses_royalties_of_the_store_cost() {
    assert_eq!(settle_payment(false, true, 1000, 100), Err(PutError::NoNetworkRoyaltiesPayment));
    assert_eq!(settle_payment(true, false, 1000, 100), Err(PutError::InvalidQuote));
    assert_eq!(settle_payment(true, true, 1000, 100), Ok(()));
    // royalties on a store cost of 100 are 17 nanos
    assert_eq!(
        settle_payment(true, true, 116, 100),
        Err(PutError::PaymentProofInsufficientAmount { paid: 116, expected: 117 })
    );
    assert_eq!(settle_payment(true, true, 117, 100), Ok(()));
    // the royalties are at least one nano, so paying the bare store cost falls short
    match settle_payment(true, true, 100, 100) {
        Err(PutError::PaymentProofInsufficientAmount { paid, expected }) => {
            assert_eq!(paid, 100);
            assert!(expected > 100);
        }
        other => panic!("unexpected {:?}", other),
    }
}

#[test]
fn decoding_sums_royalties_and_our_notes() {
    let outcomes = vec![
        TransferOutcome::NotForUs,
        TransferOutcome::Royalties { redemptions: 1, values: vec![10] },
        TransferOutcome::RoyaltiesRejected,
        TransferOutcome::ForUs(vec![note(60, false), note(35, false)]),
    ];
    let d = decode_transfers(outcomes).unwrap();
    assert_eq!(d.received, 105);
    assert_eq!(d.notes.len(), 2);
    assert!(d.royalties_paid);
}

#[test]
fn decoding_without_notes_for_us_fails() {
    let outcomes = vec![TransferOutcome::NotForUs, TransferOutcome::Royalties { redemptions: 1, values: vec![3] }];
    assert!(matches!(decode_transfers(outcomes), Err(PutError::NoPaymentToOurNode)));
    assert!(matches!(decode_transfers(vec![]), Err(PutError::NoPaymentToOurNode)));
}

#[test]
fn decoding_stops_on_invalid_transfer() {
    let outcomes = vec![TransferOutcome::ForUs(vec![note(5, false)]), TransferOutcome::Invalid];
    assert!(matches!(decode_transfers(outcomes), Err(PutError::InvalidTransfer)));
}

#[test]
fn decoding_overflow_is_reported() {
    let outcomes = vec![
        TransferOutcome::Royalties { redemptions: 1, values: vec![u64::MAX] },
        TransferOutcome::ForUs(vec![note(1, false)]),
    ];
    assert!(matches!(decode_transfers(outcomes), Err(PutError::NumericOverflow)));
    assert_eq!(total_amount(&vec![u64::MAX, 1]), Err(PutError::NumericOverflow));
    assert_eq!(total_amount(&vec![2, 3]), Ok(5));
}

#[test]
fn royalties_without_redemptions_do_not_count() {
    let outcomes = vec![
        TransferOutcome::Royalties { redemptions: 0, values: vec![] },
        TransferOutcome::ForUs(vec![note(7, false)]),
    ];
    let d = decode_transfers(outcomes).unwrap();
    assert!(!d.royalties_paid);
    assert_eq!(d.received, 7);
}

#[test]
fn reused_payment_only_when_every_note_is_spent() {
    assert!(matches!(unspent_notes(vec![note(1, true), note(2, true)]), Err(PutError::ReusedPayment)));
    let kept = unspent_notes(vec![note(1, true), note(2, false)]).unwrap();
    assert_eq!(kept.len(), 1);
    assert_eq!(kept[0].value, 2);
}

//! Payment admission: what the transfers of a payment bring to this node,
//! which of the notes are fresh, and whether the store cost plus the network
//! royalties was paid. Decryption, signature checks and the wallet stay with
//! their owners; their answers come in as values.
use crate::error::PutError;
use crate::external::{add_tokens, royalties_fee, royalties_fee_of};
use vstd::prelude::*;

verus! {

/// A cash note that a transfer decoded for this node.
pub struct CashNoteInfo {
    /// The address at which the note's spend is recorded.
    pub spend_address: Vec<u8>,
    /// The note's value, in nanos.
    pub value: u64,
    /// Whether the wallet already holds a confirmed spend at that address.
    pub already_spent: bool,
}

/// What became of one transfer of a payment.
pub enum TransferOutcome {
    /// An encrypted transfer that this node could not decipher: not for us.
    NotForUs,
    /// An encrypted transfer for this node that failed verification.
    Invalid,
    /// An encrypted transfer for this node, with the notes it holds.
    ForUs(Vec<CashNoteInfo>),
    /// Network royalty redemptions that verified: how many there were, and
    /// the values of the notes they redeem.
    Royalties { redemptions: usize, values: Vec<u64> },
    /// Network royalty redemptions that failed verification; passed over.
    RoyaltiesRejected,
}

/// The sum of some token amounts, without bound.
pub open spec fn total(values: Seq<u64>) -> int
    decreases values.len(),
{
    if values.len() == 0 {
        0
    } else {
        total(values.drop_last()) + values.last()
    }
}

/// The values of some notes.
pub open spec fn note_values(notes: Seq<CashNoteInfo>) -> Seq<u64> {
    notes.map_values(|n: CashNoteInfo| n.value)
}

proof fn lemma_total_nonneg(values: Seq<u64>)
    ensures
        total(values) >= 0,
    decreases values.len(),
{
    if values.len() > 0 {
        lemma_total_nonneg(values.drop_last());
    }
}

/// Adds up token amounts with checked additions.
pub fn total_amount(values: &Vec<u64>) -> (r: Result<u64, PutError>)
    ensures
        total(values@) <= u64::MAX ==> r == Ok::<u64, PutError>(total(values@) as u64),
        total(values@) > u64::MAX ==> r == Err::<u64, PutError>(PutError::NumericOverflow),
{
    let mut sum: u64 = 0;
    let mut i: usize = 0;
    while i < values.len()
        invariant
            i <= values.len(),
            sum == total(values@.take(i as int)),
        decreases values.len() - i,
    {
        proof {
            assert(values@.take(i + 1).drop_last() =~= values@.take(i as int));
        }
        match add_tokens(sum, values[i]) {
            Some(s) => {
                sum = s;
            },
            None => {
                proof {
                    lemma_total_grows(values@, i as int + 1);
                }
                return Err(PutError::NumericOverflow);
            },
        }
        i = i + 1;
    }
    proof {
        assert(values@.take(values.len() as int) =~= values@);
    }
    Ok(sum)
}

/// A prefix never sums to more than the whole.
proof fn lemma_total_grows(values: Seq<u64>, n: int)
    requires
        0 <= n <= values.len(),
    ensures
        total(values.take(n)) <= total(values),
    decreases values.len(),
{
    if n < values.len() {
        assert(values.drop_last().take(n) =~= values.take(n));
        lemma_total_grows(values.drop_last(), n);
    } else {
        assert(values.take(n) =~= values);
    }
}

/// What the walk over a payment's transfers gathers.
pub struct Decoded {
    /// Everything received: royalties and the notes for this node.
    pub received: u64,
    /// The notes for this node.
    pub notes: Vec<CashNoteInfo>,
    /// Whether any royalty redemption verified.
    pub royalties_paid: bool,
}

/// The walk over the transfers, up to but not including the final tally of
/// the notes for this node: the royalties received, the notes, and the
/// whether any royalty redemption verified, or the first error.
pub open spec fn walk(outcomes: Seq<TransferOutcome>) -> Result<(int, Seq<CashNoteInfo>, bool), PutError>
    decreases outcomes.len(),
{
    if outcomes.len() == 0 {
        Ok((0, Seq::empty(), false))
    } else {
        match walk(outcomes.drop_last()) {
            Err(e) => Err(e),
            Ok((received, notes, redemptions)) => match outcomes.last() {
                TransferOutcome::Invalid => Err(PutError::InvalidTransfer),
                TransferOutcome::ForUs(found) => Ok((received, notes + found@, redemptions)),
                TransferOutcome::Royalties { redemptions: n, values } => {
                    if total(values@) > u64::MAX || received + total(values@) > u64::MAX {
                        Err(PutError::NumericOverflow)
                    } else {
                        Ok((received + total(values@), notes, redemptions || n > 0))
                    }
                },
                _ => Ok((received, notes, redemptions)),
            },
        }
    }
}

/// What decoding a payment's transfers gives.
pub open spec fn decode_spec(outcomes: Seq<TransferOutcome>) -> Result<(int, Seq<CashNoteInfo>, bool), PutError> {
    match walk(outcomes) {
        Err(e) => Err(e),
        Ok((received, notes, redemptions)) => {
            let ours = total(note_values(notes));
            if notes.len() == 0 {
                Err(PutError::NoPaymentToOurNode)
            } else if ours > u64::MAX || received + ours > u64::MAX {
                Err(PutError::NumericOverflow)
            } else {
                Ok((received + ours, notes, redemptions))
            }
        },
    }
}

/// Walks a payment's transfers in order. Transfers that are not for this
/// node and royalties that fail to verify are passed over; a transfer for
/// this node that fails verification, or an overflowing sum, ends the walk.
/// Fails when no note is for this node.
pub fn decode_transfers(outcomes: Vec<TransferOutcome>) -> (r: Result<Decoded, PutError>)
    ensures
        r is Ok ==> decode_spec(outcomes@) == Ok::<(int, Seq<CashNoteInfo>, bool), PutError>(
            (r->Ok_0.received as int, r->Ok_0.notes@, r->Ok_0.royalties_paid),
        ),
        r is Err ==> decode_spec(outcomes@) == Err::<(int, Seq<CashNoteInfo>, bool), PutError>(
            r->Err_0,
        ),
{
    let ghost all = outcomes@;
    let mut rest = outcomes;
    let mut received: u64 = 0;
    let mut notes: Vec<CashNoteInfo> = Vec::new();
    let mut redemptions: bool = false;
    let ghost mut i: int = 0;
    while rest.len() > 0
        invariant
            0 <= i <= all.len(),
            all == outcomes@,
            rest@ == all.skip(i),
            walk(all.take(i as int)) == Ok::<(int, Seq<CashNoteInfo>, bool), PutError>(
                (received as int, notes@, redemptions),
            ),
        decreases rest.len(),
    {
        proof {
            assert(all.take(i + 1).drop_last() =~= all.take(i as int));
            assert(all.take(i + 1).last() == all[i as int]);
            assert(all.skip(i as int)[0] == all[i as int]);
        }
        let outcome = rest.remove(0);
        proof {
            assert(rest@ =~= all.skip(i + 1));
        }
        match outcome {
            TransferOutcome::Invalid => {
                proof {
                    assert(walk(all.take(i + 1)) == Err::<(int, Seq<CashNoteInfo>, bool), PutError>(
                        PutError::InvalidTransfer,
                    ));
                    lemma_walk_error_sticks(all, i + 1);
                    assert(decode_spec(all) == Err::<(int, Seq<CashNoteInfo>, bool), PutError>(
                        PutError::InvalidTransfer,
                    ));
                }
                return Err(PutError::InvalidTransfer);
            },
            TransferOutcome::ForUs(found) => {
                let mut found = found;
                notes.append(&mut found);
            },
            TransferOutcome::Royalties { redemptions: n, values } => {
                proof {
                    lemma_total_nonneg(values@);
                }
                let royalties = match total_amount(&values) {
                    Ok(t) => t,
                    Err(e) => {
                        proof {
                            lemma_walk_error_sticks(all, i + 1);
                        }
                        return Err(e);
                    },
                };
                received = match add_tokens(received, royalties) {
                    Some(s) => s,
                    None => {
                        proof {
                            lemma_walk_error_sticks(all, i + 1);
                        }
                        return Err(PutError::NumericOverflow);
                    },
                };
                redemptions = redemptions || n > 0;
            },
            _ => {},
        }
        proof {
            i = i + 1;
        }
    }
    proof {
        assert(all.take(i as int) =~= all);
    }
    if notes.len() == 0 {
        return Err(PutError::NoPaymentToOurNode);
    }
    let mut values: Vec<u64> = Vec::new();
    let mut k: usize = 0;
    while k < notes.len()
        invariant
            k <= notes.len(),
            values@ == note_values(notes@).take(k as int),
        decreases notes.len() - k,
    {
        values.push(notes[k].value);
        proof {
            assert(values@ =~= note_values(notes@).take(k + 1));
        }
        k = k + 1;
    }
    proof {
        assert(values@ =~= note_values(notes@));
    }
    proof {
        lemma_total_nonneg(values@);
    }
    let ours = total_amount(&values)?;
    match add_tokens(received, ours) {
        Some(s) => Ok(Decoded { received: s, notes, royalties_paid: redemptions }),
        None => Err(PutError::NumericOverflow),
    }
}

/// Once the walk has failed on a prefix, it fails the same way on the whole.
proof fn lemma_walk_error_sticks(all: Seq<TransferOutcome>, n: int)
    requires
        0 <= n <= all.len(),
        walk(all.take(n)) is Err,
    ensures
        walk(all) == walk(all.take(n)),
    decreases all.len() - n,
{
    if n < all.len() {
        assert(all.take(n + 1).drop_last() =~= all.take(n));
        lemma_walk_error_sticks(all, n + 1);
    } else {
        assert(all.take(n) =~= all);
    }
}

/// The notes not yet spent, in their order.
pub open spec fn unspent(notes: Seq<CashNoteInfo>) -> Seq<CashNoteInfo>
    decreases notes.len(),
{
    if notes.len() == 0 {
        Seq::empty()
    } else if notes.last().already_spent {
        unspent(notes.drop_last())
    } else {
        unspent(notes.drop_last()).push(notes.last())
    }
}

proof fn lemma_unspent_empty(notes: Seq<CashNoteInfo>)
    ensures
        unspent(notes).len() == 0 <==> forall|i: int|
            0 <= i < notes.len() ==> #[trigger] notes[i].already_spent,
    decreases notes.len(),
{
    if notes.len() > 0 {
        lemma_unspent_empty(notes.drop_last());
        if forall|i: int| 0 <= i < notes.len() ==> #[trigger] notes[i].already_spent {
            assert forall|i: int| 0 <= i < notes.drop_last().len() implies #[trigger] notes.drop_last()[i].already_spent by {
                assert(notes[i].already_spent);
            }
        }
        if unspent(notes).len() == 0 {
            assert forall|i: int| 0 <= i < notes.len() implies #[trigger] notes[i].already_spent by {
                if i < notes.len() - 1 {
                    assert(notes.drop_last()[i].already_spent);
                }
            }
        }
    }
}

/// Drops the notes whose spend the wallet has already confirmed: a client
/// that retries may hand in notes that this node has spent since. Fails with
/// `ReusedPayment` exactly when every note was spent.
pub fn unspent_notes(notes: Vec<CashNoteInfo>) -> (r: Result<Vec<CashNoteInfo>, PutError>)
    ensures
        match r {
            Ok(kept) => kept@ == unspent(notes@) && kept.len() > 0,
            Err(e) => e == PutError::ReusedPayment && unspent(notes@).len() == 0,
        },
        r is Err <==> forall|i: int| 0 <= i < notes@.len() ==> #[trigger] notes@[i].already_spent,
{
    let ghost all = notes@;
    let mut rest = notes;
    let mut kept: Vec<CashNoteInfo> = Vec::new();
    let ghost mut i: int = 0;
    while rest.len() > 0
        invariant
            0 <= i <= all.len(),
            all == notes@,
            rest@ == all.skip(i),
            kept@ == unspent(all.take(i as int)),
        decreases rest.len(),
    {
        proof {
            assert(all.take(i + 1).drop_last() =~= all.take(i as int));
            assert(all.skip(i as int)[0] == all[i as int]);
        }
        let note = rest.remove(0);
        proof {
            assert(rest@ =~= all.skip(i + 1));
        }
        if !note.already_spent {
            kept.push(note);
        }
        proof {
            i = i + 1;
        }
    }
    proof {
        assert(all.take(i as int) =~= all);
        lemma_unspent_empty(all);
    }
    if kept.len() == 0 {
        Err(PutError::ReusedPayment)
    } else {
        Ok(kept)
    }
}

/// The sufficiency rule: the store cost plus the royalties must fit in 64
/// bits and must not exceed what was received.
pub open spec fn sufficiency_spec(received: u64, store_cost: u64, royalties: u64) -> Result<(), PutError> {
    if store_cost + royalties > u64::MAX {
        Err(PutError::NumericOverflow)
    } else if received < store_cost + royalties {
        Err(
            PutError::PaymentProofInsufficientAmount {
                paid: received,
                expected: (store_cost + royalties) as u64,
            },
        )
    } else {
        Ok(())
    }
}

/// Checks that `received` covers the store cost plus the given royalties.
pub fn check_sufficient(received: u64, store_cost: u64, royalties: u64) -> (r: Result<(), PutError>)
    ensures
        r == sufficiency_spec(received, store_cost, royalties),
{
    let expected = match add_tokens(store_cost, royalties) {
        Some(e) => e,
        None => {
            return Err(PutError::NumericOverflow);
        },
    };
    if received < expected {
        Err(PutError::PaymentProofInsufficientAmount { paid: received, expected })
    } else {
        Ok(())
    }
}

/// The checks that follow the deposit: royalties must have been paid, the
/// quote must verify, and the store cost plus its royalties must have been
/// received.
pub open spec fn settle_spec(royalties_paid: bool, quote_valid: bool, received: u64, store_cost: u64) -> Result<(), PutError> {
    if !royalties_paid {
        Err(PutError::NoNetworkRoyaltiesPayment)
    } else if !quote_valid {
        Err(PutError::InvalidQuote)
    } else {
        sufficiency_spec(received, store_cost, royalties_fee_of(store_cost))
    }
}

/// Settles a payment whose fresh notes are already deposited: money that
/// was sent is kept whatever this finds.
pub fn settle_payment(royalties_paid: bool, quote_valid: bool, received: u64, store_cost: u64) -> (r: Result<(), PutError>)
    ensures
        r == settle_spec(royalties_paid, quote_valid, received, store_cost),
{
    if !royalties_paid {
        return Err(PutError::NoNetworkRoyaltiesPayment);
    }
    if !quote_valid {
        return Err(PutError::InvalidQuote);
    }
    let royalties = royalties_fee(store_cost);
    check_sufficient(received, store_cost, royalties)
}

} // verus!

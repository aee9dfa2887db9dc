//! The errors that a put can end in.
use vstd::prelude::*;

verus! {

/// Why a put was refused. Collaborator failures (the network, the wallet,
/// signature checks) are carried as their own variants.
#[derive(Clone, Copy, Debug, PartialEq, Eq, Structural)]
pub enum PutError {
    /// The record's key is not the key derived from its payload's address.
    RecordKeyMismatch,
    /// A paid kind of record was needed on the client entry point.
    InvalidPutWithoutPayment,
    /// A record with a payment came in through replication.
    UnexpectedRecordWithPayment,
    /// None of the payment's transfers was for this node.
    NoPaymentToOurNode,
    /// Every incoming cash note had already been spent.
    ReusedPayment,
    /// The payment held no verified network royalties.
    NoNetworkRoyaltiesPayment,
    /// Less than the store cost plus royalties was received.
    PaymentProofInsufficientAmount { paid: u64, expected: u64 },
    /// A token amount overflowed.
    NumericOverflow,
    /// The spend payload was ill-formed or held no valid spend.
    InvalidRequest,
    /// The only spend kept has a parent that is itself double spent.
    InvalidParentSpend,
    /// A verification task did not complete.
    JoinErrorInAsyncThread,
    /// The record's header could not be read.
    RecordHeaderParsingFailed,
    /// The record held at the key is of another kind.
    RecordKindMismatch,
    /// A transfer for this node failed verification.
    InvalidTransfer,
    /// A cash note's value could not be read.
    InvalidCashNote,
    /// The store quote did not verify.
    InvalidQuote,
    /// The register's signatures or merge did not verify.
    InvalidRegister,
    /// The network or the local store failed.
    Network,
    /// The wallet failed to load or store.
    Wallet,
}

} // verus!

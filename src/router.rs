//! The put router: which validations a put goes through, by kind and by
//! entry point, and what it ends with — whether the local store is written,
//! whether outbound replication is asked for, and what the caller is told.
use crate::error::PutError;
use crate::external::{content_name, xor_name_of};
use crate::record::{canonical_key, framed, is_paid_kind, serialize_record, RecordKind, StoredRecord};
use crate::register::RegisterState;
use vstd::prelude::*;

verus! {

/// What outbound replication is keyed by.
pub enum ReplicationKind {
    /// A chunk, whose key is its content's name.
    Chunk,
    /// Any other record, with the XOR name of its stored value.
    NonChunk(Vec<u8>),
}

/// How a put ends.
pub struct PutOutcome {
    /// Whether the record is written to the local store.
    pub write: bool,
    /// Whether outbound replication is asked for.
    pub replicate: bool,
    /// Whether the replication fetcher is told once more, at the end, that
    /// the fetch completed (every client put tells it on arrival).
    pub notify: bool,
    /// What the caller is told.
    pub result: Result<(), PutError>,
}

/// The pipelines of the client entry point.
#[derive(Clone, Copy, Debug, PartialEq, Eq, Structural)]
pub enum ClientRoute {
    PaidChunk,
    Spend,
    UnpaidRegister,
    PaidRegister,
}

/// The pipelines of the replication entry point.
#[derive(Clone, Copy, Debug, PartialEq, Eq, Structural)]
pub enum ReplicatedRoute {
    Chunk,
    Spend,
    Register,
}

/// Routes a client put by kind. A chunk must come with its payment.
pub fn client_route(kind: RecordKind) -> (r: Result<ClientRoute, PutError>)
    ensures
        kind == RecordKind::ChunkWithPayment ==> r == Ok::<ClientRoute, PutError>(
            ClientRoute::PaidChunk,
        ),
        kind == RecordKind::Chunk ==> r == Err::<ClientRoute, PutError>(
            PutError::InvalidPutWithoutPayment,
        ),
        kind == RecordKind::Spend ==> r == Ok::<ClientRoute, PutError>(ClientRoute::Spend),
        kind == RecordKind::Register ==> r == Ok::<ClientRoute, PutError>(
            ClientRoute::UnpaidRegister,
        ),
        kind == RecordKind::RegisterWithPayment ==> r == Ok::<ClientRoute, PutError>(
            ClientRoute::PaidRegister,
        ),
{
    match kind {
        RecordKind::ChunkWithPayment => Ok(ClientRoute::PaidChunk),
        RecordKind::Chunk => Err(PutError::InvalidPutWithoutPayment),
        RecordKind::Spend => Ok(ClientRoute::Spend),
        RecordKind::Register => Ok(ClientRoute::UnpaidRegister),
        RecordKind::RegisterWithPayment => Ok(ClientRoute::PaidRegister),
    }
}

/// Routes a replicated put by kind. Replicated records never carry a payment.
pub fn replicated_route(kind: RecordKind) -> (r: Result<ReplicatedRoute, PutError>)
    ensures
        is_paid_kind(kind) ==> r == Err::<ReplicatedRoute, PutError>(
            PutError::UnexpectedRecordWithPayment,
        ),
        kind == RecordKind::Chunk ==> r == Ok::<ReplicatedRoute, PutError>(ReplicatedRoute::Chunk),
        kind == RecordKind::Spend ==> r == Ok::<ReplicatedRoute, PutError>(ReplicatedRoute::Spend),
        kind == RecordKind::Register ==> r == Ok::<ReplicatedRoute, PutError>(
            ReplicatedRoute::Register,
        ),
{
    match kind {
        RecordKind::ChunkWithPayment | RecordKind::RegisterWithPayment => Err(
            PutError::UnexpectedRecordWithPayment,
        ),
        RecordKind::Chunk => Ok(ReplicatedRoute::Chunk),
        RecordKind::Spend => Ok(ReplicatedRoute::Spend),
        RecordKind::Register => Ok(ReplicatedRoute::Register),
    }
}

/// How a paid chunk put ends, once its key has been checked and its payment
/// processed. The payment is kept whatever happens next. A chunk that is
/// already held is not rewritten, and its replication is retried; otherwise
/// a payment error is reported, and a good payment stores the chunk.
pub fn paid_chunk_outcome(already_exists: bool, payment: Result<(), PutError>) -> (r: PutOutcome)
    ensures
        !r.notify,
        already_exists ==> !r.write && r.replicate && r.result is Ok,
        !already_exists ==> r.result == payment && r.write == (payment is Ok) && r.replicate == (
        payment is Ok),
{
    if already_exists {
        return PutOutcome { write: false, replicate: true, notify: false, result: Ok(()) };
    }
    let paid = payment.is_ok();
    PutOutcome { write: paid, replicate: paid, notify: false, result: payment }
}

/// How a replicated chunk put ends once its key has been checked: stored
/// when absent, left alone when present, never replicated onwards.
pub fn replicated_chunk_outcome(already_exists: bool) -> (r: PutOutcome)
    ensures
        r.write == !already_exists,
        !r.replicate,
        !r.notify,
        r.result is Ok,
{
    PutOutcome { write: !already_exists, replicate: false, notify: false, result: Ok(()) }
}

/// Whether a register put without payment may go on: only as an edit of a
/// register already held.
pub fn unpaid_register_admission(already_exists: bool) -> (r: Result<(), PutError>)
    ensures
        already_exists ==> r is Ok,
        !already_exists ==> r == Err::<(), PutError>(PutError::InvalidPutWithoutPayment),
{
    if already_exists {
        Ok(())
    } else {
        Err(PutError::InvalidPutWithoutPayment)
    }
}

/// Whether a paid register put may go on after its payment was processed.
/// For a register already held, the put is an edit and a payment error is
/// passed over; for a new one it is reported.
pub fn paid_register_admission(already_exists: bool, payment: Result<(), PutError>) -> (r: Result<
    (),
    PutError,
>)
    ensures
        already_exists ==> r is Ok,
        !already_exists ==> r == payment,
{
    if already_exists {
        Ok(())
    } else {
        payment
    }
}

/// How a register put ends after validation. Where the merge changed
/// nothing, the store is not written and nothing is replicated, but the
/// fetcher is still told. A new value is written, and replicated onwards
/// only on the paid path.
pub fn register_outcome(
    validated: &Result<Option<RegisterState>, PutError>,
    with_payment: bool,
) -> (r: PutOutcome)
    ensures
        match validated {
            Ok(None) => !r.write && !r.replicate && r.notify && r.result is Ok,
            Ok(Some(_)) => r.write && r.replicate == with_payment && !r.notify && r.result is Ok,
            Err(e) => !r.write && !r.replicate && !r.notify && r.result == Err::<(), PutError>(
                *e,
            ),
        },
{
    match validated {
        Ok(None) => PutOutcome { write: false, replicate: false, notify: true, result: Ok(()) },
        Ok(Some(_)) => PutOutcome {
            write: true,
            replicate: with_payment,
            notify: false,
            result: Ok(()),
        },
        Err(e) => PutOutcome { write: false, replicate: false, notify: false, result: Err(*e) },
    }
}

/// How a spend put ends after the merge: the kept spends are written, and
/// replicated onwards when they came from a client.
pub fn spend_outcome(merged: &Result<Vec<Vec<u8>>, PutError>, from_put: bool) -> (r: PutOutcome)
    ensures
        match merged {
            Ok(_) => r.write && r.replicate == from_put && r.result is Ok,
            Err(e) => !r.write && !r.replicate && r.result == Err::<(), PutError>(*e),
        },
        !r.notify,
{
    match merged {
        Ok(_) => PutOutcome { write: true, replicate: from_put, notify: false, result: Ok(()) },
        Err(e) => PutOutcome { write: false, replicate: false, notify: false, result: Err(*e) },
    }
}

/// The replication key of a non-chunk record: the XOR name of its value.
pub fn non_chunk_replication(value: &Vec<u8>) -> (r: ReplicationKind)
    ensures
        r matches ReplicationKind::NonChunk(h) && h@ == xor_name_of(value@),
{
    ReplicationKind::NonChunk(content_name(value))
}

/// The record that stores a register value: keyed by the register's address.
pub fn register_record(register: &RegisterState, encoded: &Vec<u8>) -> (r: StoredRecord)
    ensures
        r.key@ == canonical_key(register.address@),
        r.value@ == framed(encoded@, RecordKind::Register),
{
    let key = register.address.clone();
    proof {
        assert(key@ =~= register.address@);
    }
    StoredRecord { key, value: serialize_record(encoded, RecordKind::Register) }
}

/// The record that stores the kept spends under the put's key.
pub fn spend_record(record_key: &Vec<u8>, encoded: &Vec<u8>) -> (r: StoredRecord)
    ensures
        r.key@ == record_key@,
        r.value@ == framed(encoded@, RecordKind::Spend),
{
    let key = record_key.clone();
    proof {
        assert(key@ =~= record_key@);
    }
    StoredRecord { key, value: serialize_record(encoded, RecordKind::Spend) }
}

} // verus!

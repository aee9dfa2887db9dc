//! Record framing: a record's value is a header naming its kind, followed by
//! the payload's encoding. The header is a one-element MessagePack array
//! holding the kind's index.
use crate::error::PutError;
use crate::external::{content_name, xor_name_of};
use vstd::prelude::*;

verus! {

/// The kinds of record a node stores.
#[derive(Clone, Copy, Debug, PartialEq, Eq, Structural)]
pub enum RecordKind {
    Chunk,
    ChunkWithPayment,
    Register,
    RegisterWithPayment,
    Spend,
}

/// The first header byte: a MessagePack array of one element.
pub const HEADER_TAG: u8 = 0x91;

/// The length of a record header.
pub const HEADER_SIZE: usize = 2;

pub open spec fn kind_index(kind: RecordKind) -> u8 {
    match kind {
        RecordKind::Chunk => 0,
        RecordKind::ChunkWithPayment => 1,
        RecordKind::Register => 2,
        RecordKind::RegisterWithPayment => 3,
        RecordKind::Spend => 4,
    }
}

pub open spec fn kind_of_index(index: u8) -> Option<RecordKind> {
    if index == 0 {
        Some(RecordKind::Chunk)
    } else if index == 1 {
        Some(RecordKind::ChunkWithPayment)
    } else if index == 2 {
        Some(RecordKind::Register)
    } else if index == 3 {
        Some(RecordKind::RegisterWithPayment)
    } else if index == 4 {
        Some(RecordKind::Spend)
    } else {
        None
    }
}

/// Whether a kind carries a payment beside its payload.
pub open spec fn is_paid_kind(kind: RecordKind) -> bool {
    kind == RecordKind::ChunkWithPayment || kind == RecordKind::RegisterWithPayment
}

/// The value that frames `payload` as a record of `kind`.
pub open spec fn framed(payload: Seq<u8>, kind: RecordKind) -> Seq<u8> {
    seq![HEADER_TAG, kind_index(kind)] + payload
}

/// The kind and payload that a value frames, if it is well-formed.
pub open spec fn unframed(value: Seq<u8>) -> Result<(RecordKind, Seq<u8>), PutError> {
    if value.len() < HEADER_SIZE || value[0] != HEADER_TAG {
        Err(PutError::RecordHeaderParsingFailed)
    } else {
        match kind_of_index(value[1]) {
            Some(kind) => Ok((kind, value.skip(HEADER_SIZE as int))),
            None => Err(PutError::RecordHeaderParsingFailed),
        }
    }
}

/// The index under which a kind is written in the header.
pub fn record_kind_index(kind: RecordKind) -> (r: u8)
    ensures
        r == kind_index(kind),
{
    match kind {
        RecordKind::Chunk => 0,
        RecordKind::ChunkWithPayment => 1,
        RecordKind::Register => 2,
        RecordKind::RegisterWithPayment => 3,
        RecordKind::Spend => 4,
    }
}

/// Frames a payload as a record of the given kind.
pub fn serialize_record(payload: &Vec<u8>, kind: RecordKind) -> (r: Vec<u8>)
    ensures
        r@ == framed(payload@, kind),
{
    let mut value: Vec<u8> = Vec::new();
    value.push(HEADER_TAG);
    value.push(record_kind_index(kind));
    let mut i: usize = 0;
    while i < payload.len()
        invariant
            i <= payload.len(),
            value@ == seq![HEADER_TAG, kind_index(kind)] + payload@.take(i as int),
        decreases payload.len() - i,
    {
        value.push(payload[i]);
        proof {
            assert(payload@.take(i + 1) =~= payload@.take(i as int).push(payload@[i as int]));
        }
        i = i + 1;
    }
    proof {
        assert(payload@.take(payload.len() as int) =~= payload@);
    }
    value
}

/// Reads the kind from a record's header.
pub fn record_kind(value: &Vec<u8>) -> (r: Result<RecordKind, PutError>)
    ensures
        match unframed(value@) {
            Ok((kind, _)) => r == Ok::<RecordKind, PutError>(kind),
            Err(e) => r == Err::<RecordKind, PutError>(e),
        },
{
    if value.len() < HEADER_SIZE || value[0] != HEADER_TAG {
        return Err(PutError::RecordHeaderParsingFailed);
    }
    let index = value[1];
    if index == 0 {
        Ok(RecordKind::Chunk)
    } else if index == 1 {
        Ok(RecordKind::ChunkWithPayment)
    } else if index == 2 {
        Ok(RecordKind::Register)
    } else if index == 3 {
        Ok(RecordKind::RegisterWithPayment)
    } else if index == 4 {
        Ok(RecordKind::Spend)
    } else {
        Err(PutError::RecordHeaderParsingFailed)
    }
}

/// Splits a record's value into its kind and its payload.
pub fn deserialize_record(value: &Vec<u8>) -> (r: Result<(RecordKind, Vec<u8>), PutError>)
    ensures
        match unframed(value@) {
            Ok((kind, payload)) => r is Ok && r->Ok_0.0 == kind && r->Ok_0.1@ == payload,
            Err(e) => r == Err::<(RecordKind, Vec<u8>), PutError>(e),
        },
{
    let kind = record_kind(value)?;
    let mut payload: Vec<u8> = Vec::new();
    let mut i: usize = HEADER_SIZE;
    while i < value.len()
        invariant
            HEADER_SIZE <= i <= value.len(),
            payload@ == value@.subrange(HEADER_SIZE as int, i as int),
        decreases value.len() - i,
    {
        payload.push(value[i]);
        proof {
            assert(value@.subrange(HEADER_SIZE as int, i + 1) =~= value@.subrange(
                HEADER_SIZE as int,
                i as int,
            ).push(value@[i as int]));
        }
        i = i + 1;
    }
    proof {
        assert(payload@ =~= value@.skip(HEADER_SIZE as int));
    }
    Ok((kind, payload))
}

/// Reading back a framed payload gives the kind and the payload it was
/// framed with.
pub proof fn lemma_frame_round_trip(payload: Seq<u8>, kind: RecordKind)
    ensures
        unframed(framed(payload, kind)) == Ok::<(RecordKind, Seq<u8>), PutError>((kind, payload)),
{
    let v = framed(payload, kind);
    assert(v[0] == HEADER_TAG);
    assert(v[1] == kind_index(kind));
    assert(v.skip(HEADER_SIZE as int) =~= payload);
}

/// The key of a record whose payload has the given address: the address's
/// XOR name, as it stands.
pub open spec fn canonical_key(address: Seq<u8>) -> Seq<u8> {
    address
}

/// The address of a chunk: the XOR name of its content.
pub open spec fn chunk_address(content: Seq<u8>) -> Seq<u8> {
    xor_name_of(content)
}

/// Computes the address of a chunk.
pub fn chunk_address_of(content: &Vec<u8>) -> (r: Vec<u8>)
    ensures
        r@ == chunk_address(content@),
{
    content_name(content)
}

/// Checks that a put's key is the key derived from its payload's address.
pub fn validate_key(address: &Vec<u8>, expected_key: &Vec<u8>) -> (r: Result<(), PutError>)
    ensures
        r is Ok <==> canonical_key(address@) == expected_key@,
        r is Err ==> r == Err::<(), PutError>(PutError::RecordKeyMismatch),
{
    if address.len() != expected_key.len() {
        return Err(PutError::RecordKeyMismatch);
    }
    let mut i: usize = 0;
    while i < address.len()
        invariant
            i <= address.len(),
            address.len() == expected_key.len(),
            address@.take(i as int) == expected_key@.take(i as int),
        decreases address.len() - i,
    {
        if address[i] != expected_key[i] {
            return Err(PutError::RecordKeyMismatch);
        }
        proof {
            assert(address@.take(i + 1) =~= address@.take(i as int).push(address@[i as int]));
            assert(expected_key@.take(i + 1) =~= expected_key@.take(i as int).push(
                expected_key@[i as int],
            ));
        }
        i = i + 1;
    }
    proof {
        assert(address@ =~= address@.take(i as int));
        assert(expected_key@ =~= expected_key@.take(i as int));
    }
    Ok(())
}

/// A record ready for the local store.
pub struct StoredRecord {
    pub key: Vec<u8>,
    pub value: Vec<u8>,
}

/// The record that stores a chunk: keyed by the chunk's address.
pub fn chunk_record(content: &Vec<u8>) -> (r: StoredRecord)
    ensures
        r.key@ == canonical_key(chunk_address(content@)),
        r.value@ == framed(content@, RecordKind::Chunk),
{
    StoredRecord { key: chunk_address_of(content), value: serialize_record(content, RecordKind::Chunk) }
}

} // verus!

//! The calls into outside crates that the decisions rely on.
use vstd::prelude::*;

verus! {

/// The 32-byte XOR name of some content.
pub uninterp spec fn xor_name_of(content: Seq<u8>) -> Seq<u8>;

/// Relies on xor_name::XorName::from_content: the content's SHA3-256 digest,
/// which depends on the bytes alone and is 32 bytes long.
#[verifier::external_body]
pub(crate) fn content_name(content: &Vec<u8>) -> (r: Vec<u8>)
    ensures
        r@ == xor_name_of(content@),
        r@.len() == 32,
{
    xor_name::XorName::from_content(content).0.to_vec()
}

/// The network royalties owed on a store cost.
pub uninterp spec fn royalties_fee_of(store_cost: u64) -> u64;

/// Relies on sn_transfers::calculate_royalties_fee: a share of the store cost
/// that depends on the cost alone and is never below one nano.
#[verifier::external_body]
pub(crate) fn royalties_fee(store_cost: u64) -> (r: u64)
    ensures
        r == royalties_fee_of(store_cost),
        r >= 1,
{
    sn_transfers::calculate_royalties_fee(sn_transfers::NanoTokens::from(store_cost)).as_nano()
}

/// Relies on sn_transfers::NanoTokens::checked_add: the sum, or `None` when it
/// does not fit in 64 bits.
#[verifier::external_body]
pub(crate) fn add_tokens(a: u64, b: u64) -> (r: Option<u64>)
    ensures
        a + b <= u64::MAX ==> r == Some((a + b) as u64),
        a + b > u64::MAX ==> r is None,
{
    let sum = sn_transfers::NanoTokens::from(a).checked_add(sn_transfers::NanoTokens::from(b));
    sum.map(sn_transfers::NanoTokens::as_nano)
}

} // verus!

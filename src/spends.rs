//! Validation and merging of spend records. A spend is held by its identity:
//! the compressed unique public key of the coin it consumes, followed by the
//! owner's signature. Spends are ordered by that identity, so a stored set
//! does not depend on the order in which verifications complete.
use crate::error::PutError;
use crate::external::{content_name, xor_name_of};
use crate::record::{deserialize_record, unframed, RecordKind};
use crate::order::{
    compare_bytes, insert_sorted, is_sorted_listing, lemma_push_to_set, lemma_sorted_listing_unique,
    strictly_sorted, views,
};
use vstd::prelude::*;

verus! {

/// Length of a compressed unique public key.
pub const PUBKEY_LEN: usize = 48;

/// Most spends a record may reach through client puts.
pub const MAX_SPENDS_FROM_PUTS: usize = 15;

/// Most spends a stored record holds.
pub const MAX_SPENDS_PER_RECORD: usize = 30;

/// The unique public key at the head of a spend's identity.
pub open spec fn spend_pubkey(spend: Seq<u8>) -> Seq<u8> {
    if spend.len() >= PUBKEY_LEN {
        spend.take(PUBKEY_LEN as int)
    } else {
        spend
    }
}

/// The record key under which a spend is stored: the XOR name of its unique
/// public key.
pub open spec fn spend_record_key(spend: Seq<u8>) -> Seq<u8> {
    xor_name_of(spend_pubkey(spend))
}

/// Computes the record key under which a spend is stored.
pub fn spend_record_key_of(spend: &Vec<u8>) -> (r: Vec<u8>)
    ensures
        r@ == spend_record_key(spend@),
{
    let n: usize = if spend.len() >= PUBKEY_LEN {
        PUBKEY_LEN
    } else {
        spend.len()
    };
    let mut pk: Vec<u8> = Vec::new();
    let mut i: usize = 0;
    while i < n
        invariant
            n <= spend.len(),
            n == (if spend.len() >= PUBKEY_LEN {
                PUBKEY_LEN
            } else {
                spend.len()
            }),
            i <= n,
            pk@ == spend@.take(i as int),
        decreases n - i,
    {
        pk.push(spend[i]);
        proof {
            assert(spend@.take(i + 1) =~= spend@.take(i as int).push(spend@[i as int]));
        }
        i = i + 1;
    }
    proof {
        if spend.len() < PUBKEY_LEN {
            assert(spend@.take(n as int) =~= spend@);
        }
    }
    content_name(&pk)
}

/// The spends whose key, given at the same index of `keys`, is `key`, in
/// their order.
pub open spec fn select_by_key(spends: Seq<Seq<u8>>, keys: Seq<Seq<u8>>, key: Seq<u8>) -> Seq<
    Seq<u8>,
>
    decreases spends.len(),
{
    if spends.len() == 0 {
        Seq::empty()
    } else {
        let rest = select_by_key(spends.drop_last(), keys.drop_last(), key);
        if keys[spends.len() - 1] == key {
            rest.push(spends.last())
        } else {
            rest
        }
    }
}

/// The record key of each spend.
pub open spec fn spend_keys(spends: Seq<Seq<u8>>) -> Seq<Seq<u8>> {
    spends.map_values(|s: Seq<u8>| spend_record_key(s))
}

/// Copies a byte string.
fn copy_bytes(x: &Vec<u8>) -> (r: Vec<u8>)
    ensures
        r@ == x@,
{
    let r = x.clone();
    proof {
        assert(r@ =~= x@);
    }
    r
}

/// Keeps the spends whose key, given beside them, is `record_key`; fails
/// when none is.
pub fn keep_spends_under_key(spends: &Vec<Vec<u8>>, keys: &Vec<Vec<u8>>, record_key: &Vec<u8>) -> (r:
    Result<Vec<Vec<u8>>, PutError>)
    requires
        spends.len() == keys.len(),
    ensures
        match r {
            Ok(kept) => views(kept@) == select_by_key(views(spends@), views(keys@), record_key@)
                && kept.len() > 0,
            Err(e) => e == PutError::InvalidRequest && select_by_key(
                views(spends@),
                views(keys@),
                record_key@,
            ).len() == 0,
        },
{
    let mut kept: Vec<Vec<u8>> = Vec::new();
    let mut i: usize = 0;
    while i < spends.len()
        invariant
            i <= spends.len(),
            spends.len() == keys.len(),
            views(kept@) == select_by_key(
                views(spends@).take(i as int),
                views(keys@).take(i as int),
                record_key@,
            ),
        decreases spends.len() - i,
    {
        proof {
            assert(views(spends@).take(i + 1).drop_last() =~= views(spends@).take(i as int));
            assert(views(keys@).take(i + 1).drop_last() =~= views(keys@).take(i as int));
            assert(views(keys@).take(i + 1)[i as int] == keys@[i as int]@);
        }
        if compare_bytes(&keys[i], record_key) == 0 {
            let c = copy_bytes(&spends[i]);
            let ghost prev = kept@;
            kept.push(c);
            proof {
                assert(views(kept@) =~= views(prev).push(spends@[i as int]@));
            }
        }
        i = i + 1;
    }
    proof {
        assert(views(spends@).take(spends.len() as int) =~= views(spends@));
        assert(views(keys@).take(keys.len() as int) =~= views(keys@));
    }
    if kept.len() == 0 {
        Err(PutError::InvalidRequest)
    } else {
        Ok(kept)
    }
}

/// Keeps the incoming spends that belong under `record_key`; fails when none
/// does.
pub fn spends_for_key(spends: &Vec<Vec<u8>>, record_key: &Vec<u8>) -> (r: Result<
    Vec<Vec<u8>>,
    PutError,
>)
    ensures
        match r {
            Ok(kept) => views(kept@) == select_by_key(
                views(spends@),
                spend_keys(views(spends@)),
                record_key@,
            ) && kept.len() > 0,
            Err(e) => e == PutError::InvalidRequest && select_by_key(
                views(spends@),
                spend_keys(views(spends@)),
                record_key@,
            ).len() == 0,
        },
{
    let mut keys: Vec<Vec<u8>> = Vec::new();
    let mut i: usize = 0;
    while i < spends.len()
        invariant
            i <= spends.len(),
            views(keys@) == spend_keys(views(spends@)).take(i as int),
        decreases spends.len() - i,
    {
        let k = spend_record_key_of(&spends[i]);
        let ghost prev = keys@;
        keys.push(k);
        proof {
            assert(views(keys@) =~= views(prev).push(k@));
            assert(views(spends@)[i as int] == spends@[i as int]@);
            assert(spend_keys(views(spends@))[i as int] == spend_record_key(views(spends@)[i as int]));
            assert(views(keys@) =~= spend_keys(views(spends@)).take(i + 1));
        }
        i = i + 1;
    }
    proof {
        assert(views(keys@) =~= spend_keys(views(spends@)));
    }
    keep_spends_under_key(spends, &keys, record_key)
}

/// The encoded spends of the local record at a spend's key: none where no
/// record is held, and an error where the record held is of another kind.
pub fn local_spend_payload(value: &Option<Vec<u8>>) -> (r: Result<Option<Vec<u8>>, PutError>)
    ensures
        match value {
            None => r == Ok::<Option<Vec<u8>>, PutError>(None),
            Some(v) => match unframed(v@) {
                Err(e) => r == Err::<Option<Vec<u8>>, PutError>(e),
                Ok((kind, payload)) => if kind == RecordKind::Spend {
                    r is Ok && r->Ok_0 is Some && r->Ok_0->Some_0@ == payload
                } else {
                    r == Err::<Option<Vec<u8>>, PutError>(PutError::RecordKindMismatch)
                },
            },
        },
{
    match value {
        None => Ok(None),
        Some(v) => {
            let (kind, payload) = deserialize_record(v)?;
            if kind == RecordKind::Spend {
                Ok(Some(payload))
            } else {
                Err(PutError::RecordKindMismatch)
            }
        },
    }
}

/// Whether the local record is already too full to take more spends from a
/// client put: it holds the most that puts may bring, or its encoding takes
/// half of the network's largest packet and it already holds double-spend
/// evidence.
pub open spec fn put_limit_reached_spec(local_count: nat, local_size: nat, max_packet_size: nat) -> bool {
    local_count >= MAX_SPENDS_FROM_PUTS || (local_size >= max_packet_size / 2 && local_count > 1)
}

/// Whether a put should leave the local spends as they are, without asking
/// the network. Replication never stops here.
pub fn skip_put_on_full_record(
    local_count: usize,
    local_size: usize,
    max_packet_size: usize,
    from_put: bool,
) -> (r: bool)
    ensures
        r == (from_put && put_limit_reached_spec(
            local_count as nat,
            local_size as nat,
            max_packet_size as nat,
        )),
{
    let len_full = local_count >= MAX_SPENDS_FROM_PUTS;
    let size_full = local_size >= max_packet_size / 2 && local_count > 1;
    from_put && (len_full || size_full)
}

/// What the network answered when asked for the spends at an address.
pub enum NetworkSpends {
    /// The record, with its spends.
    Found(Vec<Vec<u8>>),
    /// No copy of the record exists.
    NotFound,
    /// Copies disagree; each copy's spends, or `None` where it was malformed.
    Split(Vec<Option<Vec<Vec<u8>>>>),
    /// Too few copies came back; the one record's spends, or `None` where it
    /// was malformed.
    NotEnoughCopies(Option<Vec<Vec<u8>>>),
    /// Any other failure.
    Failed,
}

/// The spends of every well-formed copy, copy after copy.
pub open spec fn decoded_spends(copies: Seq<Option<Vec<Vec<u8>>>>) -> Seq<Seq<u8>>
    decreases copies.len(),
{
    if copies.len() == 0 {
        Seq::empty()
    } else {
        let rest = decoded_spends(copies.drop_last());
        match copies.last() {
            Some(s) => rest + views(s@),
            None => rest,
        }
    }
}

/// The spends to take from the network's answer: none where it failed.
pub open spec fn network_spends_view(answer: NetworkSpends) -> Seq<Seq<u8>> {
    match answer {
        NetworkSpends::Found(s) => views(s@),
        NetworkSpends::Split(copies) => decoded_spends(copies@),
        NetworkSpends::NotEnoughCopies(Some(s)) => views(s@),
        _ => Seq::empty(),
    }
}

/// Appends copies of the spends of `src` to `dst`.
fn append_spends(dst: &mut Vec<Vec<u8>>, src: &Vec<Vec<u8>>)
    ensures
        views(final(dst)@) == views(old(dst)@) + views(src@),
{
    let ghost start = views(dst@);
    let mut i: usize = 0;
    while i < src.len()
        invariant
            i <= src.len(),
            views(dst@) == start + views(src@).take(i as int),
        decreases src.len() - i,
    {
        let c = copy_bytes(&src[i]);
        let ghost prev = dst@;
        dst.push(c);
        proof {
            assert(views(dst@) =~= views(prev).push(src@[i as int]@));
            assert(views(src@).take(i + 1) =~= views(src@).take(i as int).push(src@[i as int]@));
            assert(views(dst@) =~= start + views(src@).take(i + 1));
        }
        i = i + 1;
    }
    proof {
        assert(views(src@).take(src.len() as int) =~= views(src@));
    }
}

/// The spends to verify from the network's answer. A missing, failed or
/// malformed answer gives none; a split answer gives the spends of every
/// well-formed copy.
pub fn network_spends(answer: &NetworkSpends) -> (r: Vec<Vec<u8>>)
    ensures
        views(r@) == network_spends_view(*answer),
{
    let mut r: Vec<Vec<u8>> = Vec::new();
    proof {
        assert(views(r@) =~= Seq::<Seq<u8>>::empty());
    }
    match answer {
        NetworkSpends::Found(s) => {
            append_spends(&mut r, s);
            proof {
                assert(views(r@) =~= views(s@));
            }
        },
        NetworkSpends::Split(copies) => {
            let mut i: usize = 0;
            while i < copies.len()
                invariant
                    i <= copies.len(),
                    views(r@) == decoded_spends(copies@.take(i as int)),
                decreases copies.len() - i,
            {
                proof {
                    assert(copies@.take(i + 1).drop_last() =~= copies@.take(i as int));
                }
                match &copies[i] {
                    Some(s) => {
                        append_spends(&mut r, s);
                    },
                    None => {},
                }
                i = i + 1;
            }
            proof {
                assert(copies@.take(copies.len() as int) =~= copies@);
            }
        },
        NetworkSpends::NotEnoughCopies(Some(s)) => {
            append_spends(&mut r, s);
            proof {
                assert(views(r@) =~= views(s@));
            }
        },
        _ => {
            proof {
                assert(views(r@) =~= Seq::<Seq<u8>>::empty());
            }
        },
    }
    r
}

/// The outcome of verifying one candidate spend.
#[derive(Clone, Copy, Debug, PartialEq, Eq, Structural)]
pub enum Verification {
    /// The spend is valid.
    Valid,
    /// The spend is valid, but its parent is itself double spent.
    ParentDoubleSpend,
    /// The spend did not verify and is dropped.
    Invalid,
    /// The verification task failed to complete.
    TaskFailed,
}

/// Whether a verified spend joins the set.
pub open spec fn accepted(v: Verification) -> bool {
    v == Verification::Valid || v == Verification::ParentDoubleSpend
}

/// The spends to keep before the cap: the local ones, which are trusted, and
/// every candidate that verified.
pub open spec fn candidate_set(local: Seq<Seq<u8>>, checked: Seq<(Vec<u8>, Verification)>) -> Set<
    Seq<u8>,
> {
    Set::new(
        |x: Seq<u8>|
            local.contains(x) || exists|i: int|
                0 <= i < checked.len() && accepted(#[trigger] checked[i].1) && checked[i].0@ == x,
    )
}

/// The candidate set in spend order.
pub open spec fn candidate_listing(local: Seq<Seq<u8>>, checked: Seq<(Vec<u8>, Verification)>) -> Seq<
    Seq<u8>,
> {
    choose|q: Seq<Seq<u8>>| is_sorted_listing(q, candidate_set(local, checked))
}

pub open spec fn some_task_failed(checked: Seq<(Vec<u8>, Verification)>) -> bool {
    exists|i: int| 0 <= i < checked.len() && #[trigger] checked[i].1 == Verification::TaskFailed
}

pub open spec fn some_parent_double_spent(checked: Seq<(Vec<u8>, Verification)>) -> bool {
    exists|i: int|
        0 <= i < checked.len() && #[trigger] checked[i].1 == Verification::ParentDoubleSpend
}

/// The number of spends a stored record keeps out of `n` candidates.
pub open spec fn capped(n: nat) -> nat {
    if n > MAX_SPENDS_PER_RECORD {
        MAX_SPENDS_PER_RECORD as nat
    } else {
        n
    }
}

/// Every spend of `spends` is stored under `key`.
pub open spec fn all_keyed(spends: Seq<Seq<u8>>, key: Seq<u8>) -> bool {
    forall|i: int| 0 <= i < spends.len() ==> spend_record_key(#[trigger] spends[i]) == key
}

/// Every candidate spend is stored under `key`.
pub open spec fn candidates_keyed(checked: Seq<(Vec<u8>, Verification)>, key: Seq<u8>) -> bool {
    forall|i: int| 0 <= i < checked.len() ==> spend_record_key(#[trigger] checked[i].0@) == key
}

/// What the spend merge returns, given the local spends and each candidate
/// with the outcome of its verification.
pub open spec fn spends_to_keep_spec(
    local: Seq<Seq<u8>>,
    checked: Seq<(Vec<u8>, Verification)>,
) -> Result<Seq<Seq<u8>>, PutError> {
    let listing = candidate_listing(local, checked);
    if some_task_failed(checked) {
        Err(PutError::JoinErrorInAsyncThread)
    } else if some_parent_double_spent(checked) && listing.len() == 1 {
        Err(PutError::InvalidParentSpend)
    } else if listing.len() == 0 {
        Err(PutError::InvalidRequest)
    } else {
        Ok(listing.take(capped(listing.len()) as int))
    }
}

/// Merges the trusted local spends with the candidates that verified, in
/// spend order, and keeps at most the first thirty. A failed verification
/// task fails the merge. A parent that is double spent fails it only when
/// a single spend would be kept: with more, the record is double-spend
/// evidence and is kept.
pub fn spends_to_keep(local: &Vec<Vec<u8>>, checked: &Vec<(Vec<u8>, Verification)>) -> (r: Result<
    Vec<Vec<u8>>,
    PutError,
>)
    ensures
        match r {
            Ok(kept) => spends_to_keep_spec(views(local@), checked@) == Ok::<
                Seq<Seq<u8>>,
                PutError,
            >(views(kept@)),
            Err(e) => spends_to_keep_spec(views(local@), checked@) == Err::<Seq<Seq<u8>>, PutError>(
                e,
            ),
        },
        r is Ok ==> r->Ok_0.len() <= MAX_SPENDS_PER_RECORD,
        forall|key: Seq<u8>|
            #![trigger all_keyed(views(local@), key), candidates_keyed(checked@, key)]
            all_keyed(views(local@), key) && candidates_keyed(checked@, key) && r is Ok
                ==> all_keyed(views(r->Ok_0@), key),
{
    let mut set: Vec<Vec<u8>> = Vec::new();
    let mut i: usize = 0;
    while i < local.len()
        invariant
            i <= local.len(),
            strictly_sorted(views(set@)),
            views(set@).to_set() == views(local@).take(i as int).to_set(),
        decreases local.len() - i,
    {
        let c = copy_bytes(&local[i]);
        insert_sorted(&mut set, c);
        proof {
            assert(views(local@).take(i + 1) =~= views(local@).take(i as int).push(local@[i as int]@));
            lemma_push_to_set(views(local@).take(i as int), local@[i as int]@);
        }
        i = i + 1;
    }
    proof {
        assert(views(local@).take(local.len() as int) =~= views(local@));
    }
    let ghost lv = views(local@);
    let mut parent_double_spent = false;
    let mut j: usize = 0;
    while j < checked.len()
        invariant
            j <= checked.len(),
            strictly_sorted(views(set@)),
            views(set@).to_set() == candidate_set(lv, checked@.take(j as int)),
            parent_double_spent == some_parent_double_spent(checked@.take(j as int)),
            !some_task_failed(checked@.take(j as int)),
        decreases checked.len() - j,
    {
        let ghost before = checked@.take(j as int);
        let ghost after = checked@.take(j + 1);
        proof {
            assert(after =~= before.push(checked@[j as int]));
        }
        let v = checked[j].1;
        if v == Verification::TaskFailed {
            {
                proof {
                    assert(checked@[j as int].1 == Verification::TaskFailed);
                }
                return Err(PutError::JoinErrorInAsyncThread);
            }
        } else if v == Verification::Invalid {
            {
                proof {
                    assert(candidate_set(lv, after) =~= candidate_set(lv, before)) by {
                        assert forall|x: Seq<u8>|
                            #[trigger] candidate_set(lv, after).contains(x) implies candidate_set(
                            lv,
                            before,
                        ).contains(x) by {
                            if !lv.contains(x) {
                                let k = choose|k: int|
                                    0 <= k < after.len() && accepted(#[trigger] after[k].1)
                                        && after[k].0@ == x;
                                assert(before[k] == after[k]);
                            }
                        }
                        assert forall|x: Seq<u8>|
                            #[trigger] candidate_set(lv, before).contains(x) implies candidate_set(
                            lv,
                            after,
                        ).contains(x) by {
                            if !lv.contains(x) {
                                let k = choose|k: int|
                                    0 <= k < before.len() && accepted(#[trigger] before[k].1)
                                        && before[k].0@ == x;
                                assert(after[k] == before[k]);
                            }
                        }
                    }
                    assert(some_parent_double_spent(after) == some_parent_double_spent(before)) by {
                        if some_parent_double_spent(after) {
                            let k = choose|k: int|
                                0 <= k < after.len() && #[trigger] after[k].1
                                    == Verification::ParentDoubleSpend;
                            assert(before[k] == after[k]);
                        }
                        if some_parent_double_spent(before) {
                            let k = choose|k: int|
                                0 <= k < before.len() && #[trigger] before[k].1
                                    == Verification::ParentDoubleSpend;
                            assert(after[k] == before[k]);
                        }
                    }
                }
            }
        } else {
            {
                if v == Verification::ParentDoubleSpend {
                    parent_double_spent = true;
                }
                let ghost x = checked@[j as int].0@;
                let c = copy_bytes(&checked[j].0);
                insert_sorted(&mut set, c);
                proof {
                    assert(accepted(after[j as int].1));
                    assert(candidate_set(lv, after) =~= candidate_set(lv, before).insert(x)) by {
                        assert forall|y: Seq<u8>|
                            #[trigger] candidate_set(lv, after).contains(y) implies candidate_set(
                            lv,
                            before,
                        ).insert(x).contains(y) by {
                            if !lv.contains(y) && y != x {
                                let k = choose|k: int|
                                    0 <= k < after.len() && accepted(#[trigger] after[k].1)
                                        && after[k].0@ == y;
                                assert(k != j);
                                assert(before[k] == after[k]);
                            }
                        }
                        assert forall|y: Seq<u8>|
                            #[trigger] candidate_set(lv, before).insert(x).contains(y) implies candidate_set(
                            lv,
                            after,
                        ).contains(y) by {
                            if !lv.contains(y) && y != x {
                                let k = choose|k: int|
                                    0 <= k < before.len() && accepted(#[trigger] before[k].1)
                                        && before[k].0@ == y;
                                assert(after[k] == before[k]);
                            }
                        }
                    }
                    assert(some_parent_double_spent(after) == (some_parent_double_spent(before) || v
                        == Verification::ParentDoubleSpend)) by {
                        if some_parent_double_spent(before) {
                            let k = choose|k: int|
                                0 <= k < before.len() && #[trigger] before[k].1
                                    == Verification::ParentDoubleSpend;
                            assert(after[k] == before[k]);
                        }
                        if some_parent_double_spent(after) && !(v
                            == Verification::ParentDoubleSpend) {
                            let k = choose|k: int|
                                0 <= k < after.len() && #[trigger] after[k].1
                                    == Verification::ParentDoubleSpend;
                            assert(before[k] == after[k]);
                        }
                    }
                }
            }
        }
        proof {
            if some_task_failed(after) {
                let k = choose|k: int|
                    0 <= k < after.len() && #[trigger] after[k].1 == Verification::TaskFailed;
                assert(k < j);
                assert(before[k] == after[k]);
            }
        }
        j = j + 1;
    }
    proof {
        assert(checked@.take(checked.len() as int) =~= checked@);
        let cs = candidate_set(lv, checked@);
        assert(is_sorted_listing(views(set@), cs));
        let q = candidate_listing(lv, checked@);
        lemma_sorted_listing_unique(q, views(set@));
    }
    let ghost full = views(set@);
    if parent_double_spent && set.len() == 1 {
        return Err(PutError::InvalidParentSpend);
    }
    if set.len() == 0 {
        return Err(PutError::InvalidRequest);
    }
    set.truncate(MAX_SPENDS_PER_RECORD);
    proof {
        let kept = views(set@);
        assert forall|key: Seq<u8>|
            all_keyed(lv, key) && candidates_keyed(checked@, key) implies all_keyed(kept, key) by {
            assert forall|i: int| 0 <= i < kept.len() implies spend_record_key(
                #[trigger] kept[i],
            ) == key by {
                assert(full.to_set().contains(full[i]));
                if !lv.contains(kept[i]) {
                    let k = choose|k: int|
                        0 <= k < checked@.len() && accepted(#[trigger] checked@[k].1)
                            && checked@[k].0@ == kept[i];
                    assert(spend_record_key(checked@[k].0@) == key);
                } else {
                    let k = choose|k: int| 0 <= k < lv.len() && lv[k] == kept[i];
                }
            }
        }
        assert(views(set@) =~= candidate_listing(lv, checked@).take(
            capped(candidate_listing(lv, checked@).len()) as int,
        ));
    }
    Ok(set)
}

/// Storing one spend twice, or storing again a spend already held, leaves a
/// set of one spend.
pub proof fn lemma_same_spend_twice(spend: Vec<u8>)
    ensures
        spends_to_keep_spec(
            Seq::empty(),
            seq![(spend, Verification::Valid), (spend, Verification::Valid)],
        ) == Ok::<Seq<Seq<u8>>, PutError>(seq![spend@]),
        spends_to_keep_spec(seq![spend@], seq![(spend, Verification::Valid)]) == Ok::<
            Seq<Seq<u8>>,
            PutError,
        >(seq![spend@]),
{
    let one = seq![spend@];
    assert(strictly_sorted(one));
    let twice = seq![(spend, Verification::Valid), (spend, Verification::Valid)];
    let again = seq![(spend, Verification::Valid)];
    assert(one.to_set() =~= set![spend@]) by {
        assert(one[0] == spend@);
    }
    assert(candidate_set(Seq::empty(), twice) =~= set![spend@]) by {
        assert(accepted(twice[0].1));
    }
    assert(candidate_set(one, again) =~= set![spend@]) by {
        assert(one[0] == spend@);
    }
    let q1 = candidate_listing(Seq::empty(), twice);
    let q2 = candidate_listing(one, again);
    assert(is_sorted_listing(one, set![spend@]));
    lemma_sorted_listing_unique(q1, one);
    lemma_sorted_listing_unique(q2, one);
    assert(!some_task_failed(twice));
    assert(!some_task_failed(again));
    assert(!some_parent_double_spent(twice));
    assert(!some_parent_double_spent(again));
    assert(one.take(1) =~= one);
}

} // verus!

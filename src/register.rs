//! Registers: mergeable data at an address fixed by its owner, not by its
//! contents. A register is held as its address and the set of its signed
//! operations, each by its encoding; merging two copies unites their
//! operations. Signature checks are made by the caller and come in as a
//! verdict.
use crate::error::PutError;
use crate::order::{
    compare_bytes, insert_sorted, lemma_push_to_set, lemma_sorted_listing_unique, strictly_sorted,
    views,
};
use vstd::prelude::*;

verus! {

/// A register's address and operations.
pub struct RegisterState {
    /// The register's address.
    pub address: Vec<u8>,
    /// The operations, in byte order, each once.
    pub ops: Vec<Vec<u8>>,
}

impl RegisterState {
    /// The operations are held in byte order, each once.
    pub open spec fn wf(&self) -> bool {
        strictly_sorted(views(self.ops@))
    }

    /// The address and the set of operations.
    pub open spec fn view(&self) -> (Seq<u8>, Set<Seq<u8>>) {
        (self.address@, views(self.ops@).to_set())
    }

    /// A register at `address` holding the given operations.
    pub fn new(address: Vec<u8>, ops: &Vec<Vec<u8>>) -> (r: RegisterState)
        ensures
            r.wf(),
            r.view() == (address@, views(ops@).to_set()),
    {
        let mut set: Vec<Vec<u8>> = Vec::new();
        proof {
            assert(views(set@).to_set() =~= views(ops@).take(0).to_set());
        }
        let mut i: usize = 0;
        while i < ops.len()
            invariant
                i <= ops.len(),
                strictly_sorted(views(set@)),
                views(set@).to_set() == views(ops@).take(i as int).to_set(),
            decreases ops.len() - i,
        {
            let c = ops[i].clone();
            proof {
                assert(c@ =~= ops@[i as int]@);
            }
            insert_sorted(&mut set, c);
            proof {
                assert(views(ops@).take(i + 1) =~= views(ops@).take(i as int).push(ops@[i as int]@));
                lemma_push_to_set(views(ops@).take(i as int), ops@[i as int]@);
            }
            i = i + 1;
        }
        proof {
            assert(views(ops@).take(ops.len() as int) =~= views(ops@));
        }
        RegisterState { address, ops: set }
    }
}

/// Merging a copy into another: the first copy's address, with the
/// operations of both.
pub open spec fn merge_spec(a: (Seq<u8>, Set<Seq<u8>>), b: (Seq<u8>, Set<Seq<u8>>)) -> (
    Seq<u8>,
    Set<Seq<u8>>,
) {
    (a.0, a.1.union(b.1))
}

/// Two copies can be merged only when they are of one register.
pub open spec fn mergeable(a: (Seq<u8>, Set<Seq<u8>>), b: (Seq<u8>, Set<Seq<u8>>)) -> bool {
    a.0 == b.0
}

/// Merges `incoming` into `local`. Fails when the copies are of different
/// registers.
pub fn merge_registers(local: &RegisterState, incoming: &RegisterState) -> (r: Result<
    RegisterState,
    PutError,
>)
    requires
        local.wf(),
        incoming.wf(),
    ensures
        r is Ok <==> mergeable(local.view(), incoming.view()),
        r is Ok ==> r->Ok_0.wf() && r->Ok_0.view() == merge_spec(local.view(), incoming.view()),
        r is Err ==> r == Err::<RegisterState, PutError>(PutError::InvalidRegister),
{
    if compare_bytes(&local.address, &incoming.address) != 0 {
        return Err(PutError::InvalidRegister);
    }
    let mut ops: Vec<Vec<u8>> = local.ops.clone();
    proof {
        assert(views(ops@) =~= views(local.ops@)) by {
            assert forall|k: int| 0 <= k < ops@.len() implies ops@[k]@ == local.ops@[k]@ by {
                assert(ops@[k]@ =~= local.ops@[k]@);
            }
        }
        assert(views(incoming.ops@).take(0).to_set() =~= Set::empty());
        assert(views(ops@).to_set() =~= views(local.ops@).to_set().union(
            views(incoming.ops@).take(0).to_set(),
        ));
    }
    let mut i: usize = 0;
    while i < incoming.ops.len()
        invariant
            i <= incoming.ops.len(),
            strictly_sorted(views(ops@)),
            views(ops@).to_set() == views(local.ops@).to_set().union(
                views(incoming.ops@).take(i as int).to_set(),
            ),
        decreases incoming.ops.len() - i,
    {
        let c = incoming.ops[i].clone();
        proof {
            assert(c@ =~= incoming.ops@[i as int]@);
        }
        insert_sorted(&mut ops, c);
        proof {
            let before = views(incoming.ops@).take(i as int);
            assert(views(incoming.ops@).take(i + 1) =~= before.push(incoming.ops@[i as int]@));
            lemma_push_to_set(before, incoming.ops@[i as int]@);
            assert(views(ops@).to_set() =~= views(local.ops@).to_set().union(
                views(incoming.ops@).take(i + 1).to_set(),
            ));
        }
        i = i + 1;
    }
    proof {
        assert(views(incoming.ops@).take(incoming.ops.len() as int) =~= views(incoming.ops@));
    }
    let address = local.address.clone();
    proof {
        assert(address@ =~= local.address@);
    }
    Ok(RegisterState { address, ops })
}

/// Whether two registers hold the same operations.
pub fn same_ops(a: &RegisterState, b: &RegisterState) -> (r: bool)
    requires
        a.wf(),
        b.wf(),
    ensures
        r == (a.view().1 == b.view().1),
{
    proof {
        if a.view().1 == b.view().1 {
            lemma_sorted_listing_unique(views(a.ops@), views(b.ops@));
        }
    }
    if a.ops.len() != b.ops.len() {
        proof {
            assert(views(a.ops@).len() == a.ops@.len());
        }
        return false;
    }
    let mut i: usize = 0;
    while i < a.ops.len()
        invariant
            i <= a.ops.len(),
            a.ops.len() == b.ops.len(),
            a.wf(),
            b.wf(),
            forall|k: int| 0 <= k < i ==> a.ops@[k]@ == b.ops@[k]@,
        decreases a.ops.len() - i,
    {
        if compare_bytes(&a.ops[i], &b.ops[i]) != 0 {
            proof {
                assert(views(a.ops@)[i as int] == a.ops@[i as int]@);
                assert(views(b.ops@)[i as int] == b.ops@[i as int]@);
                if a.view().1 == b.view().1 {
                    lemma_sorted_listing_unique(views(a.ops@), views(b.ops@));
                    assert(views(a.ops@)[i as int] == views(b.ops@)[i as int]);
                }
            }
            return false;
        }
        i = i + 1;
    }
    proof {
        assert(views(a.ops@) =~= views(b.ops@));
    }
    true
}

/// What register validation decides: the value to store, or nothing where
/// the local copy already holds everything.
pub open spec fn register_validation_spec(
    incoming: (Seq<u8>, Set<Seq<u8>>),
    incoming_verified: bool,
    present_locally: bool,
    local: Option<(Seq<u8>, Set<Seq<u8>>)>,
) -> Result<Option<(Seq<u8>, Set<Seq<u8>>)>, PutError> {
    if !incoming_verified {
        Err(PutError::InvalidRegister)
    } else if !present_locally {
        Ok(Some(incoming))
    } else {
        match local {
            None => Err(PutError::InvalidRequest),
            Some(l) => if !mergeable(l, incoming) {
                Err(PutError::InvalidRegister)
            } else if merge_spec(l, incoming) == l {
                Ok(None)
            } else {
                Ok(Some(merge_spec(l, incoming)))
            },
        }
    }
}

/// The view of an optional register.
pub open spec fn opt_view(r: Option<RegisterState>) -> Option<(Seq<u8>, Set<Seq<u8>>)> {
    match r {
        Some(s) => Some(s.view()),
        None => None,
    }
}

/// Checks an incoming register and reconciles it with the local copy. A
/// register that is not held locally is stored as it came. One that is held
/// is merged into the local copy; where that changes nothing, there is
/// nothing to store.
pub fn register_validation(
    incoming: RegisterState,
    incoming_verified: bool,
    present_locally: bool,
    local: Option<RegisterState>,
) -> (r: Result<Option<RegisterState>, PutError>)
    requires
        incoming.wf(),
        local is Some ==> local->Some_0.wf(),
    ensures
        match r {
            Ok(Some(s)) => s.wf() && register_validation_spec(
                incoming.view(),
                incoming_verified,
                present_locally,
                opt_view(local),
            ) == Ok::<Option<(Seq<u8>, Set<Seq<u8>>)>, PutError>(Some(s.view())),
            Ok(None) => register_validation_spec(
                incoming.view(),
                incoming_verified,
                present_locally,
                opt_view(local),
            ) == Ok::<Option<(Seq<u8>, Set<Seq<u8>>)>, PutError>(None),
            Err(e) => register_validation_spec(
                incoming.view(),
                incoming_verified,
                present_locally,
                opt_view(local),
            ) == Err::<Option<(Seq<u8>, Set<Seq<u8>>)>, PutError>(e),
        },
{
    if !incoming_verified {
        return Err(PutError::InvalidRegister);
    }
    if !present_locally {
        return Ok(Some(incoming));
    }
    let local = match local {
        Some(l) => l,
        None => {
            return Err(PutError::InvalidRequest);
        },
    };
    let merged = merge_registers(&local, &incoming)?;
    if same_ops(&merged, &local) {
        proof {
            assert(merge_spec(local.view(), incoming.view()) =~= local.view());
        }
        Ok(None)
    } else {
        Ok(Some(merged))
    }
}

/// A verified put of a register already held, whose merge into the local
/// copy changes nothing, leaves nothing to store.
pub proof fn lemma_unchanged_register_put(
    incoming: (Seq<u8>, Set<Seq<u8>>),
    local: (Seq<u8>, Set<Seq<u8>>),
)
    requires
        mergeable(local, incoming),
        merge_spec(local, incoming) == local,
    ensures
        register_validation_spec(incoming, true, true, Some(local)) == Ok::<
            Option<(Seq<u8>, Set<Seq<u8>>)>,
            PutError,
        >(None),
{
}

/// Merging is commutative between copies of one register, and merging a
/// copy with itself gives that copy.
pub proof fn lemma_merge_commutative_idempotent(
    a: (Seq<u8>, Set<Seq<u8>>),
    b: (Seq<u8>, Set<Seq<u8>>),
)
    requires
        mergeable(a, b),
    ensures
        merge_spec(a, b) == merge_spec(b, a),
        merge_spec(a, a) == a,
{
    assert(a.1.union(b.1) =~= b.1.union(a.1));
    assert(a.1.union(a.1) =~= a.1);
}

/// Two well-formed registers with the same view hold the same operations in
/// the same order: the merged value does not depend on the order of merging.
pub proof fn lemma_same_view_same_ops(a: RegisterState, b: RegisterState)
    requires
        a.wf(),
        b.wf(),
        a.view() == b.view(),
    ensures
        views(a.ops@) == views(b.ops@),
{
    lemma_sorted_listing_unique(views(a.ops@), views(b.ops@));
}

} // verus!

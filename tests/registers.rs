use sn_node::error::PutError;
use sn_node::register::{merge_registers, register_validation, same_ops, RegisterState};
use sn_node::router::{register_outcome, register_record, unpaid_register_admission};

fn reg(addr: u8, ops: &[&[u8]]) -> RegisterState {
    let ops: Vec<Vec<u8>> = ops.iter().map(|o| o.to_vec()).collect();
    RegisterState::new(vec![addr; 32], &ops)
}

#[test]
fn new_register_sorts_and_dedups_ops() {
    let r = reg(1, &[b"c", b"a", b"c", b"b"]);
    assert_eq!(r.ops, vec![b"a".to_vec(), b"b".to_vec(), b"c".to_vec()]);
}

#[test]
fn merge_is_commutative_and_idempotent() {
    let a = reg(1, &[b"x", b"y"]);
    let b = reg(1, &[b"z", b"a"]);
    let ab = merge_registers(&a, &b).unwrap();
    let ba = merge_registers(&b, &a).unwrap();
    assert_eq!(ab.ops, ba.ops);
    assert_eq!(ab.ops.len(), 4);
    let aa = merge_registers(&a, &a).unwrap();
    assert_eq!(aa.ops, a.ops);
    assert!(same_ops(&aa, &a));
    assert!(!same_ops(&ab, &a));
}

#[test]
fn merging_different_registers_fails() {
    assert!(matches!(merge_registers(&reg(1, &[b"x"]), &reg(2, &[b"x"])), Err(PutError::InvalidRegister)));
}

#[test]
fn register_without_payment_new() {
    assert_eq!(unpaid_register_admission(false), Err(PutError::InvalidPutWithoutPayment));
}

#[test]
fn register_without_payment_existing() {
    assert_eq!(unpaid_register_admission(true), Ok(()));
    let local = reg(1, &[b"first"]);
    let incoming = reg(1, &[b"first", b"second"]);
    let validated = register_validation(incoming, true, true, Some(local));
    let merged = match &validated {
        Ok(Some(m)) => m,
        _ => panic!("expected a merged register"),
    };
    assert_eq!(merged.ops, vec![b"first".to_vec(), b"second".to_vec()]);
    let outcome = register_outcome(&validated, false);
    assert!(outcome.write);
    assert!(!outcome.replicate);
    assert_eq!(outcome.result, Ok(()));
}

#[test]
fn unchanged_register_is_not_rewritten() {
    let local = reg(1, &[b"a", b"b"]);
    let incoming = reg(1, &[b"b"]);
    let validated = register_validation(incoming, true, true, Some(local));
    assert!(matches!(validated, Ok(None)));
    let outcome = register_outcome(&validated, true);
    assert!(!outcome.write);
    assert!(!outcome.replicate);
    assert!(outcome.notify);
    assert_eq!(outcome.result, Ok(()));
}

#[test]
fn register_validation_errors() {
    let r = reg(1, &[b"a"]);
    assert!(matches!(register_validation(reg(1, &[b"a"]), false, false, None), Err(PutError::InvalidRegister)));
    assert!(matches!(register_validation(reg(1, &[b"a"]), true, true, None), Err(PutError::InvalidRequest)));
    assert!(matches!(register_validation(reg(1, &[b"a"]), true, true, Some(reg(2, &[b"a"]))), Err(PutError::InvalidRegister)));
    match register_validation(reg(1, &[b"a"]), true, false, None) {
        Ok(Some(s)) => assert_eq!(s.ops, r.ops),
        _ => panic!("a register not held is stored as it came"),
    }
}

#[test]
fn register_record_is_keyed_by_address() {
    let r = reg(3, &[b"a"]);
    let rec = register_record(&r, &vec![5, 6]);
    assert_eq!(rec.key, vec![3u8; 32]);
    assert_eq!(rec.value, vec![0x91, 2, 5, 6]);
}

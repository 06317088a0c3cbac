use yksom::val::Val;
use yksom::vm::{Frame, VM};

#[test]
fn test_frame() {
    let mut vm = VM::new_no_bootstrap();
    let selfv = Val::from_isize(&mut vm, 42).unwrap();
    let v1 = Val::from_isize(&mut vm, 43).unwrap();
    let v2 = Val::from_isize(&mut vm, 44).unwrap();
    let f = Frame::new(&mut vm, true, selfv, None, 4, vec![v1, v2]);
    assert_eq!(f.var_lookup(&vm, 0, 0).unwrap().as_isize(&vm).unwrap(), 42);
    assert_eq!(f.var_lookup(&vm, 0, 1).unwrap().as_isize(&vm).unwrap(), 43);
    assert_eq!(f.var_lookup(&vm, 0, 2).unwrap().as_isize(&vm).unwrap(), 44);
    assert!(f.var_lookup(&vm, 0, 3).is_err());
}

#[test]
fn test_frame_block_vars() {
    // A block frame does not put the receiver in slot zero: the arguments
    // start there.
    let mut vm = VM::new_no_bootstrap();
    let selfv = Val::from_isize(&mut vm, 1).unwrap();
    let a = Val::from_isize(&mut vm, 10).unwrap();
    let f = Frame::new(&mut vm, false, selfv, None, 2, vec![a]);
    assert_eq!(f.var_lookup(&vm, 0, 0).unwrap().as_isize(&vm).unwrap(), 10);
    assert!(f.var_lookup(&vm, 0, 1).is_err());
}

#[test]
fn test_var_set() {
    let mut vm = VM::new_no_bootstrap();
    let selfv = Val::from_isize(&mut vm, 1).unwrap();
    let f = Frame::new(&mut vm, true, selfv, None, 2, vec![]);
    assert!(f.var_lookup(&vm, 0, 1).is_err());
    let nv = Val::from_isize(&mut vm, 5).unwrap();
    f.var_set(&mut vm, 0, 1, nv).unwrap();
    assert_eq!(f.var_lookup(&vm, 0, 1).unwrap().as_isize(&vm).unwrap(), 5);
}

#[test]
fn test_closure_chain() {
    // A child frame whose parent closure is an existing frame's closure
    // reads the parent's variables at depth one, and mutation through the
    // chain is visible to the parent.
    let mut vm = VM::new_no_bootstrap();
    let selfv = Val::from_isize(&mut vm, 1).unwrap();
    let outer_arg = Val::from_isize(&mut vm, 7).unwrap();
    let outer = Frame::new(&mut vm, true, selfv, None, 2, vec![outer_arg]);
    let inner = Frame::new(&mut vm, false, selfv, Some(outer.closure), 1, vec![]);
    assert_eq!(inner.var_lookup(&vm, 1, 1).unwrap().as_isize(&vm).unwrap(), 7);
    let nv = Val::from_isize(&mut vm, 9).unwrap();
    inner.var_set(&mut vm, 1, 1, nv).unwrap();
    assert_eq!(outer.var_lookup(&vm, 0, 1).unwrap().as_isize(&vm).unwrap(), 9);
}

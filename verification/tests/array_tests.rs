use yksom::objects::{Array, Obj};
use yksom::val::Val;
use yksom::vm::{VMError, VM};

#[test]
fn array_at_bounds() {
    // Indices are 1-based: below one or above the length is out of bounds.
    let mut vm = VM::new_no_bootstrap();
    let v1 = Val::from_isize(&mut vm, 10).unwrap();
    let v2 = Val::from_isize(&mut vm, 20).unwrap();
    let a = Array { arr: vec![v1, v2], length: 2 };
    let i0 = Val::from_isize(&mut vm, 0).unwrap();
    let i1 = Val::from_isize(&mut vm, 1).unwrap();
    let i2 = Val::from_isize(&mut vm, 2).unwrap();
    let i3 = Val::from_isize(&mut vm, 3).unwrap();
    assert_eq!(*a.at(&vm, i0).unwrap_err(), VMError::IndexOutOfBounds);
    assert_eq!(a.at(&vm, i1).unwrap().as_isize(&vm).unwrap(), 10);
    assert_eq!(a.at(&vm, i2).unwrap().as_isize(&vm).unwrap(), 20);
    assert_eq!(*a.at(&vm, i3).unwrap_err(), VMError::IndexOutOfBounds);
}

#[test]
fn array_put_replaces_and_appends() {
    let mut vm = VM::new_no_bootstrap();
    let v1 = Val::from_isize(&mut vm, 10).unwrap();
    let nv = Val::from_isize(&mut vm, 99).unwrap();
    let a = Array { arr: vec![v1], length: 3 };
    let i1 = Val::from_isize(&mut vm, 1).unwrap();
    let i2 = Val::from_isize(&mut vm, 2).unwrap();
    let i4 = Val::from_isize(&mut vm, 4).unwrap();

    // Replacing the filled cell yields a fresh array with the new value.
    let r = a.put(&mut vm, nv, i1).unwrap();
    let idx = ((r.val >> 3) - 1) as usize;
    match &vm.heap[idx] {
        Obj::Array(b) => {
            assert_eq!(b.length, 3);
            assert_eq!(b.arr[0].as_isize(&vm).unwrap(), 99);
        },
        _ => panic!("expected an array"),
    }

    // Writing one past the last filled cell appends.
    let r = a.put(&mut vm, nv, i2).unwrap();
    let idx = ((r.val >> 3) - 1) as usize;
    match &vm.heap[idx] {
        Obj::Array(b) => {
            assert_eq!(b.arr.len(), 2);
            assert_eq!(b.arr[1].as_isize(&vm).unwrap(), 99);
        },
        _ => panic!("expected an array"),
    }

    // Beyond the reported length is out of bounds.
    assert_eq!(*a.put(&mut vm, nv, i4).unwrap_err(), VMError::IndexOutOfBounds);
}

#[test]
fn array_length() {
    let mut vm = VM::new_no_bootstrap();
    let a = Array { arr: vec![], length: 7 };
    let l = a.length(&mut vm).unwrap();
    assert_eq!(l.as_isize(&vm).unwrap(), 7);
}

#[test]
fn array_new_takes_reported_length() {
    let mut vm = VM::new_no_bootstrap();
    let len = Val::from_isize(&mut vm, 5).unwrap();
    let r = Array::new(&mut vm, len, vec![]).unwrap();
    let idx = ((r.val >> 3) - 1) as usize;
    match &vm.heap[idx] {
        Obj::Array(b) => {
            assert_eq!(b.length, 5);
            assert_eq!(b.arr.len(), 0);
        },
        _ => panic!("expected an array"),
    }
}

#[test]
fn string_concatenate() {
    let mut vm = VM::new_no_bootstrap();
    let rcv = yksom::objects::String_::new(&mut vm, "foo".to_string(), true);
    let s1 = yksom::objects::String_ { s: "foo".to_string(), is_str: true };
    let other = yksom::objects::String_::new(&mut vm, "bar".to_string(), true);
    let r = s1.concatenate(&mut vm, rcv, other).unwrap();
    let idx = ((r.val >> 3) - 1) as usize;
    match &vm.heap[idx] {
        Obj::String_(t) => {
            assert_eq!(t.s, "foobar");
            assert!(t.is_str);
        },
        _ => panic!("expected a string"),
    }

    // The empty string is a two-sided identity and neither side allocates:
    // an empty receiver hands back the other operand, an empty argument
    // hands back the receiver itself.
    let empty_handle = yksom::objects::String_::new(&mut vm, String::new(), true);
    let empty = yksom::objects::String_ { s: String::new(), is_str: true };
    let before = vm.heap.len();
    let r = empty.concatenate(&mut vm, empty_handle, other).unwrap();
    assert_eq!(r.val, other.val);
    assert_eq!(vm.heap.len(), before);
    let r = s1.concatenate(&mut vm, rcv, empty_handle).unwrap();
    assert_eq!(r.val, rcv.val);
    assert_eq!(vm.heap.len(), before);
}

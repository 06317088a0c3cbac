use yksom::objects::ObjType;
use yksom::objects::String_;
use yksom::val::{Val, ValKind, ValResult};
use yksom::vm::{VMError, VM};

#[test]
fn test_isize() {
    let mut vm = VM::new_no_bootstrap();

    let v = Val::from_isize(&mut vm, 0).unwrap();
    assert_eq!(v.valkind(), ValKind::INT);
    assert_eq!(v.as_usize(&vm).unwrap(), 0);
    assert_eq!(v.as_isize(&vm).unwrap(), 0);

    let v = Val::from_isize(&mut vm, -1).unwrap();
    assert_eq!(v.valkind(), ValKind::INT);
    assert!(v.as_usize(&vm).is_err());
    assert_eq!(v.as_isize(&vm).unwrap(), -1);

    let v = Val::from_isize(&mut vm, isize::MIN).unwrap();
    assert_eq!(v.valkind(), ValKind::GCBOX);
    assert_eq!(v.as_isize(&vm).unwrap(), isize::MIN);
    let v = Val::from_isize(&mut vm, isize::MAX).unwrap();
    assert_eq!(v.valkind(), ValKind::GCBOX);
    assert_eq!(v.as_isize(&vm).unwrap(), isize::MAX);

    let v = Val::from_isize(&mut vm, 1 << 59).unwrap();
    assert_eq!(v.valkind(), ValKind::INT);
    assert_eq!(v.as_usize(&vm).unwrap(), 1 << 59);
    assert_eq!(v.as_isize(&vm).unwrap(), 1 << 59);

    let v = Val::from_isize(&mut vm, 1 << 62).unwrap();
    assert_eq!(v.valkind(), ValKind::GCBOX);
    assert_eq!(v.as_usize(&vm).unwrap(), 1 << 62);
    assert_eq!(v.as_isize(&vm).unwrap(), 1 << 62);
}

#[test]
fn test_usize() {
    let mut vm = VM::new_no_bootstrap();

    let v = Val::from_usize(&mut vm, 0).unwrap();
    assert_eq!(v.valkind(), ValKind::INT);
    assert_eq!(v.as_usize(&vm).unwrap(), 0);
    assert_eq!(v.as_isize(&vm).unwrap(), 0);

    let v = Val::from_usize(&mut vm, 1 << 59).unwrap();
    assert_eq!(v.valkind(), ValKind::INT);
    assert_eq!(v.as_usize(&vm).unwrap(), 1 << 59);
    assert_eq!(v.as_isize(&vm).unwrap(), 1 << 59);

    assert!(Val::from_usize(&mut vm, 1 << 63).is_err());

    let v = Val::from_usize(&mut vm, 1 << 62).unwrap();
    assert_eq!(v.valkind(), ValKind::GCBOX);
    assert_eq!(v.as_usize(&vm).unwrap(), 1 << 62);
    assert_eq!(v.as_isize(&vm).unwrap(), 1 << 62);
}

#[test]
fn test_cast() {
    let mut vm = VM::new_no_bootstrap();
    let v = String_::new(&mut vm, "s".to_string(), true);
    assert!(vm.downcast_string(v).is_ok());
    assert_eq!(
        *vm.downcast_class(v).unwrap_err(),
        VMError::TypeError { expected: ObjType::Class, got: ObjType::String_ }
    );
}

#[test]
fn test_downcast() {
    let mut vm = VM::new_no_bootstrap();
    let v = String_::new(&mut vm, "s".to_string(), true);
    assert!(vm.downcast_string(v).is_ok());
    assert!(vm.downcast_class(v).is_err());
}

#[test]
fn test_illegal_placeholder() {
    let v = Val::illegal();
    assert!(v.is_illegal());
    let vm = VM::new_no_bootstrap();
    assert_eq!(*v.as_isize(&vm).unwrap_err(), VMError::UnassignedVar(0));
    assert_eq!(*v.as_usize(&vm).unwrap_err(), VMError::UnassignedVar(0));
}

#[test]
fn test_unboxed_boundaries() {
    // The unboxed range is [-(2^60), 2^60): both ends round-trip, and the
    // first values outside it box.
    let mut vm = VM::new_no_bootstrap();
    let lo: isize = -(1isize << 60);
    let hi: isize = (1isize << 60) - 1;
    let v = Val::from_isize(&mut vm, lo).unwrap();
    assert_eq!(v.valkind(), ValKind::INT);
    assert_eq!(v.as_isize(&vm).unwrap(), lo);
    let v = Val::from_isize(&mut vm, hi).unwrap();
    assert_eq!(v.valkind(), ValKind::INT);
    assert_eq!(v.as_isize(&vm).unwrap(), hi);
    let v = Val::from_isize(&mut vm, lo - 1).unwrap();
    assert_eq!(v.valkind(), ValKind::GCBOX);
    assert_eq!(v.as_isize(&vm).unwrap(), lo - 1);
    let v = Val::from_isize(&mut vm, hi + 1).unwrap();
    assert_eq!(v.valkind(), ValKind::GCBOX);
    assert_eq!(v.as_isize(&vm).unwrap(), hi + 1);
}

#[test]
fn test_usize_high_unboxed_reads() {
    // A usize in [2^60, 2^61) is stored unboxed but its word's top bit is
    // set, so an as-usize read refuses it as negative.
    let mut vm = VM::new_no_bootstrap();
    let v = Val::from_usize(&mut vm, 1 << 60).unwrap();
    assert_eq!(v.valkind(), ValKind::INT);
    assert_eq!(*v.as_usize(&vm).unwrap_err(), VMError::CantRepresentAsUsize);
}

#[test]
fn test_valresult() {
    let mut vm = VM::new_no_bootstrap();
    let v = Val::from_isize(&mut vm, 7).unwrap();
    let r = ValResult::from_val(v);
    assert!(r.is_val());
    assert!(!r.is_err());
    assert_eq!(r.unwrap().as_isize(&vm).unwrap(), 7);

    let r = ValResult::from_vmerror(VMError::DivisionByZero);
    assert!(r.is_err());
    assert_eq!(*r.unwrap_err(), VMError::DivisionByZero);

    let r = ValResult::from_boxvmerror(Box::new(VMError::NegativeShift));
    assert!(!r.is_val());
    assert_eq!(*r.unwrap_err(), VMError::NegativeShift);

    let r = ValResult::from_vmerror(VMError::Exit);
    let fallback = Val::from_isize(&mut vm, 3).unwrap();
    let out = r.unwrap_or_else(|_e| fallback);
    assert_eq!(out.as_isize(&vm).unwrap(), 3);
}

#[test]
fn test_int_to_string() {
    assert_eq!(yksom::numstr::int_to_string(0), "0");
    assert_eq!(yksom::numstr::int_to_string(42), "42");
    assert_eq!(yksom::numstr::int_to_string(-1), "-1");
    assert_eq!(yksom::numstr::int_to_string(1000000000000000000), "1000000000000000000");
    assert_eq!(yksom::numstr::int_to_string(isize::MIN), "-9223372036854775808");
    assert_eq!(yksom::numstr::int_to_string(isize::MAX), "9223372036854775807");
}

#[test]
fn test_parse_isize() {
    assert_eq!(yksom::numstr::parse_isize("0"), Some(0));
    assert_eq!(yksom::numstr::parse_isize("123"), Some(123));
    assert_eq!(yksom::numstr::parse_isize("9223372036854775807"), Some(isize::MAX));
    assert_eq!(yksom::numstr::parse_isize("9223372036854775808"), None);
    assert_eq!(yksom::numstr::parse_isize(""), None);
    assert_eq!(yksom::numstr::parse_isize("12a"), None);
    assert_eq!(yksom::numstr::parse_isize("-3"), None);
}

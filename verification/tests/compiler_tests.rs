//! Compiler-level checks: interning, variable addressing, stack-size
//! prediction, and compile errors.

use yksom::ast::{Class, Expr, Lexeme, Method, MethodBody, MethodName};
use yksom::instrs::Instr;
use yksom::objects::{MethodBody as RtMethodBody, Obj};
use yksom::vm::VM;

fn lx(t: &str) -> Lexeme {
    Lexeme { text: t.to_string(), line: 1, col: 1 }
}

fn id(t: &str) -> Expr {
    Expr::VarLookup(lx(t))
}

fn intl(t: &str) -> Expr {
    Expr::Int { is_negative: false, val: lx(t) }
}

fn strl(t: &str) -> Expr {
    Expr::String(lx(&format!("'{}'", t)))
}

fn unary(r: Expr, sels: &[&str]) -> Expr {
    Expr::UnaryMsg { receiver: Box::new(r), ids: sels.iter().map(|s| lx(s)).collect() }
}

fn binary(l: Expr, op: &str, r: Expr) -> Expr {
    Expr::BinaryMsg { lhs: Box::new(l), op: lx(op), rhs: Box::new(r) }
}

fn ret(e: Expr) -> Expr {
    Expr::Return(Box::new(e))
}

fn block(params: &[&str], vars: &[&str], exprs: Vec<Expr>) -> Expr {
    Expr::Block {
        params: params.iter().map(|s| lx(s)).collect(),
        vars: vars.iter().map(|s| lx(s)).collect(),
        exprs,
    }
}

fn m_unary(name: &str, vars: &[&str], exprs: Vec<Expr>) -> Method {
    Method {
        name: MethodName::Id(lx(name)),
        body: MethodBody::Body { vars: vars.iter().map(|s| lx(s)).collect(), exprs },
    }
}

fn cls(name: &str, ivars: &[&str], methods: Vec<Method>) -> Class {
    Class {
        name: lx(name),
        supername: None,
        inst_vars: ivars.iter().map(|s| lx(s)).collect(),
        methods,
    }
}

fn compile_only(user: &Class) -> (VM, usize) {
    let mut vm = VM::new_no_bootstrap();
    // A class with the default super needs Object to exist; give it one.
    let object = cls("Object", &[], vec![]);
    let ov = vm.compile(&object, "Object", false).unwrap();
    vm.obj_cls = ov;
    let cv = vm.compile(user, "test", true).unwrap();
    let idx = ((cv.val >> 3) - 1) as usize;
    (vm, idx)
}

#[test]
fn intern_uniqueness() {
    // Repeated sends and repeated string literals share their interned
    // entries: no (selector, arity) pair and no literal occurs twice.
    let user = cls(
        "Interned",
        &[],
        vec![m_unary(
            "run",
            &[],
            vec![
                unary(strl("hi"), &["println"]),
                unary(strl("hi"), &["println"]),
                unary(strl("ho"), &["println"]),
                binary(intl("1"), "+", binary(intl("2"), "+", intl("3"))),
            ],
        )],
    );
    let (vm, idx) = compile_only(&user);
    match &vm.heap[idx] {
        Obj::Class(c) => {
            for i in 0..c.sends.len() {
                for j in (i + 1)..c.sends.len() {
                    assert!(!(c.sends[i].0 == c.sends[j].0 && c.sends[i].1 == c.sends[j].1));
                }
            }
            for i in 0..c.strings.len() {
                for j in (i + 1)..c.strings.len() {
                    assert!(
                        !(c.strings[i].0 == c.strings[j].0 && c.strings[i].1 == c.strings[j].1)
                    );
                }
            }
            // "println" with no argument was sent three times but interned
            // once; "+" twice but interned once.
            assert_eq!(c.sends.len(), 2);
            // 'hi' twice and 'ho' once intern to two entries.
            assert_eq!(c.strings.len(), 2);
        },
        _ => panic!("expected a class"),
    }
}

#[test]
fn variable_addressing_depth() {
    // Nested blocks B0 > B1 > B2: a read of a B0 local inside B2 crosses
    // two closures, so it compiles to VarLookup(2, slot).
    let user = cls(
        "Nesting",
        &[],
        vec![m_unary(
            "run",
            &[],
            vec![block(&[], &["y"], vec![block(&[], &[], vec![block(&[], &[], vec![id("y")])])])],
        )],
    );
    let (vm, idx) = compile_only(&user);
    match &vm.heap[idx] {
        Obj::Class(c) => {
            assert!(c.instrs.iter().any(|i| *i == Instr::VarLookup(2, 0)));
        },
        _ => panic!("expected a class"),
    }
}

#[test]
fn instance_variable_addressing() {
    // Reading an instance variable emits InstVarLookup, not VarLookup.
    let user = cls("Iv", &["field"], vec![m_unary("run", &[], vec![id("field")])]);
    let (vm, idx) = compile_only(&user);
    match &vm.heap[idx] {
        Obj::Class(c) => {
            assert!(c.instrs.iter().any(|i| *i == Instr::InstVarLookup(0)));
        },
        _ => panic!("expected a class"),
    }
}

#[test]
fn predicted_max_stack() {
    // `^ 1 + (2 + 3)` needs three operand-stack slots: the receiver, the
    // nested receiver, and the nested argument.
    let user = cls("Stacky", &[], vec![m_unary(
        "run",
        &[],
        vec![ret(binary(intl("1"), "+", binary(intl("2"), "+", intl("3"))))],
    )]);
    let (vm, idx) = compile_only(&user);
    match &vm.heap[idx] {
        Obj::Class(c) => {
            assert_eq!(c.methods.len(), 1);
            match c.methods[0].body {
                RtMethodBody::User { num_vars, bytecode_off: _, max_stack } => {
                    assert_eq!(num_vars, 1);
                    assert_eq!(max_stack, 3);
                },
                _ => panic!("expected a user method"),
            }
        },
        _ => panic!("expected a class"),
    }
}

#[test]
fn unknown_variable_is_an_error() {
    let user = cls("Bad", &[], vec![m_unary("run", &[], vec![id("mystery")])]);
    let mut vm = VM::new_no_bootstrap();
    let object = cls("Object", &[], vec![]);
    let ov = vm.compile(&object, "Object", false).unwrap();
    vm.obj_cls = ov;
    let errs = vm.compile(&user, "test", true).unwrap_err();
    assert_eq!(errs.len(), 1);
    assert_eq!(errs[0].msg, "Unknown variable 'mystery'");
}

#[test]
fn shadowing_is_an_error() {
    let user = cls("Shadow", &[], vec![m_unary("run", &["x", "x"], vec![id("x")])]);
    let mut vm = VM::new_no_bootstrap();
    let object = cls("Object", &[], vec![]);
    let ov = vm.compile(&object, "Object", false).unwrap();
    vm.obj_cls = ov;
    let errs = vm.compile(&user, "test", true).unwrap_err();
    assert_eq!(errs.len(), 1);
    assert_eq!(errs[0].msg, "Variable 'x' shadows another of the same name");
}

#[test]
fn unknown_primitive_is_an_error() {
    let user = cls(
        "BadPrim",
        &[],
        vec![Method { name: MethodName::Id(lx("levitate")), body: MethodBody::Primitive }],
    );
    let mut vm = VM::new_no_bootstrap();
    let object = cls("Object", &[], vec![]);
    let ov = vm.compile(&object, "Object", false).unwrap();
    vm.obj_cls = ov;
    let errs = vm.compile(&user, "test", true).unwrap_err();
    assert_eq!(errs.len(), 1);
    assert_eq!(errs[0].msg, "Unknown primitive 'levitate'");
}

#[test]
fn primitive_arity_is_checked() {
    let user = cls(
        "BadArity",
        &[],
        vec![Method {
            name: MethodName::BinaryOp(lx("+"), None),
            body: MethodBody::Primitive,
        }],
    );
    let mut vm = VM::new_no_bootstrap();
    let object = cls("Object", &[], vec![]);
    let ov = vm.compile(&object, "Object", false).unwrap();
    vm.obj_cls = ov;
    let errs = vm.compile(&user, "test", true).unwrap_err();
    assert_eq!(errs.len(), 1);
    assert_eq!(errs[0].msg, "Expected 1 parameters, got 0");
}

#[test]
fn bad_integer_literal_is_an_error() {
    let user = cls(
        "BadInt",
        &[],
        vec![m_unary("run", &[], vec![Expr::Int { is_negative: false, val: lx("12x") }])],
    );
    let mut vm = VM::new_no_bootstrap();
    let object = cls("Object", &[], vec![]);
    let ov = vm.compile(&object, "Object", false).unwrap();
    vm.obj_cls = ov;
    let errs = vm.compile(&user, "test", true).unwrap_err();
    assert_eq!(errs.len(), 1);
    assert_eq!(errs[0].msg, "Invalid integer literal '12x'");
}

#[test]
fn inst_vars_refused_where_not_allowed() {
    let user = cls("NoIvars", &["x"], vec![]);
    let mut vm = VM::new_no_bootstrap();
    let errs = vm.compile(&user, "test", false).unwrap_err();
    assert_eq!(errs.len(), 1);
}

#[test]
fn unknown_superclass_is_an_error() {
    let mut vm = VM::new_no_bootstrap();
    let object = cls("Object", &[], vec![]);
    let ov = vm.compile(&object, "Object", false).unwrap();
    vm.obj_cls = ov;
    let user = Class {
        name: lx("Odd"),
        supername: Some(lx("Vector")),
        inst_vars: vec![],
        methods: vec![],
    };
    let errs = vm.compile(&user, "test", true).unwrap_err();
    assert_eq!(errs.len(), 1);
    assert_eq!(errs[0].msg, "Unknown superclass 'Vector'");
}

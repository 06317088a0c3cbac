//! End-to-end runs: build the builtin classes and a user class as ASTs,
//! bootstrap the VM, instantiate the class, and send it `run`.

use yksom::ast::{Class, Expr, Lexeme, Method, MethodBody, MethodName};
use yksom::objects::Inst;
use yksom::val::{Val, ValKind};
use yksom::vm::{VMError, VM};

fn lx(t: &str) -> Lexeme {
    Lexeme { text: t.to_string(), line: 1, col: 1 }
}

fn id(t: &str) -> Expr {
    Expr::VarLookup(lx(t))
}

fn intl(t: &str) -> Expr {
    Expr::Int { is_negative: false, val: lx(t) }
}

fn negl(t: &str) -> Expr {
    Expr::Int { is_negative: true, val: lx(t) }
}

fn strl(t: &str) -> Expr {
    Expr::String(lx(&format!("'{}'", t)))
}

fn unary(r: Expr, sels: &[&str]) -> Expr {
    Expr::UnaryMsg { receiver: Box::new(r), ids: sels.iter().map(|s| lx(s)).collect() }
}

fn binary(l: Expr, op: &str, r: Expr) -> Expr {
    Expr::BinaryMsg { lhs: Box::new(l), op: lx(op), rhs: Box::new(r) }
}

fn kw1(r: Expr, sel: &str, arg: Expr) -> Expr {
    Expr::KeywordMsg { receiver: Box::new(r), msglist: vec![(lx(sel), arg)] }
}

fn ret(e: Expr) -> Expr {
    Expr::Return(Box::new(e))
}

fn assign(n: &str, e: Expr) -> Expr {
    Expr::Assign { id: lx(n), expr: Box::new(e) }
}

fn block(params: &[&str], vars: &[&str], exprs: Vec<Expr>) -> Expr {
    Expr::Block {
        params: params.iter().map(|s| lx(s)).collect(),
        vars: vars.iter().map(|s| lx(s)).collect(),
        exprs,
    }
}

fn m_unary(name: &str, vars: &[&str], exprs: Vec<Expr>) -> Method {
    Method {
        name: MethodName::Id(lx(name)),
        body: MethodBody::Body { vars: vars.iter().map(|s| lx(s)).collect(), exprs },
    }
}

fn m_kw(parts: &[&str], args: &[&str], vars: &[&str], exprs: Vec<Expr>) -> Method {
    let pairs = parts.iter().zip(args.iter()).map(|(p, a)| (lx(p), lx(a))).collect();
    Method {
        name: MethodName::Keywords(pairs),
        body: MethodBody::Body { vars: vars.iter().map(|s| lx(s)).collect(), exprs },
    }
}

fn m_prim_id(name: &str) -> Method {
    Method { name: MethodName::Id(lx(name)), body: MethodBody::Primitive }
}

fn m_prim_bin(op: &str) -> Method {
    Method {
        name: MethodName::BinaryOp(lx(op), Some(lx("other"))),
        body: MethodBody::Primitive,
    }
}

fn m_prim_kw(parts: &[&str], args: &[&str]) -> Method {
    let pairs = parts.iter().zip(args.iter()).map(|(p, a)| (lx(p), lx(a))).collect();
    Method { name: MethodName::Keywords(pairs), body: MethodBody::Primitive }
}

fn cls(name: &str, supern: Option<&str>, ivars: &[&str], methods: Vec<Method>) -> Class {
    Class {
        name: lx(name),
        supername: supern.map(lx),
        inst_vars: ivars.iter().map(|s| lx(s)).collect(),
        methods,
    }
}

/// `system printString: self <as>. system printNewline`
fn println_body(as_string: bool) -> Vec<Expr> {
    let shown = if as_string { unary(id("self"), &["asString"]) } else { id("self") };
    vec![kw1(id("system"), "printString:", shown), unary(id("system"), &["printNewline"])]
}

fn builtin_asts() -> Vec<Class> {
    vec![
        cls("Object", None, &[], vec![]),
        cls("Class", None, &[], vec![m_prim_id("name"), m_prim_id("new")]),
        cls("Nil", None, &[], vec![]),
        cls(
            "Block",
            None,
            &[],
            vec![
                m_prim_id("value"),
                m_prim_id("restart"),
                m_kw(
                    &["whileTrue:"],
                    &["aBlock"],
                    &[],
                    vec![
                        kw1(
                            unary(id("self"), &["value"]),
                            "ifFalse:",
                            block(&[], &[], vec![ret(id("nil"))]),
                        ),
                        unary(id("aBlock"), &["value"]),
                        unary(id("self"), &["restart"]),
                    ],
                ),
            ],
        ),
        cls("Block2", Some("Block"), &[], vec![m_prim_kw(&["value:"], &["a"])]),
        cls("Block3", Some("Block"), &[], vec![m_prim_kw(&["value:", "with:"], &["a", "b"])]),
        cls("Boolean", None, &[], vec![]),
        cls("Double", None, &[], vec![]),
        cls(
            "False",
            Some("Boolean"),
            &[],
            vec![
                m_kw(&["ifTrue:"], &["aBlock"], &[], vec![ret(id("nil"))]),
                m_kw(
                    &["ifFalse:"],
                    &["aBlock"],
                    &[],
                    vec![ret(unary(id("aBlock"), &["value"]))],
                ),
                m_unary("asString", &[], vec![ret(strl("false"))]),
                m_unary("println", &[], println_body(true)),
            ],
        ),
        cls(
            "Integer",
            None,
            &[],
            vec![
                m_prim_bin("+"),
                m_prim_bin("-"),
                m_prim_bin("*"),
                m_prim_bin("/"),
                m_prim_bin("%"),
                m_prim_bin("="),
                m_prim_bin("=="),
                m_prim_bin("<"),
                m_prim_bin("<="),
                m_prim_bin(">"),
                m_prim_bin(">="),
                m_prim_id("asString"),
                m_unary("println", &[], println_body(true)),
            ],
        ),
        cls(
            "String",
            None,
            &[],
            vec![
                m_prim_id("asString"),
                m_prim_kw(&["concatenate:"], &["other"]),
                m_prim_bin("<"),
                m_prim_bin(">"),
                m_prim_bin("="),
                m_prim_bin("=="),
                m_unary("println", &[], println_body(false)),
            ],
        ),
        cls(
            "System",
            None,
            &[],
            vec![m_prim_kw(&["printString:"], &["s"]), m_prim_id("printNewline")],
        ),
        cls(
            "True",
            Some("Boolean"),
            &[],
            vec![
                m_kw(
                    &["ifTrue:"],
                    &["aBlock"],
                    &[],
                    vec![ret(unary(id("aBlock"), &["value"]))],
                ),
                m_kw(&["ifFalse:"], &["aBlock"], &[], vec![ret(id("nil"))]),
                m_unary("asString", &[], vec![ret(strl("true"))]),
                m_unary("println", &[], println_body(true)),
            ],
        ),
    ]
}

fn booted_vm() -> VM {
    let mut vm = VM::new_no_bootstrap();
    vm.bootstrap(&builtin_asts()).unwrap();
    vm
}

fn run_class(vm: &mut VM, user: Class) -> yksom::val::ValResult {
    let cv = vm.compile(&user, "test", true).unwrap();
    let app = Inst::new(vm, cv).unwrap();
    vm.send(app, "run", vec![])
}

#[test]
fn hello_world() {
    let mut vm = booted_vm();
    let user = cls(
        "Hello",
        None,
        &[],
        vec![m_unary("run", &[], vec![unary(strl("Hello, World!"), &["println"])])],
    );
    let r = run_class(&mut vm, user);
    assert!(r.is_val());
    assert_eq!(vm.output, "Hello, World!\n");
}

#[test]
fn closure_capture_and_mutation() {
    // A block increments a captured local; three invocations leave three.
    let mut vm = booted_vm();
    let user = cls(
        "Counter",
        None,
        &[],
        vec![m_unary(
            "run",
            &["i", "b"],
            vec![
                assign("i", intl("0")),
                assign("b", block(&[], &[], vec![assign("i", binary(id("i"), "+", intl("1")))])),
                unary(id("b"), &["value"]),
                unary(id("b"), &["value"]),
                unary(id("b"), &["value"]),
                ret(id("i")),
            ],
        )],
    );
    let r = run_class(&mut vm, user);
    let v = r.unwrap();
    assert_eq!(v.as_isize(&vm).unwrap(), 3);
}

#[test]
fn non_local_return() {
    // `^42` from a block unwinds to the method that created the block; the
    // trailing `^ -1` is never observed, and the operand stack is restored.
    let mut vm = booted_vm();
    let user = cls(
        "NonLocal",
        None,
        &[],
        vec![
            m_kw(
                &["do:"],
                &["aBlock"],
                &[],
                vec![unary(id("aBlock"), &["value"]), ret(intl("99"))],
            ),
            m_unary(
                "compute",
                &[],
                vec![
                    kw1(id("self"), "do:", block(&[], &[], vec![ret(intl("42"))])),
                    ret(negl("1")),
                ],
            ),
            m_unary("run", &[], vec![ret(unary(id("self"), &["compute"]))]),
        ],
    );
    let r = run_class(&mut vm, user);
    let v = r.unwrap();
    assert_eq!(v.as_isize(&vm).unwrap(), 42);
    assert_eq!(vm.stack.len(), 0);
}

#[test]
fn arithmetic_boxing_boundary() {
    // 10^9 * 10^9 exceeds the unboxed range, so the product is boxed; it
    // still compares equal to itself and prints as true.
    let mut vm = booted_vm();
    let user = cls(
        "Boxing",
        None,
        &[],
        vec![
            m_unary(
                "run",
                &["x"],
                vec![
                    assign("x", binary(intl("1000000000"), "*", intl("1000000000"))),
                    unary(binary(id("x"), "=", id("x")), &["println"]),
                    ret(binary(id("x"), "=", id("x"))),
                ],
            ),
            m_unary(
                "product",
                &[],
                vec![ret(binary(intl("1000000000"), "*", intl("1000000000")))],
            ),
        ],
    );
    let r = run_class(&mut vm, user);
    let v = r.unwrap();
    assert_eq!(v.val, vm.true_.val);
    assert_eq!(vm.output, "true\n");

    let cv = vm
        .compile(
            &cls(
                "Boxing2",
                None,
                &[],
                vec![m_unary(
                    "run",
                    &[],
                    vec![ret(binary(intl("2000000000"), "*", intl("2000000000")))],
                )],
            ),
            "test2",
            true,
        )
        .unwrap();
    let app = Inst::new(&mut vm, cv).unwrap();
    let v = vm.send(app, "run", vec![]).unwrap();
    assert_eq!(v.valkind(), ValKind::GCBOX);
    assert_eq!(v.as_isize(&vm).unwrap(), 4000000000000000000);
}

#[test]
fn restart_primitive() {
    // `whileTrue:` is built on the restart primitive: its method re-executes
    // from the top with the operand stack rewound until the guard fails.
    let mut vm = booted_vm();
    let user = cls(
        "Looper",
        None,
        &[],
        vec![m_unary(
            "run",
            &["n"],
            vec![
                assign("n", intl("0")),
                kw1(
                    block(&[], &[], vec![binary(id("n"), "<", intl("3"))]),
                    "whileTrue:",
                    block(&[], &[], vec![assign("n", binary(id("n"), "+", intl("1")))]),
                ),
                ret(id("n")),
            ],
        )],
    );
    let r = run_class(&mut vm, user);
    let v = r.unwrap();
    assert_eq!(v.as_isize(&vm).unwrap(), 3);
}

#[test]
fn escaped_block_error() {
    // A block that does `^i` after its method has returned has escaped: the
    // program halts with an exit-level error.
    let mut vm = booted_vm();
    let user = cls(
        "Escape",
        None,
        &[],
        vec![
            m_unary("mk", &["i"], vec![assign("i", intl("7")), ret(block(&[], &[], vec![ret(id("i"))]))]),
            m_unary(
                "run",
                &["b"],
                vec![assign("b", unary(id("self"), &["mk"])), ret(unary(id("b"), &["value"]))],
            ),
        ],
    );
    let r = run_class(&mut vm, user);
    assert!(r.is_err());
    assert_eq!(*r.unwrap_err(), VMError::Exit);
}

#[test]
fn escaped_block_can_still_read() {
    // The captured closure outlives the method, so reading the local still
    // works; only the non-local return fails.
    let mut vm = booted_vm();
    let user = cls(
        "EscapeRead",
        None,
        &[],
        vec![
            m_unary("mk", &["i"], vec![assign("i", intl("7")), ret(block(&[], &[], vec![id("i")]))]),
            m_unary(
                "run",
                &["b"],
                vec![assign("b", unary(id("self"), &["mk"])), ret(unary(id("b"), &["value"]))],
            ),
        ],
    );
    let r = run_class(&mut vm, user);
    let v = r.unwrap();
    assert_eq!(v.as_isize(&vm).unwrap(), 7);
}

#[test]
fn method_returns_self_by_default() {
    let mut vm = booted_vm();
    let user = cls("Plain", None, &[], vec![m_unary("run", &[], vec![intl("5")])]);
    let cv = vm.compile(&user, "test", true).unwrap();
    let app = Inst::new(&mut vm, cv).unwrap();
    let v = vm.send(app, "run", vec![]).unwrap();
    assert_eq!(v.val, app.val);
}

#[test]
fn unknown_method_reported() {
    let mut vm = booted_vm();
    let user = cls(
        "Oops",
        None,
        &[],
        vec![m_unary("run", &[], vec![ret(unary(id("self"), &["missing"]))])],
    );
    let r = run_class(&mut vm, user);
    assert!(r.is_err());
    assert_eq!(*r.unwrap_err(), VMError::UnknownMethod("missing".to_string()));
}

#[test]
fn division_by_zero_reported() {
    let mut vm = booted_vm();
    let user = cls(
        "DivZero",
        None,
        &[],
        vec![m_unary("run", &[], vec![ret(binary(intl("1"), "/", intl("0")))])],
    );
    let r = run_class(&mut vm, user);
    assert!(r.is_err());
    assert_eq!(*r.unwrap_err(), VMError::DivisionByZero);
}

#[test]
fn inherited_method_found_through_super_chain() {
    // Block2 inherits whileTrue: from Block through the super chain.
    let mut vm = booted_vm();
    let user = cls(
        "Inherit",
        None,
        &[],
        vec![m_unary(
            "run",
            &["n"],
            vec![
                assign("n", intl("0")),
                kw1(
                    block(&[], &[], vec![binary(id("n"), "<", intl("2"))]),
                    "whileTrue:",
                    block(&[], &[], vec![assign("n", binary(id("n"), "+", intl("1")))]),
                ),
                ret(id("n")),
            ],
        )],
    );
    let r = run_class(&mut vm, user);
    assert_eq!(r.unwrap().as_isize(&vm).unwrap(), 2);
}

#[test]
fn instance_variables_mutate() {
    let mut vm = booted_vm();
    let user = cls(
        "Ivars",
        None,
        &["count"],
        vec![m_unary(
            "run",
            &[],
            vec![
                assign("count", intl("1")),
                assign("count", binary(id("count"), "+", intl("4"))),
                ret(id("count")),
            ],
        )],
    );
    let r = run_class(&mut vm, user);
    assert_eq!(r.unwrap().as_isize(&vm).unwrap(), 5);
}

#[test]
fn int_as_string_prints() {
    let mut vm = booted_vm();
    let user = cls("Show", None, &[], vec![m_unary("run", &[], vec![unary(intl("42"), &["println"])])]);
    let r = run_class(&mut vm, user);
    assert!(r.is_val());
    assert_eq!(vm.output, "42\n");
}

#[test]
fn string_ordering() {
    // Strings are ordered lexicographically.
    let mut vm = booted_vm();
    let user = cls(
        "Ordered",
        None,
        &[],
        vec![m_unary("run", &[], vec![ret(binary(strl("apple"), "<", strl("banana")))])],
    );
    let r = run_class(&mut vm, user);
    assert_eq!(r.unwrap().val, vm.true_.val);

    let user = cls(
        "Ordered2",
        None,
        &[],
        vec![m_unary("run", &[], vec![ret(binary(strl("apple"), ">", strl("banana")))])],
    );
    let r = run_class(&mut vm, user);
    assert_eq!(r.unwrap().val, vm.false_.val);
}

#[test]
fn string_value_equality() {
    // Two distinct string objects with the same text are equal values.
    let mut vm = booted_vm();
    let user = cls(
        "StrEq",
        None,
        &[],
        vec![m_unary("run", &[], vec![ret(binary(strl("same"), "=", strl("same")))])],
    );
    let r = run_class(&mut vm, user);
    assert_eq!(r.unwrap().val, vm.true_.val);
}

#[test]
fn blocks_of_one_activation_share_their_closure() {
    // Block objects created while the same activation is current capture
    // the very same closure: their parent-closure indices are equal.
    let mut vm = booted_vm();
    let user = cls(
        "TwoBlocks",
        None,
        &[],
        vec![m_unary(
            "run",
            &["a", "b"],
            vec![
                assign("a", block(&[], &[], vec![intl("0")])),
                assign("b", block(&[], &[], vec![intl("1")])),
                ret(intl("7")),
            ],
        )],
    );
    let r = run_class(&mut vm, user);
    assert_eq!(r.unwrap().as_isize(&vm).unwrap(), 7);
    let parents: Vec<usize> = vm
        .heap
        .iter()
        .filter_map(|o| match o {
            yksom::objects::Obj::Block(b) => Some(b.parent_closure),
            _ => None,
        })
        .collect();
    assert_eq!(parents.len(), 2);
    assert_eq!(parents[0], parents[1]);
}

#[test]
fn perform_sends_by_symbol() {
    // `perform:` looks the selector up reflectively and runs the method.
    let mut vm = booted_vm();
    let mut methods = vec![
        m_prim_kw(&["perform:"], &["sel"]),
        m_unary("compute", &[], vec![ret(intl("5"))]),
    ];
    methods.push(m_unary(
        "run",
        &[],
        vec![ret(kw1(id("self"), "perform:", Expr::Symbol(lx("#compute"))))],
    ));
    let user = cls("Reflect", None, &[], methods);
    let r = run_class(&mut vm, user);
    assert_eq!(r.unwrap().as_isize(&vm).unwrap(), 5);
}

#[test]
fn string_ref_equality_is_identity() {
    // `==` is identity: a string equals itself, and two distinct string
    // objects are not `==` even with equal text (`=` compares contents).
    let mut vm = booted_vm();
    let user = cls(
        "SelfSame",
        None,
        &[],
        vec![m_unary(
            "run",
            &["s"],
            vec![assign("s", strl("z")), ret(binary(id("s"), "==", id("s")))],
        )],
    );
    let r = run_class(&mut vm, user);
    assert_eq!(r.unwrap().val, vm.true_.val);

    let user = cls(
        "Distinct",
        None,
        &[],
        vec![m_unary("run", &[], vec![ret(binary(strl("a"), "==", strl("b")))])],
    );
    let r = run_class(&mut vm, user);
    assert_eq!(r.unwrap().val, vm.false_.val);
}

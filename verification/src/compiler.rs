//! The compiler from the surface AST to a compiled class: lexical scoping
//! across nested blocks, variable resolution by (depth, slot), operand-stack
//! size prediction, and interning of message sends and string literals.

use vstd::prelude::*;

use crate::ast;
use crate::instrs::{BlockInfo, Builtin, Instr, Primitive};
use crate::numstr::parse_isize;
use crate::objects::{
    clone_string, sends_unique, string_eq, strings_unique, Class, Inst, Method, MethodBody, Obj,
};
use crate::val::Val;
use crate::vm::{same_except_heap, spec_inst_at, VM};

verus! {

/// One compile error: the lexeme it is about and the message.
#[derive(Debug)]
pub struct CompileError {
    pub lexeme: ast::Lexeme,
    pub msg: String,
}

/// A scope holds one name per slot, in slot order.
pub open spec fn scope_has(scope: Seq<String>, name: Seq<char>) -> bool {
    exists|j: int| 0 <= j < scope.len() && (#[trigger] scope[j])@ == name
}

/// The send-intern entry `j` holds the selector `text` with `nargs`
/// arguments.
pub open spec fn send_key_at(s: Seq<(String, usize)>, j: int, text: Seq<char>, nargs: int) -> bool {
    s[j].0@ == text && s[j].1 == nargs
}

/// The string-intern entry `j` holds the literal `text` of the given kind.
pub open spec fn str_key_at(s: Seq<(String, bool)>, j: int, text: Seq<char>, is_str: bool) -> bool {
    s[j].0@ == text && s[j].1 == is_str
}

/// The name resolves at depth `d` (scopes outward from the innermost) and
/// slot `n`: that scope's first slot of the name, with no inner scope
/// holding it.
pub open spec fn var_binding(vs: Seq<Vec<String>>, name: Seq<char>, d: int, n: int) -> bool {
    &&& 0 <= d < vs.len()
    &&& 0 <= n < vs[vs.len() - 1 - d]@.len()
    &&& vs[vs.len() - 1 - d]@[n]@ == name
    &&& forall|j: int| 0 <= j < n ==> (#[trigger] vs[vs.len() - 1 - d]@[j])@ != name
    &&& forall|t: int| vs.len() - d <= t < vs.len() ==> !scope_has((#[trigger] vs[t])@, name)
}

/// The name a body scope holds at slot `k`: `self` first for methods, then
/// the parameters, then the locals.
pub open spec fn scope_name_at(
    is_method: bool,
    ps: Seq<ast::Lexeme>,
    vs: Seq<ast::Lexeme>,
    k: int,
) -> Seq<char> {
    let base = if is_method {
        1int
    } else {
        0int
    };
    if k < base {
        "self"@
    } else if k < base + ps.len() {
        ps[k - base].text@
    } else {
        vs[k - base - ps.len()].text@
    }
}

/// No two slots of a body scope bear the same name (for methods this also
/// rules a parameter or local named `self` out).
pub open spec fn scope_names_ok(is_method: bool, ps: Seq<ast::Lexeme>, vs: Seq<ast::Lexeme>) -> bool {
    forall|i: int, j: int|
        0 <= i < j < (if is_method {
            1int
        } else {
            0int
        }) + ps.len() + vs.len() ==> scope_name_at(is_method, ps, vs, i) != scope_name_at(
            is_method,
            ps,
            vs,
            j,
        )
}

/// The selector a keyword send denotes: its fragments run together.
pub open spec fn spec_msglist_name(ps: Seq<(ast::Lexeme, ast::Expr)>) -> Seq<char>
    decreases ps.len(),
{
    if ps.len() == 0 {
        Seq::empty()
    } else {
        spec_msglist_name(ps.drop_last()) + ps.last().0.text@
    }
}

/// The selector a method name denotes: the operator text, the identifier,
/// or the keyword fragments run together.
pub open spec fn spec_keywords_name(ps: Seq<(ast::Lexeme, ast::Lexeme)>) -> Seq<char>
    decreases ps.len(),
{
    if ps.len() == 0 {
        Seq::empty()
    } else {
        spec_keywords_name(ps.drop_last()) + ps.last().0.text@
    }
}

/// How many parameters a method name carries.
pub open spec fn spec_selector_arity(n: ast::MethodName) -> int {
    match n {
        ast::MethodName::BinaryOp(_, arg) => if arg is Some {
            1int
        } else {
            0int
        },
        ast::MethodName::Id(_) => 0int,
        ast::MethodName::Keywords(ps) => ps@.len() as int,
    }
}

/// Some method of the table bears this name.
pub open spec fn method_name_present(ms: Seq<Method>, nm: Seq<char>) -> bool {
    exists|k: int| 0 <= k < ms.len() && (#[trigger] ms[k]).name@ == nm
}

/// The super class the resolution rule assigns: `Object` has none, a named
/// `Block`/`Boolean` super maps to the registered class, `nil` to none, and
/// an absent name to `Object`.
pub open spec fn spec_supercls(vm: VM, astcls: ast::Class) -> Option<Val> {
    if astcls.name.text@ == "Object"@ {
        None
    } else {
        match astcls.supername {
            Some(n) => if n.text@ == "Block"@ {
                Some(vm.block_cls)
            } else if n.text@ == "Boolean"@ {
                Some(vm.bool_cls)
            } else {
                None
            },
            None => Some(vm.obj_cls),
        }
    }
}

/// The selector a method name denotes.
pub open spec fn spec_selector(n: ast::MethodName) -> Seq<char> {
    match n {
        ast::MethodName::BinaryOp(op, _) => op.text@,
        ast::MethodName::Id(l) => l.text@,
        ast::MethodName::Keywords(ps) => spec_keywords_name(ps@),
    }
}

pub struct Compiler {
    /// The source path, for error reports.
    pub path: String,
    /// The flat instruction stream being emitted.
    pub instrs: Vec<Instr>,
    /// Interned message sends: repeated sends of one selector share an
    /// entry.
    pub sends: Vec<(String, usize)>,
    /// Interned string and symbol literals: repeated literals share an
    /// entry.
    pub strings: Vec<(String, bool)>,
    /// The block-compilation records of all blocks seen so far.
    pub blocks: Vec<BlockInfo>,
    /// The stack of scopes at the current point of evaluation; the
    /// outermost scope holds the instance variables.
    pub vars_stack: Vec<Vec<String>>,
    /// How many blocks the current point of evaluation is nested inside;
    /// a `^` return from inside a block becomes a non-local return.
    pub closure_depth: usize,
}

/// The instruction's table operand, if it has one, lies inside the matching
/// table.
pub open spec fn instr_operand_ok(i: Instr, c: Compiler) -> bool {
    match i {
        Instr::Send(o) => (o as int) < c.sends@.len(),
        Instr::String(o) => (o as int) < c.strings@.len(),
        Instr::Block(b) => (b as int) < c.blocks@.len(),
        _ => true,
    }
}

/// Every emitted instruction's table operand lies inside the matching
/// table.
pub open spec fn operands_bound(c: Compiler) -> bool {
    forall|k: int| 0 <= k < c.instrs@.len() ==> instr_operand_ok(#[trigger] c.instrs@[k], c)
}

/// The tables only grow, keeping what they held, and an interned table that
/// held no duplicate still holds none.
pub open spec fn tables_evolve(pre: Compiler, post: Compiler) -> bool {
    &&& post.path@ == pre.path@
    &&& post.instrs@.len() >= pre.instrs@.len()
    &&& post.instrs@.subrange(0, pre.instrs@.len() as int) == pre.instrs@
    &&& post.sends@.len() >= pre.sends@.len()
    &&& post.sends@.subrange(0, pre.sends@.len() as int) == pre.sends@
    &&& post.strings@.len() >= pre.strings@.len()
    &&& post.strings@.subrange(0, pre.strings@.len() as int) == pre.strings@
    &&& post.blocks@.len() >= pre.blocks@.len()
    &&& post.blocks@.subrange(0, pre.blocks@.len() as int) == pre.blocks@
    &&& sends_unique(pre.sends@) ==> sends_unique(post.sends@)
    &&& strings_unique(pre.strings@) ==> strings_unique(post.strings@)
    &&& operands_bound(pre) ==> operands_bound(post)
}

/// As `tables_evolve`, with the scope stack and nesting depth restored.
pub open spec fn evolves(pre: Compiler, post: Compiler) -> bool {
    &&& tables_evolve(pre, post)
    &&& post.vars_stack@ == pre.vars_stack@
    &&& post.closure_depth == pre.closure_depth
}

/// Table evolution is reflexive.
pub proof fn lemma_evolves_refl(c: Compiler)
    ensures
        evolves(c, c),
{
    assert(c.instrs@.subrange(0, c.instrs@.len() as int) =~= c.instrs@);
    assert(c.sends@.subrange(0, c.sends@.len() as int) =~= c.sends@);
    assert(c.strings@.subrange(0, c.strings@.len() as int) =~= c.strings@);
    assert(c.blocks@.subrange(0, c.blocks@.len() as int) =~= c.blocks@);
}

/// Table evolution composes.
pub proof fn lemma_tables_evolve_trans(a: Compiler, b: Compiler, c: Compiler)
    requires
        tables_evolve(a, b),
        tables_evolve(b, c),
    ensures
        tables_evolve(a, c),
{
    assert(c.instrs@.subrange(0, a.instrs@.len() as int) =~= a.instrs@);
    assert(c.sends@.subrange(0, a.sends@.len() as int) =~= a.sends@);
    assert(c.strings@.subrange(0, a.strings@.len() as int) =~= a.strings@);
    assert(c.blocks@.subrange(0, a.blocks@.len() as int) =~= a.blocks@);
}

/// The larger of two sizes.
fn umax(a: usize, b: usize) -> (r: usize)
    ensures
        r == (if a >= b {
            a
        } else {
            b
        }),
{
    if a >= b {
        a
    } else {
        b
    }
}

/// Does the string hold exactly this text?
fn str_is(name: &String, lit: &str) -> (r: bool)
    ensures
        r == (name@ == lit@),
{
    let l = String::from_str(lit);
    string_eq(name, &l)
}

/// A copy of a lexeme.
fn clone_lexeme(l: &ast::Lexeme) -> (r: ast::Lexeme)
    ensures
        r.text@ == l.text@,
        r.line == l.line,
        r.col == l.col,
{
    ast::Lexeme { text: clone_string(&l.text), line: l.line, col: l.col }
}

/// One compile error about `lexeme`, with a message built from the three
/// pieces.
fn one_error(lexeme: &ast::Lexeme, pre: &str, mid: &str, post: &str) -> (r: Vec<CompileError>)
    ensures
        r@.len() == 1,
        r@[0].lexeme.text@ == lexeme.text@,
        r@[0].msg@ == pre@ + mid@ + post@,
{
    let mut msg = String::from_str(pre);
    msg.append(mid);
    msg.append(post);
    vec![CompileError { lexeme: clone_lexeme(lexeme), msg }]
}

impl Compiler {
    /// A compiler with empty tables for the class at `path`.
    pub fn new(path: &str) -> (r: Compiler)
        ensures
            r.path@ == path@,
            r.instrs@.len() == 0,
            r.sends@.len() == 0,
            r.strings@.len() == 0,
            r.blocks@.len() == 0,
            r.vars_stack@.len() == 0,
            r.closure_depth == 0,
    {
        Compiler {
            path: path.to_owned(),
            instrs: Vec::new(),
            sends: Vec::new(),
            strings: Vec::new(),
            blocks: Vec::new(),
            vars_stack: Vec::new(),
            closure_depth: 0,
        }
    }

    /// Intern the string literal `c`: the index of the entry already
    /// holding it, or of a fresh entry at the end.
    pub fn string_off(&mut self, c: String, is_str: bool) -> (r: usize)
        ensures
            evolves(*old(self), *final(self)),
            final(self).instrs@ == old(self).instrs@,
            final(self).sends@ == old(self).sends@,
            final(self).blocks@ == old(self).blocks@,
            r < final(self).strings@.len(),
            str_key_at(final(self).strings@, r as int, c@, is_str),
            forall|j: int| 0 <= j < r ==> !str_key_at(final(self).strings@, j, c@, is_str),
            (exists|j: int|
                0 <= j < old(self).strings@.len() && str_key_at(
                    old(self).strings@,
                    j,
                    c@,
                    is_str,
                )) ==> *final(self) == *old(self),
            !(exists|j: int|
                0 <= j < old(self).strings@.len() && str_key_at(
                    old(self).strings@,
                    j,
                    c@,
                    is_str,
                )) ==> final(self).strings@ == old(self).strings@.push((c, is_str)) && r == old(self).strings@.len(),
    {
        let mut j: usize = 0;
        while j < self.strings.len()
            invariant
                *self == *old(self),
                j <= self.strings@.len(),
                forall|k: int| 0 <= k < j ==> !str_key_at(self.strings@, k, c@, is_str),
            decreases self.strings@.len() - j,
        {
            if string_eq(&self.strings[j].0, &c) && self.strings[j].1 == is_str {
                proof {
                    lemma_evolves_refl(*self);
                    assert(str_key_at(old(self).strings@, j as int, c@, is_str));
                }
                return j;
            }
            j = j + 1;
        }
        let off = self.strings.len();
        let ghost ckey = c;
        self.strings.push((c, is_str));
        proof {
            assert(self.strings@.subrange(0, old(self).strings@.len() as int) =~= old(self).strings@);
            assert(forall|k: int|
                0 <= k < old(self).strings@.len() ==> self.strings@[k] == old(self).strings@[k]);
            assert forall|k: int| 0 <= k < off implies !str_key_at(
                self.strings@,
                k,
                ckey@,
                is_str,
            ) by {
                assert(!str_key_at(old(self).strings@, k, ckey@, is_str));
                assert(self.strings@[k] == old(self).strings@[k]);
            }
            assert(self.instrs@.subrange(0, old(self).instrs@.len() as int) =~= old(self).instrs@);
            assert(self.sends@.subrange(0, old(self).sends@.len() as int) =~= old(self).sends@);
            assert(self.blocks@.subrange(0, old(self).blocks@.len() as int) =~= old(self).blocks@);
            if strings_unique(old(self).strings@) {
                assert forall|x: int, y: int|
                    0 <= x < y < self.strings@.len() implies !(self.strings@[x].0@
                    == self.strings@[y].0@ && self.strings@[x].1 == self.strings@[y].1) by {
                    if y == old(self).strings@.len() {
                        assert(!str_key_at(old(self).strings@, x, c@, is_str));
                    }
                }
            }
        }
        off
    }

    /// Intern the send `(selector, argument count)`: the index of the entry
    /// already holding it, or of a fresh entry at the end.
    pub fn send_off(&mut self, m: (String, usize)) -> (r: usize)
        ensures
            evolves(*old(self), *final(self)),
            final(self).instrs@ == old(self).instrs@,
            final(self).strings@ == old(self).strings@,
            final(self).blocks@ == old(self).blocks@,
            r < final(self).sends@.len(),
            send_key_at(final(self).sends@, r as int, m.0@, m.1 as int),
            forall|j: int| 0 <= j < r ==> !send_key_at(final(self).sends@, j, m.0@, m.1 as int),
            (exists|j: int|
                0 <= j < old(self).sends@.len() && send_key_at(
                    old(self).sends@,
                    j,
                    m.0@,
                    m.1 as int,
                )) ==> *final(self) == *old(self),
            !(exists|j: int|
                0 <= j < old(self).sends@.len() && send_key_at(
                    old(self).sends@,
                    j,
                    m.0@,
                    m.1 as int,
                )) ==> final(self).sends@ == old(self).sends@.push(m) && r == old(self).sends@.len(),
    {
        let mut j: usize = 0;
        while j < self.sends.len()
            invariant
                *self == *old(self),
                j <= self.sends@.len(),
                forall|k: int| 0 <= k < j ==> !send_key_at(self.sends@, k, m.0@, m.1 as int),
            decreases self.sends@.len() - j,
        {
            if string_eq(&self.sends[j].0, &m.0) && self.sends[j].1 == m.1 {
                proof {
                    lemma_evolves_refl(*self);
                    assert(send_key_at(old(self).sends@, j as int, m.0@, m.1 as int));
                }
                return j;
            }
            j = j + 1;
        }
        let off = self.sends.len();
        let ghost mkey = m;
        self.sends.push(m);
        proof {
            assert(self.sends@.subrange(0, old(self).sends@.len() as int) =~= old(self).sends@);
            assert(self.blocks@.subrange(0, old(self).blocks@.len() as int) =~= old(self).blocks@);
            assert(self.instrs@.subrange(0, old(self).instrs@.len() as int) =~= old(self).instrs@);
            assert(self.strings@.subrange(0, old(self).strings@.len() as int) =~= old(self).strings@);
            assert(forall|k: int|
                0 <= k < old(self).sends@.len() ==> self.sends@[k] == old(self).sends@[k]);
            assert(send_key_at(self.sends@, off as int, mkey.0@, mkey.1 as int));
            assert forall|k: int| 0 <= k < off implies !send_key_at(
                self.sends@,
                k,
                mkey.0@,
                mkey.1 as int,
            ) by {
                assert(!send_key_at(old(self).sends@, k, mkey.0@, mkey.1 as int));
                assert(self.sends@[k] == old(self).sends@[k]);
            }
            assert(self.instrs@.subrange(0, old(self).instrs@.len() as int) =~= old(self).instrs@);
            assert(self.strings@.subrange(0, old(self).strings@.len() as int) =~= old(self).strings@);
            if sends_unique(old(self).sends@) {
                assert forall|x: int, y: int|
                    0 <= x < y < self.sends@.len() implies !(self.sends@[x].0@
                    == self.sends@[y].0@ && self.sends@[x].1 == self.sends@[y].1) by {
                    if y == old(self).sends@.len() {
                        assert(!send_key_at(old(self).sends@, x, self.sends@[y].0@, self.sends@[y].1 as int));
                    }
                }
            }
        }
        off
    }

    /// Find the name in the scope stack: `Ok((depth, slot))` where `depth`
    /// counts scopes outward from the innermost and `slot` is the first
    /// slot of that name in the scope found; no inner scope holds the name.
    pub fn find_var(&self, lexeme: &ast::Lexeme) -> (r: Result<(usize, usize), Vec<CompileError>>)
        ensures
            match r {
                Ok((d, n)) => var_binding(self.vars_stack@, lexeme.text@, d as int, n as int),
                Err(es) => {
                    &&& forall|t: int|
                        0 <= t < self.vars_stack@.len() ==> !scope_has(
                            (#[trigger] self.vars_stack@[t])@,
                            lexeme.text@,
                        )
                    &&& es@.len() == 1
                    &&& es@[0].lexeme.text@ == lexeme.text@
                    &&& es@[0].msg@ == "Unknown variable '"@ + lexeme.text@ + "'"@
                },
            },
    {
        let len = self.vars_stack.len();
        let mut d: usize = 0;
        while d < len
            invariant
                len == self.vars_stack@.len(),
                d <= len,
                forall|t: int|
                    len - d <= t < len ==> !scope_has(
                        (#[trigger] self.vars_stack@[t])@,
                        lexeme.text@,
                    ),
            decreases len - d,
        {
            let scope = &self.vars_stack[len - 1 - d];
            let mut n: usize = 0;
            while n < scope.len()
                invariant
                    len == self.vars_stack@.len(),
                    d < len,
                    scope@ == self.vars_stack@[len - 1 - d]@,
                    n <= scope@.len(),
                    forall|t: int|
                        len - d <= t < len ==> !scope_has(
                            (#[trigger] self.vars_stack@[t])@,
                            lexeme.text@,
                        ),
                    forall|j: int| 0 <= j < n ==> (#[trigger] scope@[j])@ != lexeme.text@,
                decreases scope@.len() - n,
            {
                if string_eq(&scope[n], &lexeme.text) {
                    proof {
                        let sc = self.vars_stack@[self.vars_stack@.len() - 1 - d]@;
                        assert(d < self.vars_stack@.len());
                        assert(sc[n as int]@ == lexeme.text@);
                        assert(forall|j: int|
                            0 <= j < n ==> (#[trigger] sc[j])@ != lexeme.text@);
                        assert(forall|t: int|
                            self.vars_stack@.len() - d <= t < self.vars_stack@.len()
                                ==> !scope_has(
                                (#[trigger] self.vars_stack@[t])@,
                                lexeme.text@,
                            ));
                    }
                    return Ok((d, n));
                }
                n = n + 1;
            }
            d = d + 1;
        }
        Err(one_error(lexeme, "Unknown variable '", lexeme.text.as_str(), "'"))
    }
}

/// Evolution with restored scopes composes.
pub proof fn lemma_evolves_trans(a: Compiler, b: Compiler, c: Compiler)
    requires
        evolves(a, b),
        evolves(b, c),
    ensures
        evolves(a, c),
{
    lemma_tables_evolve_trans(a, b, c);
}

impl Compiler {
    /// Append one instruction to the stream; its table operand, if any,
    /// must already be backed by its table.
    fn emit(&mut self, i: Instr)
        requires
            instr_operand_ok(i, *old(self)),
        ensures
            evolves(*old(self), *final(self)),
            final(self).instrs@ == old(self).instrs@.push(i),
            final(self).sends@ == old(self).sends@,
            final(self).strings@ == old(self).strings@,
            final(self).blocks@ == old(self).blocks@,
    {
        self.instrs.push(i);
        proof {
            assert(self.instrs@.subrange(0, old(self).instrs@.len() as int) =~= old(self).instrs@);
            assert(self.sends@.subrange(0, old(self).sends@.len() as int) =~= old(self).sends@);
            assert(self.strings@.subrange(0, old(self).strings@.len() as int) =~= old(self).strings@);
            assert(self.blocks@.subrange(0, old(self).blocks@.len() as int) =~= old(self).blocks@);
            if operands_bound(*old(self)) {
                assert forall|k: int|
                    0 <= k < self.instrs@.len() implies instr_operand_ok(
                    #[trigger] self.instrs@[k],
                    *self,
                ) by {
                    if k < old(self).instrs@.len() {
                        assert(instr_operand_ok(old(self).instrs@[k], *old(self)));
                    }
                }
            }
        }
    }

    /// Compile one expression, emitting its code and returning the operand
    /// stack size its evaluation needs.
    #[verifier::loop_isolation(false)]
    #[verifier::rlimit(60)]
    pub fn c_expr(&mut self, expr: &ast::Expr) -> (r: Result<usize, Vec<CompileError>>)
        ensures
            evolves(*old(self), *final(self)),
            r is Ok ==> r->Ok_0 >= 1,
            r is Err ==> r->Err_0@.len() > 0,
            ({
                let pre = *old(self);
                let post = *final(self);
                match expr {
                    ast::Expr::Assign { id, expr: _ } => r is Ok ==> post.instrs@.len()
                        > pre.instrs@.len() && (match post.instrs@.last() {
                        Instr::InstVarSet(n) => var_binding(
                            pre.vars_stack@,
                            id.text@,
                            pre.vars_stack@.len() - 1,
                            n as int,
                        ),
                        Instr::VarSet(d, n) => var_binding(
                            pre.vars_stack@,
                            id.text@,
                            d as int,
                            n as int,
                        ) && (d as int) < pre.vars_stack@.len() - 1,
                        _ => false,
                    }),
                    ast::Expr::BinaryMsg { lhs: _, op, rhs: _ } => r is Ok ==> post.instrs@.len()
                        > pre.instrs@.len() && (match post.instrs@.last() {
                        Instr::Send(off) => off < post.sends@.len() && send_key_at(
                            post.sends@,
                            off as int,
                            op.text@,
                            1,
                        ),
                        _ => false,
                    }),
                    ast::Expr::Block { params, vars: _, exprs: _ } => r is Ok ==> {
                        &&& post.instrs@.len() > pre.instrs@.len()
                        &&& post.instrs@[pre.instrs@.len() as int] == Instr::Block(
                            pre.blocks@.len() as usize,
                        )
                        &&& pre.blocks@.len() < post.blocks@.len()
                        &&& ({
                            let bi = post.blocks@[pre.blocks@.len() as int];
                            &&& bi.num_params == params@.len()
                            &&& bi.bytecode_off == pre.instrs@.len() + 1
                            &&& bi.bytecode_end == post.instrs@.len()
                        })
                    },
                    ast::Expr::Int { is_negative, val } => {
                        &&& (r is Ok <==> crate::numstr::spec_all_digits(val.text@)
                            && crate::numstr::spec_digits_val(val.text@) <= isize::MAX as int)
                        &&& r is Ok ==> post.instrs@.len() == pre.instrs@.len() + 1 && (match post.instrs@.last() {
                            Instr::Int(v) => v as int == (if *is_negative {
                                -crate::numstr::spec_digits_val(val.text@)
                            } else {
                                crate::numstr::spec_digits_val(val.text@)
                            }),
                            _ => false,
                        })
                    },
                    ast::Expr::KeywordMsg { receiver: _, msglist } => r is Ok
                        ==> post.instrs@.len() > pre.instrs@.len() && (match post.instrs@.last() {
                        Instr::Send(off) => off < post.sends@.len() && send_key_at(
                            post.sends@,
                            off as int,
                            spec_msglist_name(msglist@),
                            msglist@.len() as int,
                        ),
                        _ => false,
                    }),
                    ast::Expr::UnaryMsg { receiver: _, ids } => (r is Ok && ids@.len() > 0)
                        ==> post.instrs@.len() > pre.instrs@.len() && (match post.instrs@.last() {
                        Instr::Send(off) => off < post.sends@.len() && send_key_at(
                            post.sends@,
                            off as int,
                            ids@.last().text@,
                            0,
                        ),
                        _ => false,
                    }),
                    ast::Expr::Return(_) => r is Ok ==> post.instrs@.len() > pre.instrs@.len()
                        && post.instrs@.last() == (if pre.closure_depth == 0 {
                        Instr::Return
                    } else {
                        Instr::ClosureReturn(pre.closure_depth)
                    }),
                    ast::Expr::String(lexeme) => {
                        &&& lexeme.text@.len() >= 2 ==> r is Ok
                        &&& r is Ok ==> post.instrs@.len() == pre.instrs@.len() + 1 && (match post.instrs@.last() {
                            Instr::String(off) => off < post.strings@.len()
                                && post.strings@[off as int].1 == true
                                && post.strings@[off as int].0@ == lexeme.text@.subrange(
                                1,
                                lexeme.text@.len() - 1,
                            ),
                            _ => false,
                        })
                    },
                    ast::Expr::Symbol(_) => r is Ok ==> post.instrs@.len() == pre.instrs@.len()
                        + 1 && (match post.instrs@.last() {
                        Instr::String(off) => off < post.strings@.len()
                            && post.strings@[off as int].1 == false,
                        _ => false,
                    }),
                    ast::Expr::VarLookup(lexeme) => {
                        &&& ((exists|t: int|
                            0 <= t < pre.vars_stack@.len() && #[trigger] scope_has(
                                pre.vars_stack@[t]@,
                                lexeme.text@,
                            )) || lexeme.text@ == "nil"@ || lexeme.text@ == "false"@
                            || lexeme.text@ == "system"@ || lexeme.text@ == "true"@) ==> r is Ok
                        &&& r is Ok ==> post.instrs@.len() == pre.instrs@.len() + 1 && (match post.instrs@.last() {
                            Instr::InstVarLookup(n) => var_binding(
                                pre.vars_stack@,
                                lexeme.text@,
                                pre.vars_stack@.len() - 1,
                                n as int,
                            ),
                            Instr::VarLookup(d, n) => var_binding(
                                pre.vars_stack@,
                                lexeme.text@,
                                d as int,
                                n as int,
                            ) && (d as int) < pre.vars_stack@.len() - 1,
                            Instr::Builtin(b) => lexeme.text@ == (match b {
                                Builtin::Nil => "nil"@,
                                Builtin::False => "false"@,
                                Builtin::System => "system"@,
                                Builtin::True => "true"@,
                            }),
                            _ => false,
                        })
                    },
                }
            }),
        decreases *expr, 1int,
    {
        let ghost c0 = *self;
        match expr {
            ast::Expr::Assign { id, expr: rhs } => {
                let (depth, var_num) = match self.find_var(id) {
                    Ok(t) => t,
                    Err(e) => {
                        proof {
                            lemma_evolves_refl(*self);
                        }
                        return Err(e);
                    },
                };
                let max_stack = match self.c_expr(rhs) {
                    Ok(v) => v,
                    Err(e) => {
                        return Err(e);
                    },
                };
                let ghost c1 = *self;
                if depth == self.vars_stack.len() - 1 {
                    self.emit(Instr::InstVarSet(var_num));
                } else {
                    self.emit(Instr::VarSet(depth, var_num));
                }
                proof {
                    lemma_evolves_trans(c0, c1, *self);
                }
                Ok(max_stack)
            },
            ast::Expr::BinaryMsg { lhs, op, rhs } => {
                let lhs_stack = match self.c_expr(lhs) {
                    Ok(v) => v,
                    Err(e) => {
                        return Err(e);
                    },
                };
                let ghost c1 = *self;
                let rhs_stack = match self.c_expr(rhs) {
                    Ok(v) => v,
                    Err(e) => {
                        proof {
                            lemma_evolves_trans(c0, c1, *self);
                        }
                        return Err(e);
                    },
                };
                let ghost c2 = *self;
                let bumped = match rhs_stack.checked_add(1) {
                    Some(v) => v,
                    None => {
                        proof {
                            lemma_evolves_trans(c0, c1, *self);
                        }
                        return Err(one_error(op, "Expression '", op.text.as_str(), "' too large"));
                    },
                };
                let stack_size = umax(lhs_stack, bumped);
                let off = self.send_off((clone_string(&op.text), 1));
                let ghost c3 = *self;
                self.emit(Instr::Send(off));
                proof {
                    lemma_evolves_trans(c0, c1, c2);
                    lemma_evolves_trans(c0, c2, c3);
                    lemma_evolves_trans(c0, c3, *self);
                }
                Ok(stack_size)
            },
            ast::Expr::Block { params, vars, exprs } => {
                let block_off = self.blocks.len();
                let bi = BlockInfo {
                    bytecode_off: 0,
                    bytecode_end: 0,
                    num_params: params.len(),
                    num_vars: 0,
                    max_stack: 0,
                };
                self.blocks.push(bi);
                self.emit(Instr::Block(block_off));
                let body_off = self.instrs.len();
                let ghost c1 = *self;
                proof {
                    assert(self.blocks@.subrange(0, c0.blocks@.len() as int) =~= c0.blocks@);
                }
                if self.closure_depth == usize::MAX {
                    let l = ast::Lexeme { text: String::from_str("["), line: 0, col: 0 };
                    proof {
                        lemma_evolves_refl(c1);
                        lemma_evolves_trans(c0, c1, *self);
                    }
                    return Err(one_error(&l, "Blocks nested too deeply", "", ""));
                }
                self.closure_depth = self.closure_depth + 1;
                let res = self.c_block(false, params, vars, exprs);
                self.closure_depth = self.closure_depth - 1;
                let ghost c2 = *self;
                let (num_vars, max_stack) = match res {
                    Ok(t) => t,
                    Err(e) => {
                        proof {
                            lemma_tables_evolve_trans(c0, c1, *self);
                        }
                        return Err(e);
                    },
                };
                proof {
                    assert(c2.blocks@.subrange(0, c1.blocks@.len() as int) == c1.blocks@);
                    assert(c2.blocks@[block_off as int] == c2.blocks@.subrange(
                        0,
                        c1.blocks@.len() as int,
                    )[block_off as int]);
                    assert(c2.instrs@.subrange(0, c1.instrs@.len() as int) == c1.instrs@);
                    assert(c2.instrs@[c0.instrs@.len() as int] == c2.instrs@.subrange(
                        0,
                        c1.instrs@.len() as int,
                    )[c0.instrs@.len() as int]);
                }
                let old_bi = self.blocks[block_off];
                let nb = BlockInfo {
                    bytecode_off: body_off,
                    bytecode_end: self.instrs.len(),
                    num_params: old_bi.num_params,
                    num_vars,
                    max_stack,
                };
                self.blocks.set(block_off, nb);
                proof {
                    lemma_tables_evolve_trans(c0, c1, c2);
                    assert(self.blocks@.subrange(0, c0.blocks@.len() as int) =~= c2.blocks@.subrange(
                        0,
                        c0.blocks@.len() as int,
                    ));
                    assert(self.blocks@.subrange(0, c0.blocks@.len() as int) =~= c2.blocks@.subrange(
                        0,
                        c0.blocks@.len() as int,
                    ));
                    assert(self.instrs@.subrange(0, c0.instrs@.len() as int) =~= c2.instrs@.subrange(
                        0,
                        c0.instrs@.len() as int,
                    ));
                    assert(self.sends@.subrange(0, c0.sends@.len() as int) =~= c2.sends@.subrange(
                        0,
                        c0.sends@.len() as int,
                    ));
                    assert(self.strings@.subrange(0, c0.strings@.len() as int)
                        =~= c2.strings@.subrange(0, c0.strings@.len() as int));
                }
                Ok(1)
            },
            ast::Expr::Int { is_negative, val } => {
                match parse_isize(val.text.as_str()) {
                    Some(i) => {
                        let lit: isize = if *is_negative {
                            (0isize) - i
                        } else {
                            i
                        };
                        self.emit(Instr::Int(lit));
                        Ok(1)
                    },
                    None => {
                        proof {
                            lemma_evolves_refl(*self);
                        }
                        Err(one_error(val, "Invalid integer literal '", val.text.as_str(), "'"))
                    },
                }
            },
            ast::Expr::KeywordMsg { receiver, msglist } => {
                let mut max_stack = match self.c_expr(receiver) {
                    Ok(v) => v,
                    Err(e) => {
                        return Err(e);
                    },
                };
                let mut mn = String::new();
                let mut i: usize = 0;
                let ghost cbase = *self;
                proof {
                    lemma_evolves_refl(*self);
                }
                while i < msglist.len()
                    invariant
                        evolves(c0, *self),
                        evolves(cbase, *self),
                        max_stack >= 1,
                        i <= msglist@.len(),
                        mn@ == spec_msglist_name(msglist@.subrange(0, i as int)),
                    decreases msglist@.len() - i,
                {
                    let ghost cl = *self;
                    mn.append(msglist[i].0.text.as_str());
                    proof {
                        assert(msglist@.subrange(0, i + 1).drop_last() =~= msglist@.subrange(
                            0,
                            i as int,
                        ));
                    }
                    proof {
                        assert(*msglist == expr->KeywordMsg_msglist);
                        assert(decreases_to!(*expr => expr->KeywordMsg_msglist));
                        assert(decreases_to!(*msglist => msglist@));
                        assert(decreases_to!(msglist@ => msglist@[i as int]));
                        assert(decreases_to!(msglist@[i as int] => msglist@[i as int].1));
                    }
                    let expr_stack = match self.c_expr(&msglist[i].1) {
                        Ok(v) => v,
                        Err(e) => {
                            proof {
                                lemma_evolves_trans(c0, cl, *self);
                            }
                            return Err(e);
                        },
                    };
                    let bump = match (1usize).checked_add(i) {
                        Some(v) => v.checked_add(expr_stack),
                        None => None,
                    };
                    let bumped = match bump {
                        Some(v) => v,
                        None => {
                            proof {
                                lemma_evolves_trans(c0, cl, *self);
                            }
                            return Err(
                                one_error(
                                    &msglist[i].0,
                                    "Expression '",
                                    msglist[i].0.text.as_str(),
                                    "' too large",
                                ),
                            );
                        },
                    };
                    max_stack = umax(max_stack, bumped);
                    i = i + 1;
                    proof {
                        lemma_evolves_trans(c0, cl, *self);
                        lemma_evolves_trans(cbase, cl, *self);
                    }
                }
                proof {
                    assert(msglist@.subrange(0, msglist@.len() as int) =~= msglist@);
                }
                let ghost c2 = *self;
                let off = self.send_off((mn, msglist.len()));
                let ghost c3 = *self;
                self.emit(Instr::Send(off));
                proof {
                    lemma_evolves_trans(c0, c2, c3);
                    lemma_evolves_trans(c0, c3, *self);
                }
                Ok(max_stack)
            },
            ast::Expr::UnaryMsg { receiver, ids } => {
                let max_stack = match self.c_expr(receiver) {
                    Ok(v) => v,
                    Err(e) => {
                        return Err(e);
                    },
                };
                let mut i: usize = 0;
                while i < ids.len()
                    invariant
                        evolves(c0, *self),
                        i <= ids@.len(),
                        i > 0 ==> self.instrs@.len() > c0.instrs@.len() && (match self.instrs@.last() {
                            Instr::Send(off) => off < self.sends@.len() && send_key_at(
                                self.sends@,
                                off as int,
                                ids@[i - 1].text@,
                                0,
                            ),
                            _ => false,
                        }),
                    decreases ids@.len() - i,
                {
                    let ghost cl = *self;
                    let off = self.send_off((clone_string(&ids[i].text), 0));
                    let ghost cm = *self;
                    self.emit(Instr::Send(off));
                    i = i + 1;
                    proof {
                        lemma_evolves_trans(cl, cm, *self);
                        lemma_evolves_trans(c0, cl, *self);
                    }
                }
                Ok(max_stack)
            },
            ast::Expr::Return(inner) => {
                let max_stack = match self.c_expr(inner) {
                    Ok(v) => v,
                    Err(e) => {
                        return Err(e);
                    },
                };
                let ghost c1 = *self;
                if self.closure_depth == 0 {
                    self.emit(Instr::Return);
                } else {
                    self.emit(Instr::ClosureReturn(self.closure_depth));
                }
                proof {
                    lemma_evolves_trans(c0, c1, *self);
                }
                Ok(max_stack)
            },
            ast::Expr::String(lexeme) => {
                let n = lexeme.text.as_str().unicode_len();
                if n < 2 {
                    proof {
                        lemma_evolves_refl(*self);
                    }
                    return Err(
                        one_error(lexeme, "Malformed string literal '", lexeme.text.as_str(), "'"),
                    );
                }
                let stripped = lexeme.text.as_str().substring_char(1, n - 1).to_owned();
                let off = self.string_off(stripped, true);
                let ghost c1 = *self;
                self.emit(Instr::String(off));
                proof {
                    lemma_evolves_trans(c0, c1, *self);
                }
                Ok(1)
            },
            ast::Expr::Symbol(lexeme) => {
                let n = lexeme.text.as_str().unicode_len();
                if n < 1 {
                    proof {
                        lemma_evolves_refl(*self);
                    }
                    return Err(
                        one_error(lexeme, "Malformed symbol literal '", lexeme.text.as_str(), "'"),
                    );
                }
                let bare = lexeme.text.as_str().substring_char(1, n).to_owned();
                let m = bare.as_str().unicode_len();
                let stripped = if m >= 2 && bare.as_str().get_char(0) == '\'' && bare.as_str().get_char(m - 1) == '\'' {
                    bare.as_str().substring_char(1, m - 1).to_owned()
                } else {
                    bare
                };
                let off = self.string_off(stripped, false);
                let ghost c1 = *self;
                self.emit(Instr::String(off));
                proof {
                    lemma_evolves_trans(c0, c1, *self);
                }
                Ok(1)
            },
            ast::Expr::VarLookup(lexeme) => {
                match self.find_var(lexeme) {
                    Ok((depth, var_num)) => {
                        if depth == self.vars_stack.len() - 1 {
                            self.emit(Instr::InstVarLookup(var_num));
                        } else {
                            self.emit(Instr::VarLookup(depth, var_num));
                        }
                    },
                    Err(e) => {
                        if str_is(&lexeme.text, "nil") {
                            self.emit(Instr::Builtin(Builtin::Nil));
                        } else if str_is(&lexeme.text, "false") {
                            self.emit(Instr::Builtin(Builtin::False));
                        } else if str_is(&lexeme.text, "system") {
                            self.emit(Instr::Builtin(Builtin::System));
                        } else if str_is(&lexeme.text, "true") {
                            self.emit(Instr::Builtin(Builtin::True));
                        } else {
                            proof {
                                lemma_evolves_refl(*self);
                            }
                            return Err(e);
                        }
                    },
                }
                Ok(1)
            },
        }
    }

    /// Compile a method or block body: open a scope (with `self` in slot
    /// zero for methods), emit each expression with a `Pop` between
    /// statements, and end with a `Return` (methods first re-push `self`).
    #[verifier::loop_isolation(false)]
    #[verifier::rlimit(60)]
    pub fn c_block(
        &mut self,
        is_method: bool,
        params: &Vec<ast::Lexeme>,
        vars_lexemes: &Vec<ast::Lexeme>,
        exprs: &Vec<ast::Expr>,
    ) -> (r: Result<(usize, usize), Vec<CompileError>>)
        ensures
            evolves(*old(self), *final(self)),
            r is Err ==> r->Err_0@.len() > 0,
            r is Ok ==> r->Ok_0.0 == (if is_method {
                1int
            } else {
                0int
            }) + params@.len() + vars_lexemes@.len(),
            r is Ok ==> final(self).instrs@.len() > old(self).instrs@.len() && final(self).instrs@.last() == Instr::Return,
            (r is Ok && is_method) ==> final(self).instrs@.len() >= old(self).instrs@.len() + 3
                && final(self).instrs@[final(self).instrs@.len() - 3] == Instr::Pop && final(self).instrs@[final(self).instrs@.len() - 2] == Instr::VarLookup(0, 0),
            (exprs@.len() == 0 && scope_names_ok(is_method, params@, vars_lexemes@)) ==> r is Ok,
        decreases *exprs, 2int,
    {
        let ghost c0 = *self;
        let mut scope: Vec<String> = Vec::new();
        if is_method {
            scope.push(String::from_str("self"));
        }
        let mut pi: usize = 0;
        while pi < params.len()
            invariant
                scope@.len() == (if is_method {
                    1int
                } else {
                    0int
                }) + pi,
                pi <= params@.len(),
                forall|k: int|
                    0 <= k < scope@.len() ==> (#[trigger] scope@[k])@ == scope_name_at(
                        is_method,
                        params@,
                        vars_lexemes@,
                        k,
                    ),
            decreases params@.len() - pi,
        {
            let mut j: usize = 0;
            let mut dup = false;
            while j < scope.len()
                invariant
                    pi < params@.len(),
                    j <= scope@.len(),
                    dup ==> exists|j0: int|
                        0 <= j0 < j && (#[trigger] scope@[j0])@ == params@[pi as int].text@,
                decreases scope@.len() - j,
            {
                if string_eq(&scope[j], &params[pi].text) {
                    dup = true;
                }
                j = j + 1;
            }
            if dup {
                proof {
                    lemma_evolves_refl(*self);
                    let j0 = choose|j0: int|
                        0 <= j0 < scope@.len() && (#[trigger] scope@[j0])@
                            == params@[pi as int].text@;
                    assert(scope_name_at(is_method, params@, vars_lexemes@, j0) == scope_name_at(
                        is_method,
                        params@,
                        vars_lexemes@,
                        scope@.len() as int,
                    ));
                }
                return Err(
                    one_error(
                        &params[pi],
                        "Variable '",
                        params[pi].text.as_str(),
                        "' shadows another of the same name",
                    ),
                );
            }
            scope.push(clone_string(&params[pi].text));
            pi = pi + 1;
        }
        let mut vi: usize = 0;
        while vi < vars_lexemes.len()
            invariant
                scope@.len() == (if is_method {
                    1int
                } else {
                    0int
                }) + params@.len() + vi,
                vi <= vars_lexemes@.len(),
                forall|k: int|
                    0 <= k < scope@.len() ==> (#[trigger] scope@[k])@ == scope_name_at(
                        is_method,
                        params@,
                        vars_lexemes@,
                        k,
                    ),
            decreases vars_lexemes@.len() - vi,
        {
            let mut j: usize = 0;
            let mut dup = false;
            while j < scope.len()
                invariant
                    vi < vars_lexemes@.len(),
                    j <= scope@.len(),
                    dup ==> exists|j0: int|
                        0 <= j0 < j && (#[trigger] scope@[j0])@ == vars_lexemes@[vi as int].text@,
                decreases scope@.len() - j,
            {
                if string_eq(&scope[j], &vars_lexemes[vi].text) {
                    dup = true;
                }
                j = j + 1;
            }
            if dup {
                proof {
                    lemma_evolves_refl(*self);
                    let j0 = choose|j0: int|
                        0 <= j0 < scope@.len() && (#[trigger] scope@[j0])@
                            == vars_lexemes@[vi as int].text@;
                    assert(scope_name_at(is_method, params@, vars_lexemes@, j0) == scope_name_at(
                        is_method,
                        params@,
                        vars_lexemes@,
                        scope@.len() as int,
                    ));
                }
                return Err(
                    one_error(
                        &vars_lexemes[vi],
                        "Variable '",
                        vars_lexemes[vi].text.as_str(),
                        "' shadows another of the same name",
                    ),
                );
            }
            scope.push(clone_string(&vars_lexemes[vi].text));
            vi = vi + 1;
        }
        let num_vars = scope.len();
        self.vars_stack.push(scope);
        let ghost c1 = *self;
        proof {
            assert(self.instrs@.subrange(0, c0.instrs@.len() as int) =~= c0.instrs@);
            assert(self.sends@.subrange(0, c0.sends@.len() as int) =~= c0.sends@);
            assert(self.strings@.subrange(0, c0.strings@.len() as int) =~= c0.strings@);
            assert(self.blocks@.subrange(0, c0.blocks@.len() as int) =~= c0.blocks@);
        }
        let mut max_stack: usize = 0;
        let mut i: usize = 0;
        while i < exprs.len()
            invariant
                tables_evolve(c0, *self),
                self.vars_stack@ == c0.vars_stack@.push(c1.vars_stack@.last()),
                self.closure_depth == c0.closure_depth,
                i <= exprs@.len(),
            decreases exprs@.len() - i,
        {
            let ghost cl = *self;
            proof {
                assert(decreases_to!(*exprs => exprs@));
                assert(decreases_to!(exprs@ => exprs@[i as int]));
            }
            let stack_size = match self.c_expr(&exprs[i]) {
                Ok(v) => v,
                // on error the scope is closed before reporting
                Err(e) => {
                    let ghost cm = *self;
                    match self.vars_stack.pop() {
                        Some(_) => (),
                        None => {
                            let _: () = vstd::pervasive::unreached();
                        },
                    }
                    proof {
                        assert(self.instrs@.subrange(0, cm.instrs@.len() as int)
                            =~= cm.instrs@);
                        assert(self.sends@.subrange(0, cm.sends@.len() as int) =~= cm.sends@);
                        assert(self.strings@.subrange(0, cm.strings@.len() as int)
                            =~= cm.strings@);
                        assert(self.blocks@.subrange(0, cm.blocks@.len() as int)
                            =~= cm.blocks@);
                        lemma_tables_evolve_trans(cl, cm, *self);
                        lemma_tables_evolve_trans(c0, cl, *self);
                        assert(self.vars_stack@ =~= c0.vars_stack@);
                    }
                    return Err(e);
                },
            };
            let ghost cm = *self;
            max_stack = umax(max_stack, stack_size);
            if i != exprs.len() - 1 {
                self.emit(Instr::Pop);
            } else {
                proof {
                    lemma_evolves_refl(*self);
                }
            }
            i = i + 1;
            proof {
                lemma_tables_evolve_trans(cl, cm, *self);
                lemma_tables_evolve_trans(c0, cl, *self);
            }
        }
        if is_method {
            let ghost ca = *self;
            self.emit(Instr::Pop);
            let ghost cb = *self;
            self.emit(Instr::VarLookup(0, 0));
            proof {
                lemma_tables_evolve_trans(ca, cb, *self);
                lemma_tables_evolve_trans(c0, ca, *self);
            }
            max_stack = umax(max_stack, 1);
        }
        let ghost c2 = *self;
        self.emit(Instr::Return);
        let ghost c3 = *self;
        match self.vars_stack.pop() {
            Some(_) => (),
            None => {
                let _: () = vstd::pervasive::unreached();
            },
        }
        proof {
            assert(self.instrs@.subrange(0, c3.instrs@.len() as int) =~= c3.instrs@);
            assert(self.sends@.subrange(0, c3.sends@.len() as int) =~= c3.sends@);
            assert(self.strings@.subrange(0, c3.strings@.len() as int) =~= c3.strings@);
            assert(self.blocks@.subrange(0, c3.blocks@.len() as int) =~= c3.blocks@);
            lemma_tables_evolve_trans(c2, c3, *self);
            lemma_tables_evolve_trans(c0, c2, *self);
            assert(self.vars_stack@ =~= c0.vars_stack@);
            assert(self.instrs@.last() == Instr::Return);
        }
        Ok((num_vars, max_stack))
    }
}

/// The primitive a selector denotes, if any; the order mirrors the
/// compiler's dispatch.
pub open spec fn spec_primitive_for(name: Seq<char>) -> Option<Primitive> {
    if name == "+"@ {
        Some(Primitive::Add)
    } else if name == "-"@ {
        Some(Primitive::Sub)
    } else if name == "*"@ {
        Some(Primitive::Mul)
    } else if name == "/"@ {
        Some(Primitive::Div)
    } else if name == "%"@ {
        Some(Primitive::Mod)
    } else if name == "="@ {
        Some(Primitive::Equals)
    } else if name == "=="@ {
        Some(Primitive::RefEquals)
    } else if name == "~="@ {
        Some(Primitive::NotEquals)
    } else if name == "<<"@ {
        Some(Primitive::Shl)
    } else if name == "<"@ {
        Some(Primitive::LessThan)
    } else if name == "<="@ {
        Some(Primitive::LessThanEquals)
    } else if name == ">"@ {
        Some(Primitive::GreaterThan)
    } else if name == ">="@ {
        Some(Primitive::GreaterThanEquals)
    } else if name == "&"@ {
        Some(Primitive::And)
    } else if name == "bitXor:"@ {
        Some(Primitive::BitXor)
    } else if name == "sqrt"@ {
        Some(Primitive::Sqrt)
    } else if name == "asString"@ {
        Some(Primitive::AsString)
    } else if name == "class"@ {
        Some(Primitive::Class)
    } else if name == "concatenate:"@ {
        Some(Primitive::Concatenate)
    } else if name == "halt"@ {
        Some(Primitive::Halt)
    } else if name == "hashcode"@ {
        Some(Primitive::Hashcode)
    } else if name == "inspect"@ {
        Some(Primitive::Inspect)
    } else if name == "instVarAt:"@ {
        Some(Primitive::InstVarAt)
    } else if name == "instVarAt:put:"@ {
        Some(Primitive::InstVarAtPut)
    } else if name == "instVarNamed:"@ {
        Some(Primitive::InstVarNamed)
    } else if name == "name"@ {
        Some(Primitive::Name)
    } else if name == "new"@ {
        Some(Primitive::New)
    } else if name == "objectSize"@ {
        Some(Primitive::ObjectSize)
    } else if name == "perform:"@ {
        Some(Primitive::Perform)
    } else if name == "perform:inSuperclass:"@ {
        Some(Primitive::PerformInSuperClass)
    } else if name == "perform:withArguments:"@ {
        Some(Primitive::PerformWithArguments)
    } else if name == "perform:withArguments:inSuperclass:"@ {
        Some(Primitive::PerformWithArgumentsInSuperClass)
    } else if name == "printNewline"@ {
        Some(Primitive::PrintNewline)
    } else if name == "printString:"@ {
        Some(Primitive::PrintString)
    } else if name == "restart"@ {
        Some(Primitive::Restart)
    } else if name == "value"@ {
        Some(Primitive::Value(0))
    } else if name == "value:"@ {
        Some(Primitive::Value(1))
    } else if name == "value:with:"@ {
        Some(Primitive::Value(2))
    } else {
        None
    }
}

/// The selectors whose primitive form fixes one parameter at compile time.
pub open spec fn spec_arity_checked(name: Seq<char>) -> bool {
    ||| name == "+"@
    ||| name == "-"@
    ||| name == "*"@
    ||| name == "/"@
    ||| name == "%"@
    ||| name == "="@
    ||| name == "=="@
    ||| name == "~="@
    ||| name == "<<"@
    ||| name == "<"@
    ||| name == "<="@
    ||| name == ">"@
    ||| name == ">="@
    ||| name == "&"@
    ||| name == "bitXor:"@
}

/// The arity-mismatch compile error for a primitive selector.
fn arity_error(lexeme: &ast::Lexeme, want: usize, got: usize) -> (r: Vec<CompileError>)
    ensures
        r@.len() == 1,
        (want as int <= isize::MAX as int && got as int <= isize::MAX as int) ==> r@[0].msg@
            == "Expected "@ + crate::numstr::spec_int_str(want as int) + " parameters, got "@
            + crate::numstr::spec_int_str(got as int),
{
    if want <= (isize::MAX as usize) && got <= (isize::MAX as usize) {
        let w = crate::numstr::int_to_string(want as isize);
        let mut msg = String::from_str("Expected ");
        msg.append(w.as_str());
        msg.append(" parameters, got ");
        let g = crate::numstr::int_to_string(got as isize);
        msg.append(g.as_str());
        vec![CompileError { lexeme: clone_lexeme(lexeme), msg }]
    } else {
        vec![
            CompileError {
                lexeme: clone_lexeme(lexeme),
                msg: String::from_str("Expected a different number of parameters"),
            },
        ]
    }
}

impl Compiler {
    /// Compile a method body: map a `primitive` body to its tag by the
    /// selector, or compile user code as a method block.
    pub fn c_body(
        &mut self,
        name_lexeme: &ast::Lexeme,
        name: &String,
        params: &Vec<ast::Lexeme>,
        body: &ast::MethodBody,
    ) -> (r: Result<MethodBody, Vec<CompileError>>)
        ensures
            evolves(*old(self), *final(self)),
            r is Err ==> r->Err_0@.len() > 0,
            match r {
                Ok(MethodBody::User { num_vars, bytecode_off, max_stack: _ }) => bytecode_off
                    == old(self).instrs@.len() && num_vars == 1 + params@.len() + (match body {
                    ast::MethodBody::Body { vars, exprs: _ } => vars@.len() as int,
                    _ => 0int,
                }),
                _ => true,
            },
            body is Primitive ==> (match spec_primitive_for(name@) {
                Some(p) => if spec_arity_checked(name@) && params@.len() != 1 {
                    r is Err && (params@.len() as int <= isize::MAX as int ==> r->Err_0@[0].msg@
                        == "Expected "@ + crate::numstr::spec_int_str(1) + " parameters, got "@
                        + crate::numstr::spec_int_str(params@.len() as int))
                } else {
                    r == Result::<MethodBody, Vec<CompileError>>::Ok(MethodBody::Primitive(p))
                        && *final(self) == *old(self)
                },
                None => r is Err && *final(self) == *old(self) && r->Err_0@[0].msg@
                    == "Unknown primitive '"@ + name@ + "'"@,
            }),
            body is Body && r is Ok ==> r->Ok_0 is User,
    {
        match body {
            ast::MethodBody::Primitive => {
                proof {
                    lemma_evolves_refl(*self);
                }
                let want_one = str_is(name, "+") || str_is(name, "-") || str_is(name, "*")
                    || str_is(name, "/") || str_is(name, "%") || str_is(name, "=") || str_is(
                    name,
                    "==",
                ) || str_is(name, "~=") || str_is(name, "<<") || str_is(name, "<") || str_is(
                    name,
                    "<=",
                ) || str_is(name, ">") || str_is(name, ">=") || str_is(name, "&") || str_is(
                    name,
                    "bitXor:",
                );
                if want_one && params.len() != 1 {
                    return Err(arity_error(name_lexeme, 1, params.len()));
                }
                let p = if str_is(name, "+") {
                    Primitive::Add
                } else if str_is(name, "-") {
                    Primitive::Sub
                } else if str_is(name, "*") {
                    Primitive::Mul
                } else if str_is(name, "/") {
                    Primitive::Div
                } else if str_is(name, "%") {
                    Primitive::Mod
                } else if str_is(name, "=") {
                    Primitive::Equals
                } else if str_is(name, "==") {
                    Primitive::RefEquals
                } else if str_is(name, "~=") {
                    Primitive::NotEquals
                } else if str_is(name, "<<") {
                    Primitive::Shl
                } else if str_is(name, "<") {
                    Primitive::LessThan
                } else if str_is(name, "<=") {
                    Primitive::LessThanEquals
                } else if str_is(name, ">") {
                    Primitive::GreaterThan
                } else if str_is(name, ">=") {
                    Primitive::GreaterThanEquals
                } else if str_is(name, "&") {
                    Primitive::And
                } else if str_is(name, "bitXor:") {
                    Primitive::BitXor
                } else if str_is(name, "sqrt") {
                    Primitive::Sqrt
                } else if str_is(name, "asString") {
                    Primitive::AsString
                } else if str_is(name, "class") {
                    Primitive::Class
                } else if str_is(name, "concatenate:") {
                    Primitive::Concatenate
                } else if str_is(name, "halt") {
                    Primitive::Halt
                } else if str_is(name, "hashcode") {
                    Primitive::Hashcode
                } else if str_is(name, "inspect") {
                    Primitive::Inspect
                } else if str_is(name, "instVarAt:") {
                    Primitive::InstVarAt
                } else if str_is(name, "instVarAt:put:") {
                    Primitive::InstVarAtPut
                } else if str_is(name, "instVarNamed:") {
                    Primitive::InstVarNamed
                } else if str_is(name, "name") {
                    Primitive::Name
                } else if str_is(name, "new") {
                    Primitive::New
                } else if str_is(name, "objectSize") {
                    Primitive::ObjectSize
                } else if str_is(name, "perform:") {
                    Primitive::Perform
                } else if str_is(name, "perform:inSuperclass:") {
                    Primitive::PerformInSuperClass
                } else if str_is(name, "perform:withArguments:") {
                    Primitive::PerformWithArguments
                } else if str_is(name, "perform:withArguments:inSuperclass:") {
                    Primitive::PerformWithArgumentsInSuperClass
                } else if str_is(name, "printNewline") {
                    Primitive::PrintNewline
                } else if str_is(name, "printString:") {
                    Primitive::PrintString
                } else if str_is(name, "restart") {
                    Primitive::Restart
                } else if str_is(name, "value") {
                    Primitive::Value(0)
                } else if str_is(name, "value:") {
                    Primitive::Value(1)
                } else if str_is(name, "value:with:") {
                    Primitive::Value(2)
                } else {
                    return Err(
                        one_error(name_lexeme, "Unknown primitive '", name.as_str(), "'"),
                    );
                };
                Ok(MethodBody::Primitive(p))
            },
            ast::MethodBody::Body { vars, exprs } => {
                let bytecode_off = self.instrs.len();
                let (num_vars, max_stack) = match self.c_block(true, params, vars, exprs) {
                    Ok(t) => t,
                    Err(e) => {
                        return Err(e);
                    },
                };
                Ok(MethodBody::User { num_vars, bytecode_off, max_stack })
            },
        }
    }

    /// Compile one method: compute its selector and parameters, then its
    /// body.
    pub fn c_method(&mut self, astmeth: &ast::Method) -> (r: Result<Method, Vec<CompileError>>)
        ensures
            evolves(*old(self), *final(self)),
            r is Err ==> r->Err_0@.len() > 0,
            r is Ok ==> r->Ok_0.name@ == spec_selector(astmeth.name),
            (astmeth.body is Primitive && spec_selector(astmeth.name).len() > 0) ==> (match spec_primitive_for(
                spec_selector(astmeth.name),
            ) {
                Some(p) => if spec_arity_checked(spec_selector(astmeth.name))
                    && spec_selector_arity(astmeth.name) != 1 {
                    r is Err
                } else {
                    r is Ok && r->Ok_0.body == MethodBody::Primitive(p) && *final(self) == *old(self)
                },
                None => r is Err,
            }),
            (astmeth.body is Body && r is Ok) ==> r->Ok_0.body is User && (match r->Ok_0.body {
                MethodBody::User { num_vars: _, bytecode_off, max_stack: _ } => bytecode_off
                    == old(self).instrs@.len(),
                _ => false,
            }),
    {
        let (name_lexeme, name, args): (ast::Lexeme, String, Vec<ast::Lexeme>) =
            match &astmeth.name {
            ast::MethodName::BinaryOp(op, arg) => {
                let a = match arg {
                    Some(l) => vec![clone_lexeme(l)],
                    None => Vec::new(),
                };
                (clone_lexeme(op), clone_string(&op.text), a)
            },
            ast::MethodName::Id(lexeme) => {
                (clone_lexeme(lexeme), clone_string(&lexeme.text), Vec::new())
            },
            ast::MethodName::Keywords(pairs) => {
                if pairs.len() == 0 {
                    proof {
                        lemma_evolves_refl(*self);
                    }
                    let l = ast::Lexeme { text: String::new(), line: 0, col: 0 };
                    return Err(one_error(&l, "Empty keyword selector", "", ""));
                }
                let mut kn = String::new();
                let mut ka: Vec<ast::Lexeme> = Vec::new();
                let mut i: usize = 0;
                while i < pairs.len()
                    invariant
                        i <= pairs@.len(),
                        kn@ == spec_keywords_name(pairs@.subrange(0, i as int)),
                        ka@.len() == i,
                    decreases pairs@.len() - i,
                {
                    kn.append(pairs[i].0.text.as_str());
                    ka.push(clone_lexeme(&pairs[i].1));
                    i = i + 1;
                    proof {
                        assert(pairs@.subrange(0, i as int).drop_last() =~= pairs@.subrange(
                            0,
                            i - 1,
                        ));
                    }
                }
                proof {
                    assert(pairs@.subrange(0, pairs@.len() as int) =~= pairs@);
                }
                (clone_lexeme(&pairs[0].0), kn, ka)
            },
        };
        let body = match self.c_body(&name_lexeme, &name, &args, &astmeth.body) {
            Ok(b) => b,
            Err(e) => {
                return Err(e);
            },
        };
        Ok(Method { name, body })
    }

    /// Compile an AST class into a fresh class object on the VM's heap.
    /// The super-class must name an already-initialised class; method
    /// compilation accumulates the errors of every failing method.
    #[verifier::loop_isolation(false)]
    pub fn compile(vm: &mut VM, path: &str, astcls: &ast::Class) -> (r: Result<
        Val,
        Vec<CompileError>,
    >)
        ensures
            same_except_heap(*old(vm), *final(vm)),
            final(vm).heap@.len() >= old(vm).heap@.len(),
            final(vm).heap@.subrange(0, old(vm).heap@.len() as int) == old(vm).heap@,
            r is Ok ==> r->Ok_0.wf() && (old(vm).heap@.len() < crate::val::HEAP_LIMIT ==> {
                &&& final(vm).heap@.len() == old(vm).heap@.len() + 1
                &&& match final(vm).heap@.last() {
                    Obj::Class(c) => {
                        &&& c.name@ == astcls.name.text@
                        &&& c.num_inst_vars == astcls.inst_vars@.len()
                        &&& c.supercls == spec_supercls(*old(vm), *astcls)
                        &&& c.methods@.len() <= astcls.methods@.len()
                        &&& forall|m: int|
                            0 <= m < astcls.methods@.len() ==> method_name_present(
                                c.methods@,
                                spec_selector((#[trigger] astcls.methods@[m]).name),
                            )
                        &&& c.interns_unique()
                        &&& crate::objects::methods_unique(c.methods@)
                        &&& forall|k: int|
                            0 <= k < c.instrs@.len() ==> (match #[trigger] c.instrs@[k] {
                                Instr::Send(o) => (o as int) < c.sends@.len(),
                                Instr::String(o) => (o as int) < c.strings@.len(),
                                Instr::Block(b) => (b as int) < c.blockinfos@.len(),
                                _ => true,
                            })
                    },
                    _ => false,
                }
                &&& r->Ok_0.spec_is_box()
                &&& r->Ok_0.spec_box_index() == old(vm).heap@.len()
            }),
            !(r is Ok) ==> *final(vm) == *old(vm),
            (astcls.methods@.len() == 0 && (astcls.name.text@ == "Object"@ || (
            astcls.supername is None && !old(vm).obj_cls.spec_illegal()))) ==> r is Ok,
            (astcls.name.text@ != "Object"@ && (match astcls.supername {
                Some(n) => n.text@ != "Block"@ && n.text@ != "Boolean"@ && n.text@ != "nil"@,
                None => false,
            })) ==> r is Err,
    {
        let mut compiler = Compiler::new(path);
        let supercls: Option<Val> = if !str_is(&astcls.name.text, "Object") {
            match &astcls.supername {
                Some(n) => {
                    if str_is(&n.text, "Block") {
                        Some(vm.block_cls)
                    } else if str_is(&n.text, "Boolean") {
                        Some(vm.bool_cls)
                    } else if str_is(&n.text, "nil") {
                        None
                    } else {
                        return Err(one_error(n, "Unknown superclass '", n.text.as_str(), "'"));
                    }
                },
                None => Some(vm.obj_cls),
            }
        } else {
            None
        };
        match supercls {
            Some(s) => {
                if s.is_illegal() {
                    return Err(
                        one_error(
                            &astcls.name,
                            "Superclass of '",
                            astcls.name.text.as_str(),
                            "' is not initialised",
                        ),
                    );
                }
            },
            None => (),
        }
        let mut inst_scope: Vec<String> = Vec::new();
        let mut ii: usize = 0;
        while ii < astcls.inst_vars.len()
            invariant
                ii <= astcls.inst_vars@.len(),
            decreases astcls.inst_vars@.len() - ii,
        {
            inst_scope.push(clone_string(&astcls.inst_vars[ii].text));
            ii = ii + 1;
        }
        compiler.vars_stack.push(inst_scope);
        let mut methods: Vec<Method> = Vec::new();
        let mut errs: Vec<CompileError> = Vec::new();
        let mut mi: usize = 0;
        while mi < astcls.methods.len()
            invariant
                mi <= astcls.methods@.len(),
                mi == 0 ==> errs@.len() == 0,
                methods@.len() <= mi,
                errs@.len() == 0 ==> forall|m: int|
                    0 <= m < mi ==> method_name_present(
                        methods@,
                        spec_selector((#[trigger] astcls.methods@[m]).name),
                    ),
                sends_unique(compiler.sends@),
                strings_unique(compiler.strings@),
                operands_bound(compiler),
                crate::objects::methods_unique(methods@),
            decreases astcls.methods@.len() - mi,
        {
            match compiler.c_method(&astcls.methods[mi]) {
                Ok(m) => {
                    let ghost pre_methods = methods@;
                    let ghost mname = m.name@;
                    insert_method(&mut methods, m);
                    proof {
                        if errs@.len() == 0 {
                            assert forall|m2: int|
                                0 <= m2 < mi + 1 implies method_name_present(
                                methods@,
                                spec_selector((#[trigger] astcls.methods@[m2]).name),
                            ) by {
                                if m2 < mi {
                                    assert(method_name_present(
                                        pre_methods,
                                        spec_selector(astcls.methods@[m2].name),
                                    ));
                                } else {
                                    assert(method_name_present(methods@, mname));
                                }
                            }
                        }
                    }
                },
                Err(mut e) => {
                    errs.append(&mut e);
                },
            }
            mi = mi + 1;
        }
        if errs.len() > 0 {
            return Err(errs);
        }
        let cls = Class {
            name: clone_string(&astcls.name.text),
            path: path.to_owned(),
            supercls,
            num_inst_vars: astcls.inst_vars.len(),
            methods,
            consts: Vec::new(),
            instrs: compiler.instrs,
            blockinfos: compiler.blocks,
            sends: compiler.sends,
            strings: compiler.strings,
        };
        let ghost pre = vm.heap@;
        let v = Val::from_obj(vm, Obj::Class(cls));
        proof {
            assert(vm.heap@.subrange(0, pre.len() as int) =~= pre);
        }
        Ok(v)
    }
}

/// Add a method to the table, replacing an existing method of the same
/// name so that the last definition wins.
fn insert_method(methods: &mut Vec<Method>, m: Method)
    requires
        crate::objects::methods_unique(old(methods)@),
    ensures
        crate::objects::methods_unique(final(methods)@),
        final(methods)@.len() <= old(methods)@.len() + 1,
        method_name_present(final(methods)@, m.name@),
        forall|nm: Seq<char>|
            #[trigger] method_name_present(old(methods)@, nm) ==> method_name_present(
                final(methods)@,
                nm,
            ),
{
    let mut j: usize = 0;
    while j < methods.len()
        invariant
            crate::objects::methods_unique(methods@),
            *methods == *old(methods),
            j <= methods@.len(),
            forall|k: int| 0 <= k < j ==> (#[trigger] methods@[k]).name@ != m.name@,
        decreases methods@.len() - j,
    {
        if string_eq(&methods[j].name, &m.name) {
            let ghost pre = methods@;
            let ghost jj = j as int;
            methods.set(j, m);
            proof {
                assert forall|x: int, y: int|
                    0 <= x < y < methods@.len() implies (#[trigger] methods@[x]).name@ != (
                #[trigger] methods@[y]).name@ by {
                    assert(pre[x].name@ != pre[y].name@);
                }
                assert(methods@[jj].name@ == m.name@);
                assert forall|nm: Seq<char>|
                    #[trigger] method_name_present(pre, nm) implies method_name_present(
                    methods@,
                    nm,
                ) by {
                    let k = choose|k: int| 0 <= k < pre.len() && (#[trigger] pre[k]).name@ == nm;
                    if k == jj {
                        assert(methods@[jj].name@ == nm);
                    } else {
                        assert(methods@[k].name@ == nm);
                    }
                }
            }
            return ;
        }
        j = j + 1;
    }
    let ghost pre = methods@;
    methods.push(m);
    proof {
        assert forall|x: int, y: int|
            0 <= x < y < methods@.len() implies (#[trigger] methods@[x]).name@ != (
        #[trigger] methods@[y]).name@ by {
            if y < pre.len() {
                assert(pre[x].name@ != pre[y].name@);
            } else {
                assert(pre[x].name@ != m.name@);
            }
        }
        assert(methods@[pre.len() as int].name@ == m.name@);
        assert forall|nm: Seq<char>|
            #[trigger] method_name_present(pre, nm) implies method_name_present(methods@, nm) by {
            let k = choose|k: int| 0 <= k < pre.len() && (#[trigger] pre[k]).name@ == nm;
            assert(methods@[k].name@ == nm);
        }
    }
}

/// The first class of the list bearing `name`, by index.
pub open spec fn spec_find_ast(asts: Seq<ast::Class>, name: Seq<char>) -> Option<int>
    decreases asts.len(),
{
    if asts.len() == 0 {
        None
    } else if asts[0].name.text@ == name {
        Some(0int)
    } else {
        match spec_find_ast(asts.drop_first(), name) {
            Some(k) => Some(k + 1),
            None => None,
        }
    }
}

/// If the first `k` entries miss and entry `k` matches, the first match is
/// entry `k`.
proof fn lemma_find_ast_at(asts: Seq<ast::Class>, name: Seq<char>, k: int)
    requires
        0 <= k < asts.len(),
        forall|j: int| 0 <= j < k ==> (#[trigger] asts[j]).name.text@ != name,
        asts[k].name.text@ == name,
    ensures
        spec_find_ast(asts, name) == Some(k),
    decreases k,
{
    if k > 0 {
        lemma_find_ast_at(asts.drop_first(), name, k - 1);
    }
}

/// If no entry matches, there is no first match.
proof fn lemma_find_ast_none(asts: Seq<ast::Class>, name: Seq<char>)
    requires
        forall|j: int| 0 <= j < asts.len() ==> (#[trigger] asts[j]).name.text@ != name,
    ensures
        spec_find_ast(asts, name) is None,
    decreases asts.len(),
{
    if asts.len() > 0 {
        lemma_find_ast_none(asts.drop_first(), name);
    }
}

/// The first class of the list bearing this name.
fn find_class_ast<'a>(asts: &'a Vec<ast::Class>, name: &str) -> (r: Option<&'a ast::Class>)
    ensures
        match spec_find_ast(asts@, name@) {
            Some(k) => 0 <= k < asts@.len() && asts@[k].name.text@ == name@ && r is Some && *r->0
                == asts@[k],
            None => r is None,
        },
{
    let mut i: usize = 0;
    while i < asts.len()
        invariant
            i <= asts@.len(),
            forall|j: int| 0 <= j < i ==> (#[trigger] asts@[j]).name.text@ != name@,
        decreases asts@.len() - i,
    {
        if str_is(&asts[i].name.text, name) {
            proof {
                lemma_find_ast_at(asts@, name@, i as int);
            }
            return Some(&asts[i]);
        }
        i = i + 1;
    }
    proof {
        lemma_find_ast_none(asts@, name@);
    }
    None
}

/// The first entry of the list bearing `name` exists and is a bare class:
/// no methods, no instance variables, no named super.
pub open spec fn boot_entry_trivial(asts: Seq<ast::Class>, name: Seq<char>) -> bool {
    match spec_find_ast(asts, name) {
        Some(k) => asts[k].methods@.len() == 0 && asts[k].inst_vars@.len() == 0
            && asts[k].supername is None,
        None => false,
    }
}

/// Every builtin class the bootstrap needs is present as a bare class.
pub open spec fn boot_asts_trivial(asts: Seq<ast::Class>) -> bool {
    &&& boot_entry_trivial(asts, "Object"@)
    &&& boot_entry_trivial(asts, "Class"@)
    &&& boot_entry_trivial(asts, "Nil"@)
    &&& boot_entry_trivial(asts, "Block"@)
    &&& boot_entry_trivial(asts, "Block2"@)
    &&& boot_entry_trivial(asts, "Block3"@)
    &&& boot_entry_trivial(asts, "Boolean"@)
    &&& boot_entry_trivial(asts, "Double"@)
    &&& boot_entry_trivial(asts, "False"@)
    &&& boot_entry_trivial(asts, "Integer"@)
    &&& boot_entry_trivial(asts, "String"@)
    &&& boot_entry_trivial(asts, "System"@)
    &&& boot_entry_trivial(asts, "True"@)
}

/// A runtime error raised while bootstrapping, as a compile error.
fn bootstrap_error(name: &str) -> (r: Vec<CompileError>)
    ensures
        r@.len() == 1,
{
    let l = ast::Lexeme { text: name.to_owned(), line: 0, col: 0 };
    one_error(&l, "Could not instantiate '", name, "'")
}

impl VM {
    /// Compile the AST class.  `inst_vars_allowed` is false for the builtin
    /// classes that must not declare instance variables.
    pub fn compile(&mut self, astcls: &ast::Class, path: &str, inst_vars_allowed: bool) -> (r:
        Result<Val, Vec<CompileError>>)
        ensures
            same_except_heap(*old(self), *final(self)),
            final(self).heap@.len() >= old(self).heap@.len(),
            final(self).heap@.subrange(0, old(self).heap@.len() as int) == old(self).heap@,
            r is Ok ==> r->Ok_0.wf() && (old(self).heap@.len() < crate::val::HEAP_LIMIT ==> {
                &&& final(self).heap@.len() == old(self).heap@.len() + 1
                &&& final(self).heap@.last() is Class
                &&& r->Ok_0.spec_is_box()
                &&& r->Ok_0.spec_box_index() == old(self).heap@.len()
            }),
            (astcls.methods@.len() == 0 && (astcls.inst_vars@.len() == 0 || inst_vars_allowed) && (
            astcls.name.text@ == "Object"@ || (astcls.supername is None
                && !old(self).obj_cls.spec_illegal()))) ==> r is Ok,
    {
        if !inst_vars_allowed && astcls.inst_vars.len() > 0 {
            proof {
                assert(self.heap@.subrange(0, self.heap@.len() as int) =~= self.heap@);
            }
            return Err(
                one_error(
                    &astcls.name,
                    "No instance vars allowed in '",
                    astcls.name.text.as_str(),
                    "'",
                ),
            );
        }
        Compiler::compile(self, path, astcls)
    }

    /// Find and compile the builtin class `name` from the parsed classes.
    fn init_builtin_class(
        &mut self,
        asts: &Vec<ast::Class>,
        name: &str,
        inst_vars_allowed: bool,
    ) -> (r: Result<Val, Vec<CompileError>>)
        ensures
            same_except_heap(*old(self), *final(self)),
            final(self).heap@.len() >= old(self).heap@.len(),
            final(self).heap@.subrange(0, old(self).heap@.len() as int) == old(self).heap@,
            r is Ok ==> r->Ok_0.wf(),
            r is Ok && final(self).heap@.len() < crate::val::HEAP_LIMIT ==> !r->Ok_0.spec_illegal(),
            (boot_entry_trivial(asts@, name@) && (name@ == "Object"@ || !old(
                self,
            ).obj_cls.spec_illegal()) && old(self).heap@.len() < crate::val::HEAP_LIMIT) ==> {
                &&& r is Ok
                &&& final(self).heap@.len() == old(self).heap@.len() + 1
                &&& r->Ok_0.spec_is_box()
                &&& r->Ok_0.spec_box_index() == old(self).heap@.len()
                &&& final(self).heap@[old(self).heap@.len() as int] is Class
            },
    {
        let astcls = match find_class_ast(asts, name) {
            Some(c) => c,
            None => {
                proof {
                    assert(self.heap@.subrange(0, self.heap@.len() as int) =~= self.heap@);
                }
                let l = ast::Lexeme { text: name.to_owned(), line: 0, col: 0 };
                return Err(one_error(&l, "Can't find builtin class '", name, "'"));
            },
        };
        self.compile(astcls, name, inst_vars_allowed)
    }

    /// Bootstrap the VM from the parsed builtin classes, in the mandatory
    /// order: first `Object`, `Class` and `Nil` (and the `nil` singleton),
    /// then the remaining builtin classes and the other singletons.
    pub fn bootstrap(&mut self, asts: &Vec<ast::Class>) -> (r: Result<(), Vec<CompileError>>)
        ensures
            final(self).stack@ == old(self).stack@,
            final(self).frames@ == old(self).frames@,
            final(self).closures@ == old(self).closures@,
            final(self).output@ == old(self).output@,
            (boot_asts_trivial(asts@) && old(self).heap@.len() + 17
                <= crate::val::HEAP_LIMIT) ==> r is Ok,
            r is Ok && final(self).heap@.len() < crate::val::HEAP_LIMIT ==> {
                &&& !final(self).obj_cls.spec_illegal()
                &&& !final(self).cls_cls.spec_illegal()
                &&& !final(self).nil_cls.spec_illegal()
                &&& !final(self).block_cls.spec_illegal()
                &&& !final(self).block2_cls.spec_illegal()
                &&& !final(self).block3_cls.spec_illegal()
                &&& !final(self).bool_cls.spec_illegal()
                &&& !final(self).double_cls.spec_illegal()
                &&& !final(self).false_cls.spec_illegal()
                &&& !final(self).int_cls.spec_illegal()
                &&& !final(self).str_cls.spec_illegal()
                &&& !final(self).system_cls.spec_illegal()
                &&& !final(self).true_cls.spec_illegal()
                &&& !final(self).nil.spec_illegal()
                &&& !final(self).false_.spec_illegal()
                &&& !final(self).system.spec_illegal()
                &&& !final(self).true_.spec_illegal()
                &&& spec_inst_at(final(self).heap@, final(self).nil) is Some
                &&& spec_inst_at(final(self).heap@, final(self).false_) is Some
                &&& spec_inst_at(final(self).heap@, final(self).system) is Some
                &&& spec_inst_at(final(self).heap@, final(self).true_) is Some
            },
    {
        // The very delicate phase: nothing here may store a reference to
        // the nil object or to a class created later than itself.
        let obj_cls = match self.init_builtin_class(asts, "Object", false) {
            Ok(v) => v,
            Err(e) => {
                return Err(e);
            },
        };
        self.obj_cls = obj_cls;
        let cls_cls = match self.init_builtin_class(asts, "Class", false) {
            Ok(v) => v,
            Err(e) => {
                return Err(e);
            },
        };
        self.cls_cls = cls_cls;
        let nil_cls = match self.init_builtin_class(asts, "Nil", true) {
            Ok(v) => v,
            Err(e) => {
                return Err(e);
            },
        };
        self.nil_cls = nil_cls;
        let nil = match Inst::new(self, nil_cls) {
            Ok(v) => v,
            Err(_) => {
                return Err(bootstrap_error("Nil"));
            },
        };
        self.nil = nil;
        // The slightly delicate phase.
        let block_cls = match self.init_builtin_class(asts, "Block", false) {
            Ok(v) => v,
            Err(e) => {
                return Err(e);
            },
        };
        self.block_cls = block_cls;
        let block2_cls = match self.init_builtin_class(asts, "Block2", false) {
            Ok(v) => v,
            Err(e) => {
                return Err(e);
            },
        };
        self.block2_cls = block2_cls;
        let block3_cls = match self.init_builtin_class(asts, "Block3", false) {
            Ok(v) => v,
            Err(e) => {
                return Err(e);
            },
        };
        self.block3_cls = block3_cls;
        let bool_cls = match self.init_builtin_class(asts, "Boolean", false) {
            Ok(v) => v,
            Err(e) => {
                return Err(e);
            },
        };
        self.bool_cls = bool_cls;
        let double_cls = match self.init_builtin_class(asts, "Double", false) {
            Ok(v) => v,
            Err(e) => {
                return Err(e);
            },
        };
        self.double_cls = double_cls;
        let false_cls = match self.init_builtin_class(asts, "False", false) {
            Ok(v) => v,
            Err(e) => {
                return Err(e);
            },
        };
        self.false_cls = false_cls;
        let int_cls = match self.init_builtin_class(asts, "Integer", false) {
            Ok(v) => v,
            Err(e) => {
                return Err(e);
            },
        };
        self.int_cls = int_cls;
        let str_cls = match self.init_builtin_class(asts, "String", false) {
            Ok(v) => v,
            Err(e) => {
                return Err(e);
            },
        };
        self.str_cls = str_cls;
        let system_cls = match self.init_builtin_class(asts, "System", false) {
            Ok(v) => v,
            Err(e) => {
                return Err(e);
            },
        };
        self.system_cls = system_cls;
        let true_cls = match self.init_builtin_class(asts, "True", false) {
            Ok(v) => v,
            Err(e) => {
                return Err(e);
            },
        };
        self.true_cls = true_cls;
        let false_ = match Inst::new(self, false_cls) {
            Ok(v) => v,
            Err(_) => {
                return Err(bootstrap_error("False"));
            },
        };
        self.false_ = false_;
        let system = match Inst::new(self, system_cls) {
            Ok(v) => v,
            Err(_) => {
                return Err(bootstrap_error("System"));
            },
        };
        self.system = system;
        let true_ = match Inst::new(self, true_cls) {
            Ok(v) => v,
            Err(_) => {
                return Err(bootstrap_error("True"));
            },
        };
        self.true_ = true_;
        Ok(())
    }
}

} // verus!

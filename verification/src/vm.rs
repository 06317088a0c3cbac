//! The virtual machine: the heap and closure arenas, the operand and frame
//! stacks, the global classes and singletons, and the interpreter itself.

use vstd::prelude::*;

use crate::objects::{
    clone_string, clone_vals, spec_class_at, string_eq, Block, Class, Inst, Method, MethodBody,
    Obj, ObjType, String_,
};
use crate::val::{Val, ValResult, TAG_BITMASK};

verus! {

/// A runtime error.
#[derive(Debug, PartialEq)]
pub enum VMError {
    /// A value which can't be represented in an `isize`.
    CantRepresentAsBigInt,
    /// A value which can't be represented in an `f64`.
    CantRepresentAsDouble,
    /// A value which can't be represented in an `isize`.
    CantRepresentAsIsize,
    /// A value which can't be represented in an `usize`.
    CantRepresentAsUsize,
    DivisionByZero,
    /// The VM is trying to exit.
    Exit,
    /// Tried to read through a handle whose target is not of the boxed kind
    /// required.
    GcBoxTypeError { expected: ObjType, got: ObjType },
    /// A table, stack or slot index fell outside its bounds.
    IndexOutOfBounds,
    /// Tried to do a shl or shr with a value below zero.
    NegativeShift,
    /// A number was needed, but the value was of another kind.
    NotANumber { got: ObjType },
    /// Something went wrong when trying to execute a primitive.
    PrimitiveError,
    /// Tried to do a shl that would not fit in the required integer size.
    ShiftTooBig,
    /// The interpreter's bounded execution budget was exhausted.
    StackOverflow,
    /// A dynamic type error.
    TypeError { expected: ObjType, got: ObjType },
    /// Tried to read from a variable that hasn't had a value assigned to it
    /// yet.
    UnassignedVar(usize),
    /// An unknown method.
    UnknownMethod(String),
}

/// An activation record: the operand-stack height recorded at the last send
/// (needed by non-local return to find the point to unwind to) and the
/// closure holding this activation's variables.
#[derive(Clone, Copy, Debug, PartialEq, Eq, Structural)]
pub struct Frame {
    /// Stack pointer.  Updated lazily: it is only guaranteed accurate over
    /// sends.
    pub sp: usize,
    /// Index into the VM's closure arena.
    pub closure: usize,
}

/// A runtime environment: a parent link (the chain's length is the lexical
/// nesting depth) plus this activation's variable slots.
pub struct Closure {
    pub parent: Option<usize>,
    pub vars: Vec<Val>,
}

pub struct VM {
    pub classpath: Vec<String>,
    pub arr_cls: Val,
    pub block_cls: Val,
    pub block2_cls: Val,
    pub block3_cls: Val,
    pub bool_cls: Val,
    pub cls_cls: Val,
    pub double_cls: Val,
    pub false_cls: Val,
    pub int_cls: Val,
    pub nil_cls: Val,
    pub obj_cls: Val,
    pub str_cls: Val,
    pub sym_cls: Val,
    pub system_cls: Val,
    pub true_cls: Val,
    pub false_: Val,
    pub nil: Val,
    pub system: Val,
    pub true_: Val,
    /// The operand stack, shared by all activations.
    pub stack: Vec<Val>,
    /// The activation stack.
    pub frames: Vec<Frame>,
    /// The closure arena; closures are identified by their index here.
    pub closures: Vec<Closure>,
    /// The heap arena; a box-tagged value is a handle to a cell here.
    pub heap: Vec<Obj>,
    /// Everything the program has printed; the caller drains it.
    pub output: String,
}

/// The class and singleton registry and the classpath are the same in both
/// states.
pub open spec fn same_globals(pre: VM, post: VM) -> bool {
    &&& post.classpath@ == pre.classpath@
    &&& post.arr_cls == pre.arr_cls
    &&& post.block_cls == pre.block_cls
    &&& post.block2_cls == pre.block2_cls
    &&& post.block3_cls == pre.block3_cls
    &&& post.bool_cls == pre.bool_cls
    &&& post.cls_cls == pre.cls_cls
    &&& post.double_cls == pre.double_cls
    &&& post.false_cls == pre.false_cls
    &&& post.int_cls == pre.int_cls
    &&& post.nil_cls == pre.nil_cls
    &&& post.obj_cls == pre.obj_cls
    &&& post.str_cls == pre.str_cls
    &&& post.sym_cls == pre.sym_cls
    &&& post.system_cls == pre.system_cls
    &&& post.true_cls == pre.true_cls
    &&& post.false_ == pre.false_
    &&& post.nil == pre.nil
    &&& post.system == pre.system
    &&& post.true_ == pre.true_
}

/// Only the heap arena may differ between the two states.
pub open spec fn same_except_heap(pre: VM, post: VM) -> bool {
    &&& same_globals(pre, post)
    &&& post.stack@ == pre.stack@
    &&& post.frames@ == pre.frames@
    &&& post.closures@ == pre.closures@
    &&& post.output@ == pre.output@
}

/// Only the operand stack may differ between the two states.
pub open spec fn same_except_stack(pre: VM, post: VM) -> bool {
    &&& same_globals(pre, post)
    &&& post.heap@ == pre.heap@
    &&& post.frames@ == pre.frames@
    &&& post.closures@ == pre.closures@
    &&& post.output@ == pre.output@
}

impl VM {
    /// A VM with no classes loaded: every registry entry is the illegal
    /// placeholder and all arenas are empty.
    pub fn new_no_bootstrap() -> (r: VM)
        ensures
            r.classpath@.len() == 0,
            r.arr_cls.spec_illegal(),
            r.block_cls.spec_illegal(),
            r.block2_cls.spec_illegal(),
            r.block3_cls.spec_illegal(),
            r.bool_cls.spec_illegal(),
            r.cls_cls.spec_illegal(),
            r.double_cls.spec_illegal(),
            r.false_cls.spec_illegal(),
            r.int_cls.spec_illegal(),
            r.nil_cls.spec_illegal(),
            r.obj_cls.spec_illegal(),
            r.str_cls.spec_illegal(),
            r.sym_cls.spec_illegal(),
            r.system_cls.spec_illegal(),
            r.true_cls.spec_illegal(),
            r.false_.spec_illegal(),
            r.nil.spec_illegal(),
            r.system.spec_illegal(),
            r.true_.spec_illegal(),
            r.stack@.len() == 0,
            r.frames@.len() == 0,
            r.closures@.len() == 0,
            r.heap@.len() == 0,
            r.output@.len() == 0,
    {
        VM {
            classpath: Vec::new(),
            arr_cls: Val::illegal(),
            block_cls: Val::illegal(),
            block2_cls: Val::illegal(),
            block3_cls: Val::illegal(),
            bool_cls: Val::illegal(),
            cls_cls: Val::illegal(),
            double_cls: Val::illegal(),
            false_cls: Val::illegal(),
            int_cls: Val::illegal(),
            nil_cls: Val::illegal(),
            obj_cls: Val::illegal(),
            str_cls: Val::illegal(),
            sym_cls: Val::illegal(),
            system_cls: Val::illegal(),
            true_cls: Val::illegal(),
            false_: Val::illegal(),
            nil: Val::illegal(),
            system: Val::illegal(),
            true_: Val::illegal(),
            stack: Vec::new(),
            frames: Vec::new(),
            closures: Vec::new(),
            heap: Vec::new(),
            output: String::new(),
        }
    }

    pub fn stack_len(&self) -> (r: usize)
        ensures
            r == self.stack@.len(),
    {
        self.stack.len()
    }

    /// Push `v` onto the operand stack.
    pub(crate) fn stack_push(&mut self, v: Val)
        ensures
            same_except_stack(*old(self), *final(self)),
            final(self).stack@ == old(self).stack@.push(v),
            final(self).stack@.subrange(0, old(self).stack@.len() as int) == old(self).stack@,
    {
        self.stack.push(v);
        proof {
            assert(self.stack@.subrange(0, old(self).stack@.len() as int) =~= old(self).stack@);
        }
    }

    /// Return the top-most value of the operand stack without removing it.
    pub(crate) fn stack_peek(&self) -> (r: Val)
        requires
            self.stack@.len() > 0,
        ensures
            r == self.stack@.last(),
    {
        self.stack[self.stack.len() - 1]
    }

    /// Pop the top-most value of the operand stack and return it.
    pub(crate) fn stack_pop(&mut self) -> (r: Val)
        requires
            old(self).stack@.len() > 0,
        ensures
            same_except_stack(*old(self), *final(self)),
            final(self).stack@ == old(self).stack@.drop_last(),
            r == old(self).stack@.last(),
    {
        match self.stack.pop() {
            Some(v) => v,
            None => vstd::pervasive::unreached(),
        }
    }

    /// Shorten the operand stack to `i` values; a longer `i` leaves it
    /// unchanged.
    pub(crate) fn stack_truncate(&mut self, i: usize)
        ensures
            same_except_stack(*old(self), *final(self)),
            i <= old(self).stack@.len() ==> final(self).stack@ == old(self).stack@.subrange(0, i as int),
            i > old(self).stack@.len() ==> final(self).stack@ == old(self).stack@,
    {
        self.stack.truncate(i);
    }

    /// Pop the top-most activation frame.
    pub(crate) fn frame_pop(&mut self)
        requires
            old(self).frames@.len() > 0,
        ensures
            same_except_frames(*old(self), *final(self)),
            final(self).frames@ == old(self).frames@.drop_last(),
    {
        match self.frames.pop() {
            Some(_) => (),
            None => {
                let _: () = vstd::pervasive::unreached();
            },
        }
    }

    /// Push an activation frame.
    pub(crate) fn frame_push(&mut self, f: Frame)
        ensures
            same_except_frames(*old(self), *final(self)),
            final(self).frames@ == old(self).frames@.push(f),
    {
        self.frames.push(f);
    }

    /// The closure of the current (top-most) activation.
    pub(crate) fn current_closure(&self) -> (r: usize)
        requires
            self.frames@.len() > 0,
        ensures
            r == self.frames@.last().closure,
    {
        self.frames[self.frames.len() - 1].closure
    }

    /// Record the operand-stack height in the current activation's frame.
    pub(crate) fn set_current_sp(&mut self, sp: usize)
        requires
            old(self).frames@.len() > 0,
        ensures
            same_except_frames(*old(self), *final(self)),
            final(self).frames@ == old(self).frames@.update(
                old(self).frames@.len() - 1,
                Frame { sp, closure: old(self).frames@.last().closure },
            ),
    {
        let i = self.frames.len() - 1;
        let closure = self.frames[i].closure;
        self.frames.set(i, Frame { sp, closure });
    }

    /// Walk `depth` parent links up from the closure `start`, reporting an
    /// out-of-bounds error where the arena or the chain ends early.
    pub(crate) fn closure_at(&self, start: usize, depth: usize) -> (r: Result<
        usize,
        Box<VMError>,
    >)
        ensures
            match r {
                Ok(c) => spec_closure_ancestor(self.closures@, start as int, depth as nat)
                    == Some(c as int) && c < self.closures@.len(),
                Err(_) => spec_closure_ancestor(self.closures@, start as int, depth as nat)
                    is None,
            },
    {
        let mut c = start;
        let mut d = depth;
        loop
            invariant
                spec_closure_ancestor(self.closures@, start as int, depth as nat)
                    == spec_closure_ancestor(self.closures@, c as int, d as nat),
            decreases d,
        {
            if c >= self.closures.len() {
                return Err(Box::new(VMError::IndexOutOfBounds));
            }
            if d == 0 {
                return Ok(c);
            }
            match self.closures[c].parent {
                Some(p) => {
                    c = p;
                    d = d - 1;
                },
                None => {
                    return Err(Box::new(VMError::IndexOutOfBounds));
                },
            }
        }
    }

    /// Assign variable `var` of closure `c`.
    pub(crate) fn closure_set_var(&mut self, c: usize, var: usize, val: Val) -> (r: Result<
        (),
        Box<VMError>,
    >)
        ensures
            match r {
                Ok(_) => {
                    &&& c < old(self).closures@.len()
                    &&& var < old(self).closures@[c as int].vars@.len()
                    &&& same_except_closures(*old(self), *final(self))
                    &&& final(self).closures@.len() == old(self).closures@.len()
                    &&& forall|k: int|
                        0 <= k < old(self).closures@.len() && k != c ==> final(self).closures@[k]
                            == old(self).closures@[k]
                    &&& final(self).closures@[c as int].parent == old(self).closures@[c as int].parent
                    &&& final(self).closures@[c as int].vars@ == old(self).closures@[c as int].vars@.update(var as int, val)
                },
                Err(_) => *final(self) == *old(self) && !(c < old(self).closures@.len() && var
                    < old(self).closures@[c as int].vars@.len()),
            },
    {
        if c >= self.closures.len() {
            return Err(Box::new(VMError::IndexOutOfBounds));
        }
        if var >= self.closures[c].vars.len() {
            return Err(Box::new(VMError::IndexOutOfBounds));
        }
        let parent = self.closures[c].parent;
        let mut vars = clone_vals(&self.closures[c].vars);
        vars.set(var, val);
        self.closures.set(c, Closure { parent, vars });
        Ok(())
    }

    /// The kind of heap object `v` points at, or why it does not point at
    /// one.
    pub(crate) fn box_target(&self, v: Val, expected: ObjType) -> (r: Result<usize, Box<VMError>>)
        ensures
            match r {
                Ok(i) => v.spec_is_box() && i == v.spec_box_index() && i < self.heap@.len(),
                Err(e) => {
                    &&& !(v.spec_is_box() && v.spec_box_index() < self.heap@.len())
                    &&& v.spec_illegal() ==> *e == VMError::UnassignedVar(0)
                    &&& v.spec_is_int() ==> *e == (VMError::GcBoxTypeError {
                        expected,
                        got: ObjType::Int,
                    })
                    &&& (v.spec_is_box() && v.spec_box_index() >= self.heap@.len()) ==> *e
                        == VMError::IndexOutOfBounds
                },
            },
    {
        proof {
            let w = v.val;
            assert(0u64 & 7 == 0) by (bit_vector);
            assert(w & 7 == 1 ==> w != 0) by (bit_vector);
        }
        if v.is_illegal() {
            return Err(Box::new(VMError::UnassignedVar(0)));
        }
        if !(v.val & TAG_BITMASK == 0) {
            return Err(Box::new(VMError::GcBoxTypeError { expected, got: ObjType::Int }));
        }
        let idx = v.obj_index();
        if idx >= self.heap.len() as u64 {
            return Err(Box::new(VMError::IndexOutOfBounds));
        }
        Ok(idx as usize)
    }

    /// The heap index of the class `v` points at; a value of any other kind
    /// is a type error.
    pub fn downcast_class(&self, v: Val) -> (r: Result<usize, Box<VMError>>)
        ensures
            match r {
                Ok(i) => i < self.heap@.len() && self.heap@[i as int] is Class && v.spec_is_box()
                    && v.spec_box_index() == i,
                Err(e) => spec_class_at(self.heap@, v) is None && (v.spec_is_box()
                    && v.spec_box_index() < self.heap@.len() ==> *e == (VMError::TypeError {
                    expected: ObjType::Class,
                    got: self.heap@[v.spec_box_index()].spec_objtype(),
                })) && (v.spec_illegal() ==> *e == VMError::UnassignedVar(0)) && (v.spec_is_int()
                    ==> *e == (VMError::GcBoxTypeError {
                    expected: ObjType::Class,
                    got: ObjType::Int,
                })),
            },
    {
        let i = self.box_target(v, ObjType::Class)?;
        match &self.heap[i] {
            Obj::Class(_) => Ok(i),
            o => Err(
                Box::new(VMError::TypeError { expected: ObjType::Class, got: o.dyn_objtype() }),
            ),
        }
    }

    /// The heap index of the string `v` points at; a value of any other
    /// kind is a type error.
    pub fn downcast_string(&self, v: Val) -> (r: Result<usize, Box<VMError>>)
        ensures
            match r {
                Ok(i) => i < self.heap@.len() && self.heap@[i as int] is String_ && v.spec_is_box()
                    && v.spec_box_index() == i,
                Err(e) => crate::objects::spec_string_at(self.heap@, v) is None && (v.spec_is_box()
                    && v.spec_box_index() < self.heap@.len() ==> *e == (VMError::TypeError {
                    expected: ObjType::String_,
                    got: self.heap@[v.spec_box_index()].spec_objtype(),
                })) && (v.spec_illegal() ==> *e == VMError::UnassignedVar(0)) && (v.spec_is_int()
                    ==> *e == (VMError::GcBoxTypeError {
                    expected: ObjType::String_,
                    got: ObjType::Int,
                })),
            },
    {
        let i = self.box_target(v, ObjType::String_)?;
        match &self.heap[i] {
            Obj::String_(_) => Ok(i),
            o => Err(
                Box::new(
                    VMError::TypeError { expected: ObjType::String_, got: o.dyn_objtype() },
                ),
            ),
        }
    }

    /// The block object `v` points at; a value of any other kind is a type
    /// error.
    pub fn downcast_block(&self, v: Val) -> (r: Result<Block, Box<VMError>>)
        ensures
            match r {
                Ok(b) => v.spec_is_box() && v.spec_box_index() < self.heap@.len()
                    && self.heap@[v.spec_box_index()] == Obj::Block(b),
                Err(_) => spec_block_at(self.heap@, v) is None,
            },
    {
        let i = self.box_target(v, ObjType::Block)?;
        match &self.heap[i] {
            Obj::Block(b) => Ok(*b),
            o => Err(
                Box::new(VMError::TypeError { expected: ObjType::Block, got: o.dyn_objtype() }),
            ),
        }
    }

    /// The class a value belongs to: the integer class for integers, the
    /// registered class of its heap kind otherwise.
    pub fn get_class(&self, v: Val) -> (r: Result<Val, Box<VMError>>)
        ensures
            match self.spec_class_of(v) {
                Some(c) => r == Result::<Val, Box<VMError>>::Ok(c),
                None => r is Err,
            },
    {
        if v.val & TAG_BITMASK == 1 {
            return Ok(self.int_cls);
        }
        let i = self.box_target(v, ObjType::Class)?;
        Ok(
            match &self.heap[i] {
                Obj::Array(_) => self.arr_cls,
                Obj::Block(b) => {
                    if b.num_params == 1 {
                        self.block2_cls
                    } else if b.num_params == 2 {
                        self.block3_cls
                    } else {
                        self.block_cls
                    }
                },
                Obj::Class(_) => self.cls_cls,
                Obj::Inst(inst) => inst.class,
                Obj::Int(_) => self.int_cls,
                Obj::String_(s) => {
                    if s.is_str {
                        self.str_cls
                    } else {
                        self.sym_cls
                    }
                },
            },
        )
    }

    /// The class a value belongs to, at the specification level.
    pub open spec fn spec_class_of(self, v: Val) -> Option<Val> {
        if v.spec_is_int() {
            Some(self.int_cls)
        } else if v.spec_is_box() && v.spec_box_index() < self.heap@.len() {
            Some(
                match self.heap@[v.spec_box_index()] {
                    Obj::Array(_) => self.arr_cls,
                    Obj::Block(b) => if b.num_params == 1 {
                        self.block2_cls
                    } else if b.num_params == 2 {
                        self.block3_cls
                    } else {
                        self.block_cls
                    },
                    Obj::Class(_) => self.cls_cls,
                    Obj::Inst(inst) => inst.class,
                    Obj::Int(_) => self.int_cls,
                    Obj::String_(s) => if s.is_str {
                        self.str_cls
                    } else {
                        self.sym_cls
                    },
                },
            )
        } else {
            None
        }
    }

    /// The instruction at `pc` of the class `cls`, or `None` past the end of
    /// the stream.
    pub(crate) fn fetch_instr(&self, cls: Val, pc: usize) -> (r: Result<
        Option<crate::instrs::Instr>,
        Box<VMError>,
    >)
        ensures
            match spec_class_at(self.heap@, cls) {
                Some(c) => if pc < c.instrs@.len() {
                    r == Result::<Option<crate::instrs::Instr>, Box<VMError>>::Ok(
                        Some(c.instrs@[pc as int]),
                    )
                } else {
                    r == Result::<Option<crate::instrs::Instr>, Box<VMError>>::Ok(None)
                },
                None => r is Err,
            },
    {
        let i = self.downcast_class(cls)?;
        match &self.heap[i] {
            Obj::Class(c) => {
                if pc < c.instrs.len() {
                    Ok(Some(c.instrs[pc]))
                } else {
                    Ok(None)
                }
            },
            _ => vstd::pervasive::unreached(),
        }
    }

    /// The block-compilation record at `idx` of the class `cls`.
    pub(crate) fn blockinfo(&self, cls: Val, idx: usize) -> (r: Result<
        crate::instrs::BlockInfo,
        Box<VMError>,
    >)
        ensures
            match spec_class_at(self.heap@, cls) {
                Some(c) => if idx < c.blockinfos@.len() {
                    r == Result::<crate::instrs::BlockInfo, Box<VMError>>::Ok(
                        c.blockinfos@[idx as int],
                    )
                } else {
                    r == Result::<crate::instrs::BlockInfo, Box<VMError>>::Err(
                        Box::new(VMError::IndexOutOfBounds),
                    )
                },
                None => r is Err,
            },
    {
        let i = self.downcast_class(cls)?;
        match &self.heap[i] {
            Obj::Class(c) => {
                if idx < c.blockinfos.len() {
                    Ok(c.blockinfos[idx])
                } else {
                    Err(Box::new(VMError::IndexOutOfBounds))
                }
            },
            _ => vstd::pervasive::unreached(),
        }
    }

    /// The interned send at `moff` of the class `cls`: its selector and
    /// argument count.
    pub(crate) fn send_entry(&self, cls: Val, moff: usize) -> (r: Result<
        (String, usize),
        Box<VMError>,
    >)
        ensures
            match spec_class_at(self.heap@, cls) {
                Some(c) => if moff < c.sends@.len() {
                    r is Ok && r->Ok_0.0@ == c.sends@[moff as int].0@ && r->Ok_0.1
                        == c.sends@[moff as int].1
                } else {
                    r == Result::<(String, usize), Box<VMError>>::Err(
                        Box::new(VMError::IndexOutOfBounds),
                    )
                },
                None => r is Err,
            },
    {
        let i = self.downcast_class(cls)?;
        match &self.heap[i] {
            Obj::Class(c) => {
                if moff < c.sends.len() {
                    Ok((clone_string(&c.sends[moff].0), c.sends[moff].1))
                } else {
                    Err(Box::new(VMError::IndexOutOfBounds))
                }
            },
            _ => vstd::pervasive::unreached(),
        }
    }

    /// The interned string literal at `idx` of the class `cls`: its text
    /// and whether it is a string rather than a symbol.
    pub(crate) fn string_entry(&self, cls: Val, idx: usize) -> (r: Result<
        (String, bool),
        Box<VMError>,
    >)
        ensures
            match spec_class_at(self.heap@, cls) {
                Some(c) => if idx < c.strings@.len() {
                    r is Ok && r->Ok_0.0@ == c.strings@[idx as int].0@ && r->Ok_0.1
                        == c.strings@[idx as int].1
                } else {
                    r == Result::<(String, bool), Box<VMError>>::Err(
                        Box::new(VMError::IndexOutOfBounds),
                    )
                },
                None => r is Err,
            },
    {
        let i = self.downcast_class(cls)?;
        match &self.heap[i] {
            Obj::Class(c) => {
                if idx < c.strings.len() {
                    Ok((clone_string(&c.strings[idx].0), c.strings[idx].1))
                } else {
                    Err(Box::new(VMError::IndexOutOfBounds))
                }
            },
            _ => vstd::pervasive::unreached(),
        }
    }

    /// The constant at `idx` of the class `cls`.
    pub(crate) fn const_entry(&self, cls: Val, idx: usize) -> (r: Result<Val, Box<VMError>>)
        ensures
            match spec_class_at(self.heap@, cls) {
                Some(c) => if idx < c.consts@.len() {
                    r == Result::<Val, Box<VMError>>::Ok(c.consts@[idx as int])
                } else {
                    r == Result::<Val, Box<VMError>>::Err(Box::new(VMError::IndexOutOfBounds))
                },
                None => r is Err,
            },
    {
        let i = self.downcast_class(cls)?;
        match &self.heap[i] {
            Obj::Class(c) => {
                if idx < c.consts.len() {
                    Ok(c.consts[idx])
                } else {
                    Err(Box::new(VMError::IndexOutOfBounds))
                }
            },
            _ => vstd::pervasive::unreached(),
        }
    }

    /// Instance variable `n` of the instance `rcv` points at; the slot's
    /// raw contents, which may be the illegal placeholder.
    pub(crate) fn inst_var_lookup(&self, rcv: Val, n: usize) -> (r: Result<Val, Box<VMError>>)
        ensures
            match spec_inst_at(self.heap@, rcv) {
                Some(inst) => if n < inst.inst_vars@.len() {
                    r == Result::<Val, Box<VMError>>::Ok(inst.inst_vars@[n as int])
                } else {
                    r == Result::<Val, Box<VMError>>::Err(Box::new(VMError::IndexOutOfBounds))
                },
                None => r is Err,
            },
    {
        let i = self.box_target(rcv, ObjType::Inst)?;
        match &self.heap[i] {
            Obj::Inst(inst) => {
                if n < inst.inst_vars.len() {
                    Ok(inst.inst_vars[n])
                } else {
                    Err(Box::new(VMError::IndexOutOfBounds))
                }
            },
            o => Err(
                Box::new(VMError::TypeError { expected: ObjType::Inst, got: o.dyn_objtype() }),
            ),
        }
    }

    /// Assign instance variable `n` of the instance `rcv` points at.
    pub(crate) fn inst_var_set(&mut self, rcv: Val, n: usize, val: Val) -> (r: Result<
        (),
        Box<VMError>,
    >)
        ensures
            same_except_heap(*old(self), *final(self)),
            match spec_inst_at(old(self).heap@, rcv) {
                Some(inst) => if n < inst.inst_vars@.len() {
                    &&& r is Ok
                    &&& final(self).heap@.len() == old(self).heap@.len()
                    &&& forall|k: int|
                        0 <= k < old(self).heap@.len() && k != rcv.spec_box_index() ==> final(self).heap@[k] == old(self).heap@[k]
                    &&& match final(self).heap@[rcv.spec_box_index()] {
                        Obj::Inst(ni) => ni.class == inst.class && ni.inst_vars@
                            == inst.inst_vars@.update(n as int, val),
                        _ => false,
                    }
                } else {
                    r is Err && *final(self) == *old(self)
                },
                None => r is Err && *final(self) == *old(self),
            },
    {
        let i = self.box_target(rcv, ObjType::Inst)?;
        match &self.heap[i] {
            Obj::Inst(_) => (),
            o => {
                return Err(
                    Box::new(
                        VMError::TypeError { expected: ObjType::Inst, got: o.dyn_objtype() },
                    ),
                );
            },
        }
        let (class, mut vars) = match &self.heap[i] {
            Obj::Inst(inst) => (inst.class, clone_vals(&inst.inst_vars)),
            _ => vstd::pervasive::unreached(),
        };
        if n >= vars.len() {
            return Err(Box::new(VMError::IndexOutOfBounds));
        }
        vars.set(n, val);
        self.heap.set(i, Obj::Inst(Inst { class, inst_vars: vars }));
        Ok(())
    }

    /// Look the selector `name` up on the class `cls` and its super-chain;
    /// on success the class that defines the method and the method's body.
    pub fn get_method(&self, cls: Val, name: &String) -> (r: Result<
        (Val, MethodBody),
        Box<VMError>,
    >)
        ensures
            r is Ok ==> class_has_method(self.heap@, r->Ok_0.0, name@, r->Ok_0.1),
            match spec_chain_lookup(self.heap@, cls, name@, (self.heap@.len() + 1) as nat) {
                MethodLookup::Found(mcls, b) => r == Result::<
                    (Val, MethodBody),
                    Box<VMError>,
                >::Ok((mcls, b)),
                MethodLookup::NotFound => r is Err && (match *r->Err_0 {
                    VMError::UnknownMethod(s) => s@ == name@,
                    _ => false,
                }),
                MethodLookup::Abort => r is Err,
            },
    {
        let mut cur = cls;
        let mut steps: usize = 0;
        let bound = self.heap.len();
        loop
            invariant
                bound == self.heap@.len(),
                steps <= bound,
                spec_chain_lookup(self.heap@, cls, name@, (bound + 1) as nat)
                    == spec_chain_lookup(self.heap@, cur, name@, (bound + 1 - steps) as nat),
            decreases bound - steps,
        {
            let i = self.downcast_class(cur)?;
            let mut next: Option<Val> = None;
            match &self.heap[i] {
                Obj::Class(c) => {
                    let mut k: usize = 0;
                    while k < c.methods.len()
                        invariant
                            0 <= i < self.heap@.len(),
                            self.heap@[i as int] == Obj::Class(*c),
                            cur.spec_is_box(),
                            cur.spec_box_index() == i,
                            k <= c.methods@.len(),
                            forall|j: int|
                                0 <= j < k ==> (#[trigger] c.methods@[j]).name@ != name@,
                            bound == self.heap@.len(),
                            steps <= bound,
                            spec_chain_lookup(self.heap@, cls, name@, (bound + 1) as nat)
                                == spec_chain_lookup(
                                self.heap@,
                                cur,
                                name@,
                                (bound + 1 - steps) as nat,
                            ),
                        decreases c.methods@.len() - k,
                    {
                        if string_eq(&c.methods[k].name, name) {
                            proof {
                                assert(spec_class_at(self.heap@, cur) == Some(*c));
                                lemma_first_method_at(c.methods@, name@, k as int);
                            }
                            return Ok((cur, c.methods[k].body));
                        }
                        k = k + 1;
                    }
                    next = c.supercls;
                    proof {
                        assert(spec_class_at(self.heap@, cur) == Some(*c));
                        lemma_first_method_none(c.methods@, name@);
                    }
                },
                _ => {
                    let _: () = vstd::pervasive::unreached();
                },
            }
            match next {
                Some(s) => {
                    proof {
                        assert(spec_chain_lookup(self.heap@, cur, name@, (bound + 1
                            - steps) as nat) == spec_chain_lookup(
                            self.heap@,
                            s,
                            name@,
                            (bound - steps) as nat,
                        ));
                    }
                    cur = s;
                },
                None => {
                    proof {
                        assert(spec_chain_lookup(self.heap@, cur, name@, (bound + 1
                            - steps) as nat) == MethodLookup::NotFound);
                    }
                    return Err(Box::new(VMError::UnknownMethod(clone_string(name))));
                },
            }
            if steps >= bound {
                proof {
                    assert(spec_chain_lookup(self.heap@, cur, name@, (bound - steps) as nat)
                        == MethodLookup::Abort);
                }
                return Err(Box::new(VMError::UnknownMethod(clone_string(name))));
            }
            steps = steps + 1;
        }
    }
}

/// The second text starts with the first: printing only appends.
pub open spec fn text_extends(post: Seq<char>, pre: Seq<char>) -> bool {
    post.len() >= pre.len() && post.subrange(0, pre.len() as int) == pre
}

/// Text extension is reflexive.
pub proof fn lemma_text_extends_refl(a: Seq<char>)
    ensures
        text_extends(a, a),
{
    assert(a.subrange(0, a.len() as int) =~= a);
}

/// Text extension composes.
pub proof fn lemma_text_extends_trans(a: Seq<char>, b: Seq<char>, c: Seq<char>)
    requires
        text_extends(b, a),
        text_extends(c, b),
    ensures
        text_extends(c, a),
{
    assert(c.subrange(0, a.len() as int) =~= a);
}

/// The closure arena only grows, and existing closures keep their parent
/// link and their slot count (assignment may change a slot's value, never
/// the shape).
pub open spec fn closures_extend(pre: Seq<Closure>, post: Seq<Closure>) -> bool {
    post.len() >= pre.len() && forall|k: int|
        0 <= k < pre.len() ==> (#[trigger] post[k]).parent == pre[k].parent && post[k].vars@.len()
            == pre[k].vars@.len()
}

/// Closure extension is reflexive.
pub proof fn lemma_closures_extend_refl(a: Seq<Closure>)
    ensures
        closures_extend(a, a),
{
}

/// Closure extension composes.
pub proof fn lemma_closures_extend_trans(a: Seq<Closure>, b: Seq<Closure>, c: Seq<Closure>)
    requires
        closures_extend(a, b),
        closures_extend(b, c),
    ensures
        closures_extend(a, c),
{
}

/// The second stack is the first with exactly one more value on top.
pub open spec fn stack_pushed(pre: Seq<Val>, post: Seq<Val>) -> bool {
    post.len() == pre.len() + 1 && post.subrange(0, pre.len() as int) == pre
}

/// A spec-level, fueled interpretation of the instruction stream for the
/// fragment whose effect touches only the operand stack: integer literals
/// in the unboxed range, builtin pushes, `Pop`, and `Return`.  `Some(s)`
/// means execution from `pc` reaches a `Return` leaving the stack `s`;
/// any other instruction, a fall off the stream, an empty-stack pop or
/// exhausted fuel is `None`.
pub open spec fn spec_linear_exec(
    vm: VM,
    c: Class,
    pc: int,
    stack: Seq<Val>,
    gas: nat,
) -> Option<Seq<Val>>
    decreases gas,
{
    if gas == 0 {
        None
    } else if pc < 0 || pc >= c.instrs@.len() || pc >= usize::MAX as int {
        None
    } else {
        match c.instrs@[pc] {
            crate::instrs::Instr::Return => Some(stack),
            crate::instrs::Instr::Int(n) => if crate::val::spec_fits_unboxed(n as int) {
                spec_linear_exec(
                    vm,
                    c,
                    pc + 1,
                    stack.push(crate::val::spec_encode_unboxed(n as i64)),
                    (gas - 1) as nat,
                )
            } else {
                None
            },
            crate::instrs::Instr::Builtin(b) => spec_linear_exec(
                vm,
                c,
                pc + 1,
                stack.push(
                    match b {
                        crate::instrs::Builtin::Nil => vm.nil,
                        crate::instrs::Builtin::False => vm.false_,
                        crate::instrs::Builtin::System => vm.system,
                        crate::instrs::Builtin::True => vm.true_,
                    },
                ),
                (gas - 1) as nat,
            ),
            crate::instrs::Instr::Pop => if stack.len() > 0 {
                spec_linear_exec(vm, c, pc + 1, stack.drop_last(), (gas - 1) as nat)
            } else {
                None
            },
            _ => None,
        }
    }
}

/// As `spec_linear_exec`, reading the class through its handle.
pub open spec fn spec_linear_result(
    vm: VM,
    cls_val: Val,
    pc: int,
    stack: Seq<Val>,
    gas: nat,
) -> Option<Seq<Val>> {
    match spec_class_at(vm.heap@, cls_val) {
        Some(c) => spec_linear_exec(vm, c, pc, stack, gas),
        None => None,
    }
}

/// One unfolding step of the linear interpretation.
proof fn lemma_linear_step(vm: VM, cls_val: Val, pc: int, stack: Seq<Val>, gas: nat)
    requires
        gas > 0,
        spec_class_at(vm.heap@, cls_val) is Some,
    ensures
        ({
            let c = spec_class_at(vm.heap@, cls_val)->Some_0;
            spec_linear_result(vm, cls_val, pc, stack, gas) == (if pc < 0 || pc
                >= c.instrs@.len() || pc >= usize::MAX as int {
                Option::<Seq<Val>>::None
            } else {
                match c.instrs@[pc] {
                    crate::instrs::Instr::Return => Some(stack),
                    crate::instrs::Instr::Int(n) => if crate::val::spec_fits_unboxed(n as int) {
                        spec_linear_result(
                            vm,
                            cls_val,
                            pc + 1,
                            stack.push(crate::val::spec_encode_unboxed(n as i64)),
                            (gas - 1) as nat,
                        )
                    } else {
                        None
                    },
                    crate::instrs::Instr::Builtin(b) => spec_linear_result(
                        vm,
                        cls_val,
                        pc + 1,
                        stack.push(
                            match b {
                                crate::instrs::Builtin::Nil => vm.nil,
                                crate::instrs::Builtin::False => vm.false_,
                                crate::instrs::Builtin::System => vm.system,
                                crate::instrs::Builtin::True => vm.true_,
                            },
                        ),
                        (gas - 1) as nat,
                    ),
                    crate::instrs::Instr::Pop => if stack.len() > 0 {
                        spec_linear_result(vm, cls_val, pc + 1, stack.drop_last(), (gas - 1) as nat)
                    } else {
                        None
                    },
                    _ => None,
                }
            })
        }),
{
}

/// As `spec_linear_exec`, extended with variable reads: `VarLookup(d, n)`
/// pushes slot `n` of the closure `d` levels out from the executing
/// activation's closure `fcl`.  This variant names that closure, so it
/// describes `exec_user` directly; the closure-free variant above serves
/// `send`, whose caller cannot name the activation it creates.
pub open spec fn spec_linear_vars_exec(
    vm: VM,
    fcl: int,
    c: Class,
    pc: int,
    stack: Seq<Val>,
    gas: nat,
) -> Option<Seq<Val>>
    decreases gas,
{
    if gas == 0 {
        None
    } else if pc < 0 || pc >= c.instrs@.len() || pc >= usize::MAX as int {
        None
    } else {
        match c.instrs@[pc] {
            crate::instrs::Instr::Return => Some(stack),
            crate::instrs::Instr::Int(n) => if crate::val::spec_fits_unboxed(n as int) {
                spec_linear_vars_exec(
                    vm,
                    fcl,
                    c,
                    pc + 1,
                    stack.push(crate::val::spec_encode_unboxed(n as i64)),
                    (gas - 1) as nat,
                )
            } else {
                None
            },
            crate::instrs::Instr::Builtin(b) => spec_linear_vars_exec(
                vm,
                fcl,
                c,
                pc + 1,
                stack.push(
                    match b {
                        crate::instrs::Builtin::Nil => vm.nil,
                        crate::instrs::Builtin::False => vm.false_,
                        crate::instrs::Builtin::System => vm.system,
                        crate::instrs::Builtin::True => vm.true_,
                    },
                ),
                (gas - 1) as nat,
            ),
            crate::instrs::Instr::Pop => if stack.len() > 0 {
                spec_linear_vars_exec(vm, fcl, c, pc + 1, stack.drop_last(), (gas - 1) as nat)
            } else {
                None
            },
            crate::instrs::Instr::VarLookup(d, n) => match spec_closure_ancestor(
                vm.closures@,
                fcl,
                d as nat,
            ) {
                Some(ci) => if (n as int) < vm.closures@[ci].vars@.len() && !vm.closures@[ci].vars@[n as int].spec_illegal() {
                    spec_linear_vars_exec(
                        vm,
                        fcl,
                        c,
                        pc + 1,
                        stack.push(vm.closures@[ci].vars@[n as int]),
                        (gas - 1) as nat,
                    )
                } else {
                    None
                },
                None => None,
            },
            _ => None,
        }
    }
}

/// As `spec_linear_vars_exec`, reading the class through its handle.
pub open spec fn spec_linear_vars_result(
    vm: VM,
    fcl: int,
    cls_val: Val,
    pc: int,
    stack: Seq<Val>,
    gas: nat,
) -> Option<Seq<Val>> {
    match spec_class_at(vm.heap@, cls_val) {
        Some(c) => spec_linear_vars_exec(vm, fcl, c, pc, stack, gas),
        None => None,
    }
}

/// One unfolding step of the variable-reading linear interpretation.
proof fn lemma_linear_vars_step(vm: VM, fcl: int, cls_val: Val, pc: int, stack: Seq<Val>, gas: nat)
    requires
        gas > 0,
        spec_class_at(vm.heap@, cls_val) is Some,
    ensures
        ({
            let c = spec_class_at(vm.heap@, cls_val)->Some_0;
            spec_linear_vars_result(vm, fcl, cls_val, pc, stack, gas) == (if pc < 0 || pc
                >= c.instrs@.len() || pc >= usize::MAX as int {
                Option::<Seq<Val>>::None
            } else {
                match c.instrs@[pc] {
                    crate::instrs::Instr::Return => Some(stack),
                    crate::instrs::Instr::Int(n) => if crate::val::spec_fits_unboxed(n as int) {
                        spec_linear_vars_result(
                            vm,
                            fcl,
                            cls_val,
                            pc + 1,
                            stack.push(crate::val::spec_encode_unboxed(n as i64)),
                            (gas - 1) as nat,
                        )
                    } else {
                        None
                    },
                    crate::instrs::Instr::Builtin(b) => spec_linear_vars_result(
                        vm,
                        fcl,
                        cls_val,
                        pc + 1,
                        stack.push(
                            match b {
                                crate::instrs::Builtin::Nil => vm.nil,
                                crate::instrs::Builtin::False => vm.false_,
                                crate::instrs::Builtin::System => vm.system,
                                crate::instrs::Builtin::True => vm.true_,
                            },
                        ),
                        (gas - 1) as nat,
                    ),
                    crate::instrs::Instr::Pop => if stack.len() > 0 {
                        spec_linear_vars_result(
                            vm,
                            fcl,
                            cls_val,
                            pc + 1,
                            stack.drop_last(),
                            (gas - 1) as nat,
                        )
                    } else {
                        None
                    },
                    crate::instrs::Instr::VarLookup(d, n) => match spec_closure_ancestor(
                        vm.closures@,
                        fcl,
                        d as nat,
                    ) {
                        Some(ci) => if (n as int) < vm.closures@[ci].vars@.len()
                            && !vm.closures@[ci].vars@[n as int].spec_illegal() {
                            spec_linear_vars_result(
                                vm,
                                fcl,
                                cls_val,
                                pc + 1,
                                stack.push(vm.closures@[ci].vars@[n as int]),
                                (gas - 1) as nat,
                            )
                        } else {
                            None
                        },
                        None => None,
                    },
                    _ => None,
                }
            })
        }),
{
}

/// A found ancestor is a cell of the arena.
proof fn lemma_ancestor_in_range(closures: Seq<Closure>, id: int, depth: nat)
    ensures
        match spec_closure_ancestor(closures, id, depth) {
            Some(c) => 0 <= c < closures.len(),
            None => true,
        },
    decreases depth,
{
    if 0 <= id < closures.len() && depth > 0 {
        match closures[id].parent {
            Some(p) => {
                lemma_ancestor_in_range(closures, p as int, (depth - 1) as nat);
            },
            None => (),
        }
    }
}

/// The ancestor walk reads only parent links: arenas agreeing on them
/// walk alike.
proof fn lemma_ancestor_agrees(cl1: Seq<Closure>, cl2: Seq<Closure>, id: int, depth: nat)
    requires
        cl1.len() == cl2.len(),
        forall|k: int|
            0 <= k < cl1.len() ==> (#[trigger] cl2[k]).parent == cl1[k].parent && cl2[k].vars@
                == cl1[k].vars@,
    ensures
        spec_closure_ancestor(cl1, id, depth) == spec_closure_ancestor(cl2, id, depth),
    decreases depth,
{
    if 0 <= id < cl1.len() && depth > 0 {
        match cl1[id].parent {
            Some(p) => {
                lemma_ancestor_agrees(cl1, cl2, p as int, (depth - 1) as nat);
            },
            None => (),
        }
    }
}

/// The variable-reading interpretation reads only the heap, the four
/// singletons, and the closures' parents and slots: states agreeing on
/// those interpret alike.
proof fn lemma_linear_vars_agrees(
    vm1: VM,
    vm2: VM,
    fcl: int,
    cls_val: Val,
    pc: int,
    stack: Seq<Val>,
    gas: nat,
)
    requires
        vm1.heap@ == vm2.heap@,
        vm1.nil == vm2.nil,
        vm1.false_ == vm2.false_,
        vm1.system == vm2.system,
        vm1.true_ == vm2.true_,
        vm1.closures@.len() == vm2.closures@.len(),
        forall|k: int|
            0 <= k < vm1.closures@.len() ==> (#[trigger] vm2.closures@[k]).parent
                == vm1.closures@[k].parent && vm2.closures@[k].vars@ == vm1.closures@[k].vars@,
    ensures
        spec_linear_vars_result(vm1, fcl, cls_val, pc, stack, gas) == spec_linear_vars_result(
            vm2,
            fcl,
            cls_val,
            pc,
            stack,
            gas,
        ),
    decreases gas,
{
    if gas > 0 && spec_class_at(vm1.heap@, cls_val) is Some {
        lemma_linear_vars_step(vm1, fcl, cls_val, pc, stack, gas);
        lemma_linear_vars_step(vm2, fcl, cls_val, pc, stack, gas);
    }
    if gas > 0 {
        match spec_class_at(vm1.heap@, cls_val) {
            Some(c) => {
                if 0 <= pc < c.instrs@.len() && pc < usize::MAX as int {
                    match c.instrs@[pc] {
                        crate::instrs::Instr::Int(n) => {
                            if crate::val::spec_fits_unboxed(n as int) {
                                lemma_linear_vars_agrees(
                                    vm1,
                                    vm2,
                                    fcl,
                                    cls_val,
                                    pc + 1,
                                    stack.push(crate::val::spec_encode_unboxed(n as i64)),
                                    (gas - 1) as nat,
                                );
                            }
                        },
                        crate::instrs::Instr::Builtin(b) => {
                            lemma_linear_vars_agrees(
                                vm1,
                                vm2,
                                fcl,
                                cls_val,
                                pc + 1,
                                stack.push(
                                    match b {
                                        crate::instrs::Builtin::Nil => vm1.nil,
                                        crate::instrs::Builtin::False => vm1.false_,
                                        crate::instrs::Builtin::System => vm1.system,
                                        crate::instrs::Builtin::True => vm1.true_,
                                    },
                                ),
                                (gas - 1) as nat,
                            );
                        },
                        crate::instrs::Instr::Pop => {
                            if stack.len() > 0 {
                                lemma_linear_vars_agrees(
                                    vm1,
                                    vm2,
                                    fcl,
                                    cls_val,
                                    pc + 1,
                                    stack.drop_last(),
                                    (gas - 1) as nat,
                                );
                            }
                        },
                        crate::instrs::Instr::VarLookup(d, n) => {
                            lemma_ancestor_agrees(
                                vm1.closures@,
                                vm2.closures@,
                                fcl,
                                d as nat,
                            );
                            lemma_ancestor_in_range(vm1.closures@, fcl, d as nat);
                            match spec_closure_ancestor(vm1.closures@, fcl, d as nat) {
                                Some(ci) => {
                                    if (n as int) < vm1.closures@[ci].vars@.len()
                                        && !vm1.closures@[ci].vars@[n as int].spec_illegal() {
                                        lemma_linear_vars_agrees(
                                            vm1,
                                            vm2,
                                            fcl,
                                            cls_val,
                                            pc + 1,
                                            stack.push(vm1.closures@[ci].vars@[n as int]),
                                            (gas - 1) as nat,
                                        );
                                    }
                                },
                                None => (),
                            }
                        },
                        _ => (),
                    }
                }
            },
            None => (),
        }
    }
}

/// The linear interpretation reads only the heap and the four singletons:
/// two states agreeing on those interpret alike.
proof fn lemma_linear_agrees(vm1: VM, vm2: VM, cls_val: Val, pc: int, stack: Seq<Val>, gas: nat)
    requires
        vm1.heap@ == vm2.heap@,
        vm1.nil == vm2.nil,
        vm1.false_ == vm2.false_,
        vm1.system == vm2.system,
        vm1.true_ == vm2.true_,
    ensures
        spec_linear_result(vm1, cls_val, pc, stack, gas) == spec_linear_result(
            vm2,
            cls_val,
            pc,
            stack,
            gas,
        ),
    decreases gas,
{
    if gas > 0 {
        match spec_class_at(vm1.heap@, cls_val) {
            Some(c) => {
                if 0 <= pc < c.instrs@.len() && pc < usize::MAX as int {
                    match c.instrs@[pc] {
                        crate::instrs::Instr::Int(n) => {
                            if crate::val::spec_fits_unboxed(n as int) {
                                lemma_linear_agrees(
                                    vm1,
                                    vm2,
                                    cls_val,
                                    pc + 1,
                                    stack.push(crate::val::spec_encode_unboxed(n as i64)),
                                    (gas - 1) as nat,
                                );
                            }
                        },
                        crate::instrs::Instr::Builtin(b) => {
                            lemma_linear_agrees(
                                vm1,
                                vm2,
                                cls_val,
                                pc + 1,
                                stack.push(
                                    match b {
                                        crate::instrs::Builtin::Nil => vm1.nil,
                                        crate::instrs::Builtin::False => vm1.false_,
                                        crate::instrs::Builtin::System => vm1.system,
                                        crate::instrs::Builtin::True => vm1.true_,
                                    },
                                ),
                                (gas - 1) as nat,
                            );
                        },
                        crate::instrs::Instr::Pop => {
                            if stack.len() > 0 {
                                lemma_linear_agrees(
                                    vm1,
                                    vm2,
                                    cls_val,
                                    pc + 1,
                                    stack.drop_last(),
                                    (gas - 1) as nat,
                                );
                            }
                        },
                        _ => (),
                    }
                }
            },
            None => (),
        }
    }
}

/// The (internal) result of a send.
pub(crate) enum SendReturn {
    /// A closure wants to perform a return `n` frames up the call stack.
    ClosureReturn(usize),
    /// An error has occurred.
    Error(Box<VMError>),
    /// A return value has been left on top of the operand stack.
    Val,
}

/// The isize the value `v` reads as, if an as-isize read of it succeeds.
pub open spec fn spec_isize_of(heap: Seq<Obj>, v: Val) -> Option<int> {
    if v.spec_is_int() {
        if crate::val::spec_fits_isize(v.spec_int_val()) {
            Some(v.spec_int_val())
        } else {
            None
        }
    } else if v.spec_is_box() && v.spec_box_index() < heap.len() {
        match heap[v.spec_box_index()] {
            Obj::Int(j) => Some(j as int),
            _ => None,
        }
    } else {
        None
    }
}

/// The integer a value holds, unboxed or boxed, if it holds one.
pub open spec fn spec_num_val(heap: Seq<Obj>, v: Val) -> Option<int> {
    if v.spec_is_int() {
        Some(v.spec_int_val())
    } else if v.spec_is_box() && v.spec_box_index() < heap.len() {
        match heap[v.spec_box_index()] {
            Obj::Int(j) => Some(j as int),
            _ => None,
        }
    } else {
        None
    }
}

/// Value equality: integers by value, strings by kind and text, everything
/// else by identity of the word.
pub open spec fn spec_val_eq(heap: Seq<Obj>, a: Val, b: Val) -> bool {
    match (spec_isize_of(heap, a), spec_isize_of(heap, b)) {
        (Some(x), Some(y)) => x == y,
        _ => match (
            crate::objects::spec_string_at(heap, a),
            crate::objects::spec_string_at(heap, b),
        ) {
            (Some(s1), Some(s2)) => s1.is_str == s2.is_str && s1.s@ == s2.s@,
            _ => a.val == b.val,
        },
    }
}

/// Reference equality is identity: the same unboxed integer word, or a
/// handle to the very same heap cell.
pub open spec fn spec_ref_eq(a: Val, b: Val) -> bool {
    a.val == b.val
}

impl VM {
    /// The current (top-most) activation frame.
    pub(crate) fn current_frame(&self) -> (r: Frame)
        requires
            self.frames@.len() > 0,
        ensures
            r == self.frames@.last(),
    {
        self.frames[self.frames.len() - 1]
    }

    /// The integer `v` reads as, or nothing when it is not one.
    pub(crate) fn num_of(&self, v: Val) -> (r: Option<isize>)
        ensures
            (r is Some <==> spec_isize_of(self.heap@, v) is Some),
            r is Some ==> Some(r->0 as int) == spec_isize_of(self.heap@, v),
    {
        match v.as_isize(self) {
            Ok(x) => Some(x),
            Err(_) => None,
        }
    }

    /// The string `v` points at, or nothing when it is not one.
    pub(crate) fn try_string(&self, v: Val) -> (r: Option<(String, bool)>)
        ensures
            match crate::objects::spec_string_at(self.heap@, v) {
                Some(os) => r is Some && (r->0).0@ == os.s@ && (r->0).1 == os.is_str,
                None => r is None,
            },
    {
        match crate::objects::str_data(self, v) {
            Ok(t) => Some(t),
            Err(_) => None,
        }
    }

    /// The discriminator of the object `v` points at, for error reports; an
    /// integer of either representation reports the integer kind.
    pub(crate) fn objtype_of(&self, v: Val) -> ObjType {
        if v.val & TAG_BITMASK == 1 {
            return ObjType::Int;
        }
        match self.box_target(v, ObjType::Int) {
            Ok(i) => self.heap[i].dyn_objtype(),
            Err(_) => ObjType::Int,
        }
    }

    /// The VM's true or false singleton.
    pub(crate) fn bool_val(&self, b: bool) -> (r: Val)
        ensures
            r == (if b {
                self.true_
            } else {
                self.false_
            }),
    {
        if b {
            self.true_
        } else {
            self.false_
        }
    }

    /// Value equality of two values.
    pub(crate) fn val_equals(&self, a: Val, b: Val) -> (r: bool)
        ensures
            r == spec_val_eq(self.heap@, a, b),
    {
        match (self.num_of(a), self.num_of(b)) {
            (Some(x), Some(y)) => x == y,
            _ => match (self.try_string(a), self.try_string(b)) {
                (Some(s1), Some(s2)) => s1.1 == s2.1 && string_eq(&s1.0, &s2.0),
                _ => a.val == b.val,
            },
        }
    }

    /// Reference equality of two values.
    pub(crate) fn val_ref_equals(&self, a: Val, b: Val) -> (r: bool)
        ensures
            r == spec_ref_eq(a, b),
    {
        a.val == b.val
    }

    /// Append `s` to the collected program output.
    pub(crate) fn output_str(&mut self, s: &str)
        ensures
            same_globals(*old(self), *final(self)),
            final(self).heap@ == old(self).heap@,
            final(self).stack@ == old(self).stack@,
            final(self).frames@ == old(self).frames@,
            final(self).closures@ == old(self).closures@,
            final(self).output@ == old(self).output@ + s@,
            text_extends(final(self).output@, old(self).output@),
    {
        self.output.append(s);
        proof {
            assert(self.output@.subrange(0, old(self).output@.len() as int) =~= old(self).output@);
        }
    }

    /// The integer `x` as a value, boxed when out of the unboxed range.
    pub(crate) fn int_result(&mut self, x: isize) -> (r: Val)
        ensures
            same_except_heap(*old(self), *final(self)),
            final(self).heap@.len() >= old(self).heap@.len(),
            final(self).heap@.subrange(0, old(self).heap@.len() as int) == old(self).heap@,
            (crate::val::spec_fits_unboxed(x as int) || old(self).heap@.len()
                < crate::val::HEAP_LIMIT) ==> spec_num_val(final(self).heap@, r) == Some(x as int),
    {
        let ghost pre = self.heap@;
        let r = Val::from_isize(self, x).unwrap();
        proof {
            assert(self.heap@.subrange(0, pre.len() as int) =~= pre);
        }
        r
    }

    /// Both operands as integers, or the error a numeric primitive reports
    /// for the pair.
    pub(crate) fn both_ints(&self, a: Val, b: Val) -> (r: Result<(isize, isize), Box<VMError>>)
        ensures
            match (spec_isize_of(self.heap@, a), spec_isize_of(self.heap@, b)) {
                (Some(x), Some(y)) => r is Ok && r->Ok_0.0 as int == x && r->Ok_0.1 as int == y,
                _ => r is Err,
            },
    {
        let x = match self.num_of(a) {
            Some(x) => x,
            None => {
                return Err(Box::new(VMError::NotANumber { got: self.objtype_of(a) }));
            },
        };
        let y = match self.num_of(b) {
            Some(y) => y,
            None => {
                return Err(Box::new(VMError::NotANumber { got: self.objtype_of(b) }));
            },
        };
        Ok((x, y))
    }
}

/// The block object that evaluating a block literal in the given VM state
/// creates: it captures the current activation's closure.
pub open spec fn spec_block_for(vm: VM, cls_val: Val, blkinfo_off: usize, num_params: usize) -> Block {
    Block {
        blockinfo_cls: cls_val,
        blockinfo_off: blkinfo_off,
        parent_closure: vm.frames@.last().closure,
        num_params: num_params,
    }
}

/// The block object a value points at, when it points at one.
pub open spec fn spec_block_at(heap: Seq<Obj>, v: Val) -> Option<Block> {
    if v.spec_is_box() && v.spec_box_index() < heap.len() {
        match heap[v.spec_box_index()] {
            Obj::Block(b) => Some(b),
            _ => None,
        }
    } else {
        None
    }
}

/// The instance a value points at, when it points at one.
pub open spec fn spec_inst_at(heap: Seq<Obj>, v: Val) -> Option<Inst> {
    if v.spec_is_box() && v.spec_box_index() < heap.len() {
        match heap[v.spec_box_index()] {
            Obj::Inst(inst) => Some(inst),
            _ => None,
        }
    } else {
        None
    }
}

/// The body of the first method of the table bearing `name`, if any; a
/// send resolves to the first match, so a redefinition earlier in the
/// table shadows a later one and a subclass entry shadows the super-chain.
pub open spec fn spec_first_method(ms: Seq<Method>, name: Seq<char>) -> Option<MethodBody>
    decreases ms.len(),
{
    if ms.len() == 0 {
        None
    } else if ms[0].name@ == name {
        Some(ms[0].body)
    } else {
        spec_first_method(ms.drop_first(), name)
    }
}

/// If the first `k` methods miss and method `k` matches, the first match
/// is method `k`.
proof fn lemma_first_method_at(ms: Seq<Method>, name: Seq<char>, k: int)
    requires
        0 <= k < ms.len(),
        forall|j: int| 0 <= j < k ==> (#[trigger] ms[j]).name@ != name,
        ms[k].name@ == name,
    ensures
        spec_first_method(ms, name) == Some(ms[k].body),
    decreases k,
{
    if k > 0 {
        lemma_first_method_at(ms.drop_first(), name, k - 1);
    }
}

/// If no method of the table matches, there is no first match.
proof fn lemma_first_method_none(ms: Seq<Method>, name: Seq<char>)
    requires
        forall|j: int| 0 <= j < ms.len() ==> (#[trigger] ms[j]).name@ != name,
    ensures
        spec_first_method(ms, name) is None,
    decreases ms.len(),
{
    if ms.len() > 0 {
        lemma_first_method_none(ms.drop_first(), name);
    }
}

/// The outcome of resolving a selector along a super chain.
pub enum MethodLookup {
    /// The first class on the chain defining the selector, with the first
    /// matching method's body there.
    Found(Val, MethodBody),
    /// The chain ended at a class without a super and without a match.
    NotFound,
    /// The walk met a value that is not a class, or ran out of fuel.
    Abort,
}

/// Resolve `name` on `cls` and its super chain: the first class defining
/// it wins, and within a class the first matching method wins.
pub open spec fn spec_chain_lookup(
    heap: Seq<Obj>,
    cls: Val,
    name: Seq<char>,
    fuel: nat,
) -> MethodLookup
    decreases fuel,
{
    if fuel == 0 {
        MethodLookup::Abort
    } else {
        match spec_class_at(heap, cls) {
            Some(c) => match spec_first_method(c.methods@, name) {
                Some(b) => MethodLookup::Found(cls, b),
                None => match c.supercls {
                    Some(s) => spec_chain_lookup(heap, s, name, (fuel - 1) as nat),
                    None => MethodLookup::NotFound,
                },
            },
            None => MethodLookup::Abort,
        }
    }
}

/// The class `mcls` defines a method named `name` whose body is `body`.
pub open spec fn class_has_method(
    heap: Seq<Obj>,
    mcls: Val,
    name: Seq<char>,
    body: MethodBody,
) -> bool {
    match spec_class_at(heap, mcls) {
        Some(c) => exists|j: int|
            0 <= j < c.methods@.len() && (#[trigger] c.methods@[j]).name@ == name
                && c.methods@[j].body == body,
        None => false,
    }
}

/// The closure `depth` parent links up from the closure `id`, where the
/// chain and the arena allow the walk.
pub open spec fn spec_closure_ancestor(closures: Seq<Closure>, id: int, depth: nat) -> Option<int>
    decreases depth,
{
    if id < 0 || id >= closures.len() {
        None
    } else if depth == 0 {
        Some(id)
    } else {
        match closures[id].parent {
            Some(p) => spec_closure_ancestor(closures, p as int, (depth - 1) as nat),
            None => None,
        }
    }
}

/// Only the activation stack may differ between the two states.
pub open spec fn same_except_frames(pre: VM, post: VM) -> bool {
    &&& same_globals(pre, post)
    &&& post.heap@ == pre.heap@
    &&& post.stack@ == pre.stack@
    &&& post.closures@ == pre.closures@
    &&& post.output@ == pre.output@
}

/// Only the closure arena may differ between the two states.
pub open spec fn same_except_closures(pre: VM, post: VM) -> bool {
    &&& same_globals(pre, post)
    &&& post.heap@ == pre.heap@
    &&& post.stack@ == pre.stack@
    &&& post.frames@ == pre.frames@
    &&& post.output@ == pre.output@
}

/// The variable slots a fresh activation starts with: the receiver in slot
/// zero for methods, then the arguments, then illegal placeholders for the
/// locals.
pub open spec fn spec_frame_vars(
    is_method: bool,
    self_val: Val,
    args: Seq<Val>,
    num_vars: nat,
) -> Seq<Val> {
    Seq::new(
        num_vars,
        |j: int|
            if is_method {
                if j == 0 {
                    self_val
                } else if j <= args.len() {
                    args[j - 1]
                } else {
                    Val { val: 0 }
                }
            } else {
                if j < args.len() {
                    args[j]
                } else {
                    Val { val: 0 }
                }
            },
    )
}

impl Frame {
    /// Create an activation frame: allocate a fresh closure holding the
    /// receiver (for methods), the arguments, and illegal placeholders for
    /// the locals.
    pub fn new(
        vm: &mut VM,
        is_method: bool,
        self_val: Val,
        parent_closure: Option<usize>,
        num_vars: usize,
        args: Vec<Val>,
    ) -> (r: Frame)
        requires
            is_method ==> num_vars >= 1 + args@.len(),
            !is_method ==> num_vars >= args@.len(),
        ensures
            same_except_closures(*old(vm), *final(vm)),
            final(vm).closures@.len() == old(vm).closures@.len() + 1,
            final(vm).closures@.subrange(0, old(vm).closures@.len() as int) == old(vm).closures@,
            final(vm).closures@.last().parent == parent_closure,
            final(vm).closures@.last().vars@ == spec_frame_vars(
                is_method,
                self_val,
                args@,
                num_vars as nat,
            ),
            r.sp == 0,
            r.closure == old(vm).closures@.len(),
    {
        let mut vars: Vec<Val> = Vec::new();
        while vars.len() < num_vars
            invariant
                vars@.len() <= num_vars,
                forall|k: int| 0 <= k < vars@.len() ==> (#[trigger] vars@[k]).val == 0,
            decreases num_vars - vars@.len(),
        {
            vars.push(Val::illegal());
        }
        if is_method {
            vars.set(0, self_val);
            let mut i: usize = 0;
            while i < args.len()
                invariant
                    is_method,
                    num_vars >= 1 + args@.len(),
                    i <= args@.len(),
                    vars@.len() == num_vars,
                    vars@[0] == self_val,
                    forall|k: int| 1 <= k <= i ==> vars@[k] == args@[k - 1],
                    forall|k: int| i < k < num_vars ==> (#[trigger] vars@[k]).val == 0,
                decreases args@.len() - i,
            {
                vars.set(i + 1, args[i]);
                i = i + 1;
            }
        } else {
            let mut i: usize = 0;
            while i < args.len()
                invariant
                    !is_method,
                    num_vars >= args@.len(),
                    i <= args@.len(),
                    vars@.len() == num_vars,
                    forall|k: int| 0 <= k < i ==> vars@[k] == args@[k],
                    forall|k: int| i <= k < num_vars ==> (#[trigger] vars@[k]).val == 0,
                decreases args@.len() - i,
            {
                vars.set(i, args[i]);
                i = i + 1;
            }
        }
        proof {
            assert(vars@ =~= spec_frame_vars(is_method, self_val, args@, num_vars as nat));
        }
        let id = vm.closures.len();
        vm.closures.push(Closure { parent: parent_closure, vars });
        proof {
            assert(vm.closures@.subrange(0, old(vm).closures@.len() as int) =~= old(vm).closures@);
        }
        Frame { sp: 0, closure: id }
    }

    /// Read variable `var` of the closure `depth` levels out from this
    /// frame's closure; an unassigned slot is an error.
    pub fn var_lookup(&self, vm: &VM, depth: usize, var: usize) -> (r: ValResult)
        ensures
            match spec_closure_ancestor(vm.closures@, self.closure as int, depth as nat) {
                Some(c) => {
                    let vars = vm.closures@[c].vars@;
                    if var < vars.len() {
                        if vars[var as int].spec_illegal() {
                            !r.is_val_spec() && r.spec_err() == VMError::UnassignedVar(var as usize)
                        } else {
                            r.is_val_spec() && r.spec_val() == vars[var as int]
                        }
                    } else {
                        !r.is_val_spec() && r.spec_err() == VMError::IndexOutOfBounds
                    }
                },
                None => !r.is_val_spec() && r.spec_err() == VMError::IndexOutOfBounds,
            },
    {
        let c = match vm.closure_at(self.closure, depth) {
            Ok(c) => c,
            Err(_) => {
                return ValResult::from_vmerror(VMError::IndexOutOfBounds);
            },
        };
        if var >= vm.closures[c].vars.len() {
            return ValResult::from_vmerror(VMError::IndexOutOfBounds);
        }
        let v = vm.closures[c].vars[var];
        if v.is_illegal() {
            ValResult::from_vmerror(VMError::UnassignedVar(var))
        } else {
            ValResult::from_val(v)
        }
    }

    /// Assign variable `var` of the closure `depth` levels out from this
    /// frame's closure.
    pub fn var_set(&self, vm: &mut VM, depth: usize, var: usize, val: Val) -> (r: Result<
        (),
        Box<VMError>,
    >)
        ensures
            match spec_closure_ancestor(old(vm).closures@, self.closure as int, depth as nat) {
                Some(c) => if var < old(vm).closures@[c].vars@.len() {
                    r is Ok && same_except_closures(*old(vm), *final(vm)) && final(vm).closures@.len() == old(vm).closures@.len() && (forall|k: int|
                        0 <= k < old(vm).closures@.len() && k != c ==> final(vm).closures@[k]
                            == old(vm).closures@[k]) && final(vm).closures@[c].parent == old(vm).closures@[c].parent && final(vm).closures@[c].vars@ == old(vm).closures@[c].vars@.update(var as int, val)
                } else {
                    r is Err && *final(vm) == *old(vm)
                },
                None => r is Err && *final(vm) == *old(vm),
            },
    {
        let c = match vm.closure_at(self.closure, depth) {
            Ok(c) => c,
            Err(e) => {
                return Err(e);
            },
        };
        vm.closure_set_var(c, var, val)
    }
}

/// The quotient of truncated division, as Rust's division computes it; the
/// divisor must not be zero.
pub open spec fn spec_div_trunc(x: int, d: int) -> int {
    if x == 0 {
        0
    } else if x > 0 && d > 0 {
        x / d
    } else if x < 0 && d < 0 {
        (x * -1) / (d * -1)
    } else if x < 0 {
        ((x * -1) / d) * -1
    } else {
        (x / (d * -1)) * -1
    }
}

/// The remainder of truncated division, as Rust's remainder computes it;
/// the divisor must not be zero.
pub open spec fn spec_rem_trunc(x: int, d: int) -> int {
    if x == 0 {
        0
    } else if x > 0 && d > 0 {
        x % d
    } else if x < 0 && d < 0 {
        ((x * -1) % (d * -1)) * -1
    } else if x < 0 {
        ((x * -1) % d) * -1
    } else {
        x % (d * -1)
    }
}

/// The interpreter hands each activation this execution budget; the budget
/// shrinks by one for every instruction and every nested activation, so
/// execution is bounded but the bound is astronomically out of reach.
pub const EXEC_BUDGET: u64 = 0xffff_ffff_ffff_ffff;

impl VM {
    /// The files the classpath offers for the class `name`, in search
    /// order: `<dir>/<name>.som` for each configured directory.  The caller
    /// reads the first of these that exists; only that read is outside this
    /// library.
    pub fn class_candidate_paths(&self, name: &str) -> (r: Vec<String>)
        ensures
            r@.len() == self.classpath@.len(),
            forall|k: int|
                0 <= k < r@.len() ==> (#[trigger] r@[k])@ == self.classpath@[k]@ + "/"@ + name@
                    + ".som"@,
    {
        let mut r: Vec<String> = Vec::new();
        let mut i: usize = 0;
        while i < self.classpath.len()
            invariant
                i <= self.classpath@.len(),
                r@.len() == i,
                forall|k: int|
                    0 <= k < i ==> (#[trigger] r@[k])@ == self.classpath@[k]@ + "/"@ + name@
                        + ".som"@,
            decreases self.classpath@.len() - i,
        {
            let mut p = clone_string(&self.classpath[i]);
            p.append("/");
            p.append(name);
            p.append(".som");
            r.push(p);
            i = i + 1;
        }
        r
    }

    /// Unwind for a non-local return: find the top-most frame whose closure
    /// is `parent_closure`, cut the operand stack back to that frame's
    /// recorded height, push the return value `v`, and report how many
    /// frames up the target sits.  Where no frame matches, the block has
    /// escaped its method and nothing changes.
    pub(crate) fn unwind_to(&mut self, parent_closure: usize, v: Val) -> (r: Option<usize>)
        ensures
            same_globals(*old(self), *final(self)),
            final(self).heap@ == old(self).heap@,
            final(self).frames@ == old(self).frames@,
            final(self).closures@ == old(self).closures@,
            final(self).output@ == old(self).output@,
            match r {
                Some(d) => {
                    &&& d < old(self).frames@.len()
                    &&& old(self).frames@[old(self).frames@.len() - 1 - d].closure
                        == parent_closure
                    &&& forall|t: int|
                        old(self).frames@.len() - d <= t < old(self).frames@.len() ==> (
                        #[trigger] old(self).frames@[t]).closure != parent_closure
                    &&& {
                        let sp = old(self).frames@[old(self).frames@.len() - 1 - d].sp;
                        if sp <= old(self).stack@.len() {
                            final(self).stack@ == old(self).stack@.subrange(0, sp as int).push(v)
                        } else {
                            final(self).stack@ == old(self).stack@.push(v)
                        }
                    }
                },
                None => {
                    &&& *final(self) == *old(self)
                    &&& forall|t: int|
                        0 <= t < old(self).frames@.len() ==> (
                        #[trigger] old(self).frames@[t]).closure != parent_closure
                },
            },
    {
        let n = self.frames.len();
        let mut d: usize = 0;
        while d < n
            invariant
                *self == *old(self),
                n == self.frames@.len(),
                d <= n,
                forall|t: int|
                    n - d <= t < n ==> (#[trigger] self.frames@[t]).closure != parent_closure,
            decreases n - d,
        {
            let t = n - 1 - d;
            if self.frames[t].closure == parent_closure {
                let sp = self.frames[t].sp;
                self.stack_truncate(sp);
                self.stack_push(v);
                return Some(d);
            }
            d = d + 1;
        }
        None
    }

    /// Allocate a block object for the block literal at `blkinfo_off` of
    /// `cls_val`, capturing the current activation's closure.
    pub(crate) fn mk_block(&mut self, cls_val: Val, blkinfo_off: usize, num_params: usize) -> (r:
        Val)
        requires
            old(self).frames@.len() > 0,
        ensures
            same_except_heap(*old(self), *final(self)),
            final(self).heap@.len() >= old(self).heap@.len(),
            old(self).heap@.len() < crate::val::HEAP_LIMIT ==> final(self).heap@ == old(self).heap@.push(Obj::Block(spec_block_for(*old(self), cls_val, blkinfo_off, num_params)))
                && r.spec_is_box() && r.spec_box_index() == old(self).heap@.len(),
    {
        let parent = self.current_closure();
        Block::new(self, cls_val, blkinfo_off, parent, num_params)
    }

    /// Add the two integer values.
    pub(crate) fn prim_add(&mut self, a: Val, b: Val) -> (r: Result<Val, Box<VMError>>)
        ensures
            same_except_heap(*old(self), *final(self)),
            final(self).heap@.len() >= old(self).heap@.len(),
            final(self).heap@.subrange(0, old(self).heap@.len() as int) == old(self).heap@,
            match (spec_isize_of(old(self).heap@, a), spec_isize_of(old(self).heap@, b)) {
                (Some(x), Some(y)) => if isize::MIN as int <= x + y <= isize::MAX as int {
                    r is Ok && ((crate::val::spec_fits_unboxed(x + y) || old(self).heap@.len()
                        < crate::val::HEAP_LIMIT) ==> spec_num_val(final(self).heap@, r->Ok_0)
                        == Some(x + y))
                } else {
                    r is Err && r->Err_0 == Box::new(VMError::CantRepresentAsBigInt)
                },
                _ => r is Err && *final(self) == *old(self),
            },
    {
        let (x, y) = match self.both_ints(a, b) {
            Ok(t) => t,
            Err(e) => {
                proof {
                    assert(self.heap@.subrange(0, self.heap@.len() as int) =~= self.heap@);
                }
                return Err(e);
            },
        };
        proof {
            assert(self.heap@.subrange(0, self.heap@.len() as int) =~= self.heap@);
        }
        match x.checked_add(y) {
            Some(z) => Ok(self.int_result(z)),
            None => Err(Box::new(VMError::CantRepresentAsBigInt)),
        }
    }

    /// Subtract the second integer value from the first.
    pub(crate) fn prim_sub(&mut self, a: Val, b: Val) -> (r: Result<Val, Box<VMError>>)
        ensures
            same_except_heap(*old(self), *final(self)),
            final(self).heap@.len() >= old(self).heap@.len(),
            final(self).heap@.subrange(0, old(self).heap@.len() as int) == old(self).heap@,
            match (spec_isize_of(old(self).heap@, a), spec_isize_of(old(self).heap@, b)) {
                (Some(x), Some(y)) => if isize::MIN as int <= x - y <= isize::MAX as int {
                    r is Ok && ((crate::val::spec_fits_unboxed(x - y) || old(self).heap@.len()
                        < crate::val::HEAP_LIMIT) ==> spec_num_val(final(self).heap@, r->Ok_0)
                        == Some(x - y))
                } else {
                    r is Err && r->Err_0 == Box::new(VMError::CantRepresentAsBigInt)
                },
                _ => r is Err && *final(self) == *old(self),
            },
    {
        let (x, y) = match self.both_ints(a, b) {
            Ok(t) => t,
            Err(e) => {
                proof {
                    assert(self.heap@.subrange(0, self.heap@.len() as int) =~= self.heap@);
                }
                return Err(e);
            },
        };
        proof {
            assert(self.heap@.subrange(0, self.heap@.len() as int) =~= self.heap@);
        }
        match x.checked_sub(y) {
            Some(z) => Ok(self.int_result(z)),
            None => Err(Box::new(VMError::CantRepresentAsBigInt)),
        }
    }

    /// Multiply the two integer values.
    pub(crate) fn prim_mul(&mut self, a: Val, b: Val) -> (r: Result<Val, Box<VMError>>)
        ensures
            same_except_heap(*old(self), *final(self)),
            final(self).heap@.len() >= old(self).heap@.len(),
            final(self).heap@.subrange(0, old(self).heap@.len() as int) == old(self).heap@,
            match (spec_isize_of(old(self).heap@, a), spec_isize_of(old(self).heap@, b)) {
                (Some(x), Some(y)) => if isize::MIN as int <= x * y <= isize::MAX as int {
                    r is Ok && ((crate::val::spec_fits_unboxed(x * y) || old(self).heap@.len()
                        < crate::val::HEAP_LIMIT) ==> spec_num_val(final(self).heap@, r->Ok_0)
                        == Some(x * y))
                } else {
                    r is Err && r->Err_0 == Box::new(VMError::CantRepresentAsBigInt)
                },
                _ => r is Err && *final(self) == *old(self),
            },
    {
        let (x, y) = match self.both_ints(a, b) {
            Ok(t) => t,
            Err(e) => {
                proof {
                    assert(self.heap@.subrange(0, self.heap@.len() as int) =~= self.heap@);
                }
                return Err(e);
            },
        };
        proof {
            assert(self.heap@.subrange(0, self.heap@.len() as int) =~= self.heap@);
        }
        match x.checked_mul(y) {
            Some(z) => Ok(self.int_result(z)),
            None => Err(Box::new(VMError::CantRepresentAsBigInt)),
        }
    }

    /// Divide the first integer value by the second; division by zero is an
    /// error.
    pub(crate) fn prim_div(&mut self, a: Val, b: Val) -> (r: Result<Val, Box<VMError>>)
        ensures
            same_except_heap(*old(self), *final(self)),
            final(self).heap@.len() >= old(self).heap@.len(),
            final(self).heap@.subrange(0, old(self).heap@.len() as int) == old(self).heap@,
            match (spec_isize_of(old(self).heap@, a), spec_isize_of(old(self).heap@, b)) {
                (Some(x), Some(y)) => if y == 0 {
                    r is Err && r->Err_0 == Box::new(VMError::DivisionByZero)
                } else if isize::MIN as int <= spec_div_trunc(x, y) <= isize::MAX as int {
                    r is Ok && ((crate::val::spec_fits_unboxed(spec_div_trunc(x, y)) || old(self).heap@.len() < crate::val::HEAP_LIMIT) ==> spec_num_val(
                        final(self).heap@,
                        r->Ok_0,
                    ) == Some(spec_div_trunc(x, y)))
                } else {
                    r is Err && r->Err_0 == Box::new(VMError::CantRepresentAsBigInt)
                },
                _ => r is Err && *final(self) == *old(self),
            },
    {
        let (x, y) = match self.both_ints(a, b) {
            Ok(t) => t,
            Err(e) => {
                proof {
                    assert(self.heap@.subrange(0, self.heap@.len() as int) =~= self.heap@);
                }
                return Err(e);
            },
        };
        proof {
            assert(self.heap@.subrange(0, self.heap@.len() as int) =~= self.heap@);
        }
        if y == 0 {
            return Err(Box::new(VMError::DivisionByZero));
        }
        match x.checked_div(y) {
            Some(z) => Ok(self.int_result(z)),
            None => Err(Box::new(VMError::CantRepresentAsBigInt)),
        }
    }

    /// The remainder of the first integer value by the second; a zero
    /// divisor is an error.
    pub(crate) fn prim_mod(&mut self, a: Val, b: Val) -> (r: Result<Val, Box<VMError>>)
        ensures
            same_except_heap(*old(self), *final(self)),
            final(self).heap@.len() >= old(self).heap@.len(),
            final(self).heap@.subrange(0, old(self).heap@.len() as int) == old(self).heap@,
            match (spec_isize_of(old(self).heap@, a), spec_isize_of(old(self).heap@, b)) {
                (Some(x), Some(y)) => if y == 0 {
                    r is Err && r->Err_0 == Box::new(VMError::DivisionByZero)
                } else if x == isize::MIN as int && y == -1 {
                    r is Err && r->Err_0 == Box::new(VMError::CantRepresentAsBigInt)
                } else if isize::MIN as int <= spec_rem_trunc(x, y) <= isize::MAX as int {
                    r is Ok && ((crate::val::spec_fits_unboxed(spec_rem_trunc(x, y)) || old(self).heap@.len() < crate::val::HEAP_LIMIT) ==> spec_num_val(
                        final(self).heap@,
                        r->Ok_0,
                    ) == Some(spec_rem_trunc(x, y)))
                } else {
                    r is Err && r->Err_0 == Box::new(VMError::CantRepresentAsBigInt)
                },
                _ => r is Err && *final(self) == *old(self),
            },
    {
        let (x, y) = match self.both_ints(a, b) {
            Ok(t) => t,
            Err(e) => {
                proof {
                    assert(self.heap@.subrange(0, self.heap@.len() as int) =~= self.heap@);
                }
                return Err(e);
            },
        };
        proof {
            assert(self.heap@.subrange(0, self.heap@.len() as int) =~= self.heap@);
        }
        if y == 0 {
            return Err(Box::new(VMError::DivisionByZero));
        }
        match x.checked_rem(y) {
            Some(z) => Ok(self.int_result(z)),
            None => Err(Box::new(VMError::CantRepresentAsBigInt)),
        }
    }

    /// Bitwise and of the two integer values.
    pub(crate) fn prim_and(&mut self, a: Val, b: Val) -> (r: Result<Val, Box<VMError>>)
        ensures
            same_except_heap(*old(self), *final(self)),
            final(self).heap@.len() >= old(self).heap@.len(),
            final(self).heap@.subrange(0, old(self).heap@.len() as int) == old(self).heap@,
            match (spec_isize_of(old(self).heap@, a), spec_isize_of(old(self).heap@, b)) {
                (Some(x), Some(y)) => r is Ok && ((crate::val::spec_fits_unboxed(
                    ((x as isize) & (y as isize)) as int,
                ) || old(self).heap@.len() < crate::val::HEAP_LIMIT) ==> spec_num_val(
                    final(self).heap@,
                    r->Ok_0,
                ) == Some(((x as isize) & (y as isize)) as int)),
                _ => r is Err && *final(self) == *old(self),
            },
    {
        let (x, y) = match self.both_ints(a, b) {
            Ok(t) => t,
            Err(e) => {
                proof {
                    assert(self.heap@.subrange(0, self.heap@.len() as int) =~= self.heap@);
                }
                return Err(e);
            },
        };
        proof {
            assert(self.heap@.subrange(0, self.heap@.len() as int) =~= self.heap@);
        }
        Ok(self.int_result(x & y))
    }

    /// Bitwise exclusive or of the two integer values.
    pub(crate) fn prim_xor(&mut self, a: Val, b: Val) -> (r: Result<Val, Box<VMError>>)
        ensures
            same_except_heap(*old(self), *final(self)),
            final(self).heap@.len() >= old(self).heap@.len(),
            final(self).heap@.subrange(0, old(self).heap@.len() as int) == old(self).heap@,
            match (spec_isize_of(old(self).heap@, a), spec_isize_of(old(self).heap@, b)) {
                (Some(x), Some(y)) => r is Ok && ((crate::val::spec_fits_unboxed(
                    ((x as isize) ^ (y as isize)) as int,
                ) || old(self).heap@.len() < crate::val::HEAP_LIMIT) ==> spec_num_val(
                    final(self).heap@,
                    r->Ok_0,
                ) == Some(((x as isize) ^ (y as isize)) as int)),
                _ => r is Err && *final(self) == *old(self),
            },
    {
        let (x, y) = match self.both_ints(a, b) {
            Ok(t) => t,
            Err(e) => {
                proof {
                    assert(self.heap@.subrange(0, self.heap@.len() as int) =~= self.heap@);
                }
                return Err(e);
            },
        };
        proof {
            assert(self.heap@.subrange(0, self.heap@.len() as int) =~= self.heap@);
        }
        Ok(self.int_result(x ^ y))
    }

    /// Shift the first integer value left; a negative or too large shift is
    /// an error, as is a shift that loses bits.
    pub(crate) fn prim_shl(&mut self, a: Val, b: Val) -> (r: Result<Val, Box<VMError>>)
        ensures
            same_except_heap(*old(self), *final(self)),
            final(self).heap@.len() >= old(self).heap@.len(),
            final(self).heap@.subrange(0, old(self).heap@.len() as int) == old(self).heap@,
            match (spec_isize_of(old(self).heap@, a), spec_isize_of(old(self).heap@, b)) {
                (Some(x), Some(y)) => {
                    &&& y < 0 ==> r is Err && r->Err_0 == Box::new(VMError::NegativeShift)
                    &&& y >= 64 ==> r is Err && r->Err_0 == Box::new(VMError::ShiftTooBig)
                    &&& (0 <= y < 64) ==> ({
                        let xw = x as i64;
                        let sh = y as u32;
                        let shifted = xw << sh;
                        if (shifted >> sh) == xw && isize::MIN as int <= shifted as int
                            && shifted as int <= isize::MAX as int {
                            r is Ok && ((crate::val::spec_fits_unboxed(shifted as int) || old(self).heap@.len() < crate::val::HEAP_LIMIT) ==> spec_num_val(
                                final(self).heap@,
                                r->Ok_0,
                            ) == Some(shifted as int))
                        } else {
                            r is Err && r->Err_0 == Box::new(VMError::ShiftTooBig)
                        }
                    })
                },
                _ => r is Err && *final(self) == *old(self),
            },
    {
        let (x, y) = match self.both_ints(a, b) {
            Ok(t) => t,
            Err(e) => {
                proof {
                    assert(self.heap@.subrange(0, self.heap@.len() as int) =~= self.heap@);
                }
                return Err(e);
            },
        };
        proof {
            assert(self.heap@.subrange(0, self.heap@.len() as int) =~= self.heap@);
        }
        if y < 0 {
            return Err(Box::new(VMError::NegativeShift));
        }
        if y >= 64 {
            return Err(Box::new(VMError::ShiftTooBig));
        }
        let xw: i64 = x as i64;
        let sh: u32 = y as u32;
        let shifted: i64 = xw << sh;
        if (shifted >> sh) != xw {
            return Err(Box::new(VMError::ShiftTooBig));
        }
        if shifted >= (isize::MIN as i64) && shifted <= (isize::MAX as i64) {
            Ok(self.int_result(shifted as isize))
        } else {
            Err(Box::new(VMError::ShiftTooBig))
        }
    }
}

/// The next program counter; saturates at the top so the following fetch
/// falls off the instruction stream's end.
pub(crate) fn next_pc(pc: usize) -> (r: usize)
    ensures
        pc < usize::MAX ==> r == pc + 1,
{
    if pc < usize::MAX {
        pc + 1
    } else {
        pc
    }
}

/// Lexicographic order on byte strings: the empty string comes first, and
/// otherwise the first differing byte decides.
pub open spec fn lex_lt(a: Seq<u8>, b: Seq<u8>) -> bool
    decreases a.len(),
{
    if b.len() == 0 {
        false
    } else if a.len() == 0 {
        true
    } else if a[0] < b[0] {
        true
    } else if a[0] > b[0] {
        false
    } else {
        lex_lt(a.drop_first(), b.drop_first())
    }
}

/// Strings with equal prefixes compare as their tails do.
proof fn lemma_lex_lt_skip(a: Seq<u8>, b: Seq<u8>, i: int)
    requires
        0 <= i <= a.len(),
        i <= b.len(),
        forall|j: int| 0 <= j < i ==> a[j] == b[j],
    ensures
        lex_lt(a, b) == lex_lt(a.skip(i), b.skip(i)),
    decreases i,
{
    if i == 0 {
        assert(a.skip(0) =~= a);
        assert(b.skip(0) =~= b);
    } else {
        assert(a[0] == b[0]);
        lemma_lex_lt_skip(a.drop_first(), b.drop_first(), i - 1);
        assert(a.drop_first().skip(i - 1) =~= a.skip(i));
        assert(b.drop_first().skip(i - 1) =~= b.skip(i));
    }
}

/// Is the byte string `a` lexicographically below `b`?
pub(crate) fn str_lt(a: &String, b: &String) -> (r: bool)
    ensures
        r == lex_lt(vstd::utf8::encode_utf8(a@), vstd::utf8::encode_utf8(b@)),
{
    let ab = a.as_str().as_bytes();
    let bb = b.as_str().as_bytes();
    let mut i: usize = 0;
    loop
        invariant
            i <= ab@.len(),
            i <= bb@.len(),
            ab@ == vstd::utf8::encode_utf8(a@),
            bb@ == vstd::utf8::encode_utf8(b@),
            forall|j: int| 0 <= j < i ==> ab@[j] == bb@[j],
        decreases ab@.len() - i,
    {
        proof {
            lemma_lex_lt_skip(ab@, bb@, i as int);
        }
        if i >= bb.len() {
            return false;
        }
        if i >= ab.len() {
            return true;
        }
        let x = ab[i];
        let y = bb[i];
        if x < y {
            return true;
        }
        if x > y {
            return false;
        }
        i = i + 1;
    }
}

impl VM {
    /// The name of the class `cls` points at.
    pub(crate) fn class_name(&self, cls: Val) -> (r: Result<String, Box<VMError>>)
        ensures
            match spec_class_at(self.heap@, cls) {
                Some(c) => r is Ok && r->Ok_0@ == c.name@,
                None => r is Err,
            },
    {
        let i = self.downcast_class(cls)?;
        match &self.heap[i] {
            Obj::Class(c) => Ok(clone_string(&c.name)),
            _ => vstd::pervasive::unreached(),
        }
    }

    /// Is the first value below the second?  Integers compare by value,
    /// strings lexicographically by their bytes.
    pub(crate) fn prim_lt(&self, a: Val, b: Val) -> (r: Result<Val, Box<VMError>>)
        ensures
            match (spec_isize_of(self.heap@, a), spec_isize_of(self.heap@, b)) {
                (Some(x), Some(y)) => r == Result::<Val, Box<VMError>>::Ok(
                    if x < y {
                        self.true_
                    } else {
                        self.false_
                    },
                ),
                _ => match (
                    crate::objects::spec_string_at(self.heap@, a),
                    crate::objects::spec_string_at(self.heap@, b),
                ) {
                    (Some(s1), Some(s2)) => r == Result::<Val, Box<VMError>>::Ok(
                        if lex_lt(
                            vstd::utf8::encode_utf8(s1.s@),
                            vstd::utf8::encode_utf8(s2.s@),
                        ) {
                            self.true_
                        } else {
                            self.false_
                        },
                    ),
                    _ => r is Err,
                },
            },
    {
        match (self.num_of(a), self.num_of(b)) {
            (Some(x), Some(y)) => Ok(self.bool_val(x < y)),
            _ => match (self.try_string(a), self.try_string(b)) {
                (Some(s1), Some(s2)) => Ok(self.bool_val(str_lt(&s1.0, &s2.0))),
                _ => Err(Box::new(VMError::NotANumber { got: self.objtype_of(a) })),
            },
        }
    }

    /// Is the first value at most the second?  Integers compare by value,
    /// strings lexicographically by their bytes.
    pub(crate) fn prim_le(&self, a: Val, b: Val) -> (r: Result<Val, Box<VMError>>)
        ensures
            match (spec_isize_of(self.heap@, a), spec_isize_of(self.heap@, b)) {
                (Some(x), Some(y)) => r == Result::<Val, Box<VMError>>::Ok(
                    if x <= y {
                        self.true_
                    } else {
                        self.false_
                    },
                ),
                _ => match (
                    crate::objects::spec_string_at(self.heap@, a),
                    crate::objects::spec_string_at(self.heap@, b),
                ) {
                    (Some(s1), Some(s2)) => r == Result::<Val, Box<VMError>>::Ok(
                        if !lex_lt(
                            vstd::utf8::encode_utf8(s2.s@),
                            vstd::utf8::encode_utf8(s1.s@),
                        ) {
                            self.true_
                        } else {
                            self.false_
                        },
                    ),
                    _ => r is Err,
                },
            },
    {
        match (self.num_of(a), self.num_of(b)) {
            (Some(x), Some(y)) => Ok(self.bool_val(x <= y)),
            _ => match (self.try_string(a), self.try_string(b)) {
                (Some(s1), Some(s2)) => Ok(self.bool_val(!str_lt(&s2.0, &s1.0))),
                _ => Err(Box::new(VMError::NotANumber { got: self.objtype_of(a) })),
            },
        }
    }

    /// Is the first value above the second?  Integers compare by value,
    /// strings lexicographically by their bytes.
    pub(crate) fn prim_gt(&self, a: Val, b: Val) -> (r: Result<Val, Box<VMError>>)
        ensures
            match (spec_isize_of(self.heap@, a), spec_isize_of(self.heap@, b)) {
                (Some(x), Some(y)) => r == Result::<Val, Box<VMError>>::Ok(
                    if x > y {
                        self.true_
                    } else {
                        self.false_
                    },
                ),
                _ => match (
                    crate::objects::spec_string_at(self.heap@, a),
                    crate::objects::spec_string_at(self.heap@, b),
                ) {
                    (Some(s1), Some(s2)) => r == Result::<Val, Box<VMError>>::Ok(
                        if lex_lt(
                            vstd::utf8::encode_utf8(s2.s@),
                            vstd::utf8::encode_utf8(s1.s@),
                        ) {
                            self.true_
                        } else {
                            self.false_
                        },
                    ),
                    _ => r is Err,
                },
            },
    {
        match (self.num_of(a), self.num_of(b)) {
            (Some(x), Some(y)) => Ok(self.bool_val(x > y)),
            _ => match (self.try_string(a), self.try_string(b)) {
                (Some(s1), Some(s2)) => Ok(self.bool_val(str_lt(&s2.0, &s1.0))),
                _ => Err(Box::new(VMError::NotANumber { got: self.objtype_of(a) })),
            },
        }
    }

    /// Is the first value at least the second?  Integers compare by value,
    /// strings lexicographically by their bytes.
    pub(crate) fn prim_ge(&self, a: Val, b: Val) -> (r: Result<Val, Box<VMError>>)
        ensures
            match (spec_isize_of(self.heap@, a), spec_isize_of(self.heap@, b)) {
                (Some(x), Some(y)) => r == Result::<Val, Box<VMError>>::Ok(
                    if x >= y {
                        self.true_
                    } else {
                        self.false_
                    },
                ),
                _ => match (
                    crate::objects::spec_string_at(self.heap@, a),
                    crate::objects::spec_string_at(self.heap@, b),
                ) {
                    (Some(s1), Some(s2)) => r == Result::<Val, Box<VMError>>::Ok(
                        if !lex_lt(
                            vstd::utf8::encode_utf8(s1.s@),
                            vstd::utf8::encode_utf8(s2.s@),
                        ) {
                            self.true_
                        } else {
                            self.false_
                        },
                    ),
                    _ => r is Err,
                },
            },
    {
        match (self.num_of(a), self.num_of(b)) {
            (Some(x), Some(y)) => Ok(self.bool_val(x >= y)),
            _ => match (self.try_string(a), self.try_string(b)) {
                (Some(s1), Some(s2)) => Ok(self.bool_val(!str_lt(&s1.0, &s2.0))),
                _ => Err(Box::new(VMError::NotANumber { got: self.objtype_of(a) })),
            },
        }
    }

    /// The value of `asString` on `rcv`: the decimal text for integers, a
    /// fresh string with the same text for strings and symbols, the name
    /// for classes.
    pub(crate) fn prim_as_string(&mut self, rcv: Val) -> (r: Result<Val, Box<VMError>>)
        ensures
            same_except_heap(*old(self), *final(self)),
            final(self).heap@.len() >= old(self).heap@.len(),
            match spec_isize_of(old(self).heap@, rcv) {
                Some(x) => old(self).heap@.len() < crate::val::HEAP_LIMIT ==> r is Ok
                    && crate::objects::heap_push_string(
                    old(self).heap@,
                    final(self).heap@,
                    crate::numstr::spec_int_str(x),
                    true,
                ) && r->Ok_0.spec_is_box() && r->Ok_0.spec_box_index() == old(self).heap@.len(),
                None => match crate::objects::spec_string_at(old(self).heap@, rcv) {
                    Some(os) => old(self).heap@.len() < crate::val::HEAP_LIMIT ==> r is Ok
                        && crate::objects::heap_push_string(
                        old(self).heap@,
                        final(self).heap@,
                        os.s@,
                        true,
                    ) && r->Ok_0.spec_is_box() && r->Ok_0.spec_box_index() == old(self).heap@.len(),
                    None => match spec_class_at(old(self).heap@, rcv) {
                        Some(c) => old(self).heap@.len() < crate::val::HEAP_LIMIT ==> r is Ok
                            && crate::objects::heap_push_string(
                            old(self).heap@,
                            final(self).heap@,
                            c.name@,
                            true,
                        ) && r->Ok_0.spec_is_box() && r->Ok_0.spec_box_index() == old(self).heap@.len(),
                        None => r is Err && *final(self) == *old(self),
                    },
                },
            },
    {
        match self.num_of(rcv) {
            Some(x) => {
                let text = crate::numstr::int_to_string(x);
                let v = String_::new(self, text, true);
                Ok(v)
            },
            None => {
                let (text, _is_str) = match crate::objects::str_data(self, rcv) {
                    Ok(t) => t,
                    Err(_) => {
                        let name = match self.class_name(rcv) {
                            Ok(n) => n,
                            Err(_) => {
                                return Err(
                                    Box::new(VMError::NotANumber { got: self.objtype_of(rcv) }),
                                );
                            },
                        };
                        return Ok(String_::new(self, name, true));
                    },
                };
                Ok(String_::new(self, text, true))
            },
        }
    }

    /// Execute the primitive `prim` on the receiver and arguments, leaving
    /// the result on the operand stack.
    #[verifier::rlimit(100)]
    #[verifier::spinoff_prover]
    pub(crate) fn exec_primitive(
        &mut self,
        prim: crate::instrs::Primitive,
        rcv: Val,
        args: Vec<Val>,
        fuel: u64,
    ) -> (r: SendReturn)
        ensures
            same_globals(*old(self), *final(self)),
            final(self).frames@.len() == old(self).frames@.len(),
            final(self).heap@.len() >= old(self).heap@.len(),
            text_extends(final(self).output@, old(self).output@),
            closures_extend(old(self).closures@, final(self).closures@),
            ({
                let h0 = old(self).heap@;
                let s0 = old(self).stack@;
                let room = h0.len() < crate::val::HEAP_LIMIT;
                match prim {
                    crate::instrs::Primitive::Add => args@.len() == 1 ==> (match (
                        spec_isize_of(h0, rcv),
                        spec_isize_of(h0, args@[0]),
                    ) {
                        (Some(x), Some(y)) => if isize::MIN as int <= x + y <= isize::MAX as int {
                            r is Val && stack_pushed(s0, final(self).stack@) && ((
                            crate::val::spec_fits_unboxed(x + y) || room) ==> spec_num_val(
                                final(self).heap@,
                                final(self).stack@.last(),
                            ) == Some(x + y))
                        } else {
                            r is Error && *r->Error_0 == VMError::CantRepresentAsBigInt && final(self).stack@ == s0
                        },
                        _ => r is Error && final(self).stack@ == s0,
                    }),
                    crate::instrs::Primitive::Sub => args@.len() == 1 ==> (match (
                        spec_isize_of(h0, rcv),
                        spec_isize_of(h0, args@[0]),
                    ) {
                        (Some(x), Some(y)) => if isize::MIN as int <= x - y <= isize::MAX as int {
                            r is Val && stack_pushed(s0, final(self).stack@) && ((
                            crate::val::spec_fits_unboxed(x - y) || room) ==> spec_num_val(
                                final(self).heap@,
                                final(self).stack@.last(),
                            ) == Some(x - y))
                        } else {
                            r is Error && *r->Error_0 == VMError::CantRepresentAsBigInt && final(self).stack@ == s0
                        },
                        _ => r is Error && final(self).stack@ == s0,
                    }),
                    crate::instrs::Primitive::Mul => args@.len() == 1 ==> (match (
                        spec_isize_of(h0, rcv),
                        spec_isize_of(h0, args@[0]),
                    ) {
                        (Some(x), Some(y)) => if isize::MIN as int <= x * y <= isize::MAX as int {
                            r is Val && stack_pushed(s0, final(self).stack@) && ((
                            crate::val::spec_fits_unboxed(x * y) || room) ==> spec_num_val(
                                final(self).heap@,
                                final(self).stack@.last(),
                            ) == Some(x * y))
                        } else {
                            r is Error && *r->Error_0 == VMError::CantRepresentAsBigInt && final(self).stack@ == s0
                        },
                        _ => r is Error && final(self).stack@ == s0,
                    }),
                    crate::instrs::Primitive::Div => args@.len() == 1 ==> (match (
                        spec_isize_of(h0, rcv),
                        spec_isize_of(h0, args@[0]),
                    ) {
                        (Some(x), Some(y)) => if y == 0 {
                            r is Error && *r->Error_0 == VMError::DivisionByZero && final(self).stack@ == s0
                        } else if isize::MIN as int <= spec_div_trunc(x, y) <= isize::MAX as int {
                            r is Val && stack_pushed(s0, final(self).stack@) && ((
                            crate::val::spec_fits_unboxed(spec_div_trunc(x, y)) || room)
                                ==> spec_num_val(final(self).heap@, final(self).stack@.last())
                                == Some(spec_div_trunc(x, y)))
                        } else {
                            r is Error && *r->Error_0 == VMError::CantRepresentAsBigInt && final(self).stack@ == s0
                        },
                        _ => r is Error && final(self).stack@ == s0,
                    }),
                    crate::instrs::Primitive::Mod => args@.len() == 1 ==> (match (
                        spec_isize_of(h0, rcv),
                        spec_isize_of(h0, args@[0]),
                    ) {
                        (Some(x), Some(y)) => if y == 0 {
                            r is Error && *r->Error_0 == VMError::DivisionByZero && final(self).stack@ == s0
                        } else if x == isize::MIN as int && y == -1 {
                            r is Error && *r->Error_0 == VMError::CantRepresentAsBigInt && final(self).stack@ == s0
                        } else if isize::MIN as int <= spec_rem_trunc(x, y) <= isize::MAX as int {
                            r is Val && stack_pushed(s0, final(self).stack@) && ((
                            crate::val::spec_fits_unboxed(spec_rem_trunc(x, y)) || room)
                                ==> spec_num_val(final(self).heap@, final(self).stack@.last())
                                == Some(spec_rem_trunc(x, y)))
                        } else {
                            r is Error && *r->Error_0 == VMError::CantRepresentAsBigInt && final(self).stack@ == s0
                        },
                        _ => r is Error && final(self).stack@ == s0,
                    }),
                    crate::instrs::Primitive::And => args@.len() == 1 ==> (match (
                        spec_isize_of(h0, rcv),
                        spec_isize_of(h0, args@[0]),
                    ) {
                        (Some(x), Some(y)) => r is Val && stack_pushed(s0, final(self).stack@)
                            && ((crate::val::spec_fits_unboxed(
                            ((x as isize) & (y as isize)) as int,
                        ) || room) ==> spec_num_val(final(self).heap@, final(self).stack@.last())
                            == Some(((x as isize) & (y as isize)) as int)),
                        _ => r is Error && final(self).stack@ == s0,
                    }),
                    crate::instrs::Primitive::BitXor => args@.len() == 1 ==> (match (
                        spec_isize_of(h0, rcv),
                        spec_isize_of(h0, args@[0]),
                    ) {
                        (Some(x), Some(y)) => r is Val && stack_pushed(s0, final(self).stack@)
                            && ((crate::val::spec_fits_unboxed(
                            ((x as isize) ^ (y as isize)) as int,
                        ) || room) ==> spec_num_val(final(self).heap@, final(self).stack@.last())
                            == Some(((x as isize) ^ (y as isize)) as int)),
                        _ => r is Error && final(self).stack@ == s0,
                    }),
                    crate::instrs::Primitive::Shl => args@.len() == 1 ==> (match (
                        spec_isize_of(h0, rcv),
                        spec_isize_of(h0, args@[0]),
                    ) {
                        (Some(x), Some(y)) => {
                            &&& y < 0 ==> r is Error && *r->Error_0 == VMError::NegativeShift
                                && final(self).stack@ == s0
                            &&& y >= 64 ==> r is Error && *r->Error_0 == VMError::ShiftTooBig
                                && final(self).stack@ == s0
                            &&& (0 <= y < 64) ==> ({
                                let shifted = (x as i64) << (y as u32);
                                if (shifted >> (y as u32)) == x as i64 && isize::MIN as int
                                    <= shifted as int && shifted as int <= isize::MAX as int {
                                    r is Val && stack_pushed(s0, final(self).stack@) && ((
                                    crate::val::spec_fits_unboxed(shifted as int) || room)
                                        ==> spec_num_val(
                                        final(self).heap@,
                                        final(self).stack@.last(),
                                    ) == Some(shifted as int))
                                } else {
                                    r is Error && *r->Error_0 == VMError::ShiftTooBig && final(self).stack@ == s0
                                }
                            })
                        },
                        _ => r is Error && final(self).stack@ == s0,
                    }),
                    crate::instrs::Primitive::LessThan => args@.len() == 1 ==> (match (
                        spec_isize_of(h0, rcv),
                        spec_isize_of(h0, args@[0]),
                    ) {
                        (Some(x), Some(y)) => r is Val && final(self).stack@ == s0.push(
                            if x < y {
                                old(self).true_
                            } else {
                                old(self).false_
                            },
                        ),
                        _ => match (
                            crate::objects::spec_string_at(h0, rcv),
                            crate::objects::spec_string_at(h0, args@[0]),
                        ) {
                            (Some(s1), Some(s2)) => r is Val && final(self).stack@ == s0.push(
                                if lex_lt(
                                    vstd::utf8::encode_utf8(s1.s@),
                                    vstd::utf8::encode_utf8(s2.s@),
                                ) {
                                    old(self).true_
                                } else {
                                    old(self).false_
                                },
                            ),
                            _ => r is Error && final(self).stack@ == s0,
                        },
                    }),
                    crate::instrs::Primitive::LessThanEquals => args@.len() == 1 ==> (match (
                        spec_isize_of(h0, rcv),
                        spec_isize_of(h0, args@[0]),
                    ) {
                        (Some(x), Some(y)) => r is Val && final(self).stack@ == s0.push(
                            if x <= y {
                                old(self).true_
                            } else {
                                old(self).false_
                            },
                        ),
                        _ => match (
                            crate::objects::spec_string_at(h0, rcv),
                            crate::objects::spec_string_at(h0, args@[0]),
                        ) {
                            (Some(s1), Some(s2)) => r is Val && final(self).stack@ == s0.push(
                                if !lex_lt(
                                    vstd::utf8::encode_utf8(s2.s@),
                                    vstd::utf8::encode_utf8(s1.s@),
                                ) {
                                    old(self).true_
                                } else {
                                    old(self).false_
                                },
                            ),
                            _ => r is Error && final(self).stack@ == s0,
                        },
                    }),
                    crate::instrs::Primitive::GreaterThan => args@.len() == 1 ==> (match (
                        spec_isize_of(h0, rcv),
                        spec_isize_of(h0, args@[0]),
                    ) {
                        (Some(x), Some(y)) => r is Val && final(self).stack@ == s0.push(
                            if x > y {
                                old(self).true_
                            } else {
                                old(self).false_
                            },
                        ),
                        _ => match (
                            crate::objects::spec_string_at(h0, rcv),
                            crate::objects::spec_string_at(h0, args@[0]),
                        ) {
                            (Some(s1), Some(s2)) => r is Val && final(self).stack@ == s0.push(
                                if lex_lt(
                                    vstd::utf8::encode_utf8(s2.s@),
                                    vstd::utf8::encode_utf8(s1.s@),
                                ) {
                                    old(self).true_
                                } else {
                                    old(self).false_
                                },
                            ),
                            _ => r is Error && final(self).stack@ == s0,
                        },
                    }),
                    crate::instrs::Primitive::GreaterThanEquals => args@.len() == 1 ==> (match (
                        spec_isize_of(h0, rcv),
                        spec_isize_of(h0, args@[0]),
                    ) {
                        (Some(x), Some(y)) => r is Val && final(self).stack@ == s0.push(
                            if x >= y {
                                old(self).true_
                            } else {
                                old(self).false_
                            },
                        ),
                        _ => match (
                            crate::objects::spec_string_at(h0, rcv),
                            crate::objects::spec_string_at(h0, args@[0]),
                        ) {
                            (Some(s1), Some(s2)) => r is Val && final(self).stack@ == s0.push(
                                if !lex_lt(
                                    vstd::utf8::encode_utf8(s1.s@),
                                    vstd::utf8::encode_utf8(s2.s@),
                                ) {
                                    old(self).true_
                                } else {
                                    old(self).false_
                                },
                            ),
                            _ => r is Error && final(self).stack@ == s0,
                        },
                    }),
                    crate::instrs::Primitive::Equals => args@.len() == 1 ==> r is Val && final(self).stack@ == s0.push(
                        if spec_val_eq(h0, rcv, args@[0]) {
                            old(self).true_
                        } else {
                            old(self).false_
                        },
                    ),
                    crate::instrs::Primitive::NotEquals => args@.len() == 1 ==> r is Val && final(self).stack@ == s0.push(
                        if !spec_val_eq(h0, rcv, args@[0]) {
                            old(self).true_
                        } else {
                            old(self).false_
                        },
                    ),
                    crate::instrs::Primitive::RefEquals => args@.len() == 1 ==> r is Val && final(self).stack@ == s0.push(
                        if spec_ref_eq(rcv, args@[0]) {
                            old(self).true_
                        } else {
                            old(self).false_
                        },
                    ),
                    crate::instrs::Primitive::Class => (match old(self).spec_class_of(rcv) {
                        Some(cv) => r is Val && final(self).stack@ == s0.push(cv),
                        None => r is Error && final(self).stack@ == s0,
                    }),
                    crate::instrs::Primitive::Halt => r is Val && final(self).stack@ == s0.push(
                        rcv,
                    ),
                    crate::instrs::Primitive::Inspect => r is Val && final(self).stack@
                        == s0.push(rcv),
                    crate::instrs::Primitive::PrintNewline => r is Val && final(self).stack@
                        == s0.push(old(self).system) && final(self).output@ == old(self).output@
                        + "\n"@,
                    crate::instrs::Primitive::PrintString => args@.len() == 1 ==> (match crate::objects::spec_string_at(
                        h0,
                        args@[0],
                    ) {
                        Some(os) => r is Val && final(self).stack@ == s0.push(old(self).system)
                            && final(self).output@ == old(self).output@ + os.s@,
                        None => r is Error && final(self).output@ == old(self).output@,
                    }),
                    crate::instrs::Primitive::Restart => r is Error && *r->Error_0
                        == VMError::PrimitiveError,
                    crate::instrs::Primitive::Value(nparams) => (match spec_block_at(h0, rcv) {
                        Some(blk) => {
                            &&& (args@.len() != nparams || blk.num_params != nparams) ==> r
                                is Error
                            &&& (fuel > 0 && (args@.len() != nparams || blk.num_params
                                != nparams)) ==> r is Error && *r->Error_0
                                == VMError::PrimitiveError
                            &&& (fuel > 0 && args@.len() == nparams && blk.num_params == nparams)
                                ==> (match spec_class_at(h0, blk.blockinfo_cls) {
                                Some(bc) => blk.blockinfo_off < bc.blockinfos@.len() ==> ({
                                    let bi = bc.blockinfos@[blk.blockinfo_off as int];
                                    // the block runs in a fresh activation
                                    // whose closure chains to the one the
                                    // block captured
                                    bi.num_vars >= args@.len() ==> {
                                        &&& final(self).closures@.len() > old(self).closures@.len()
                                        &&& final(self).closures@[old(self).closures@.len() as int].parent == Some(
                                            blk.parent_closure,
                                        )
                                        &&& final(self).closures@[old(self).closures@.len() as int].vars@.len() == bi.num_vars
                                    }
                                }),
                                None => true,
                            })
                        },
                        None => r is Error,
                    }),
                    crate::instrs::Primitive::Perform => args@.len() == 1 ==> (match crate::objects::spec_string_at(
                        h0,
                        args@[0],
                    ) {
                        Some(sel) => (match old(self).spec_class_of(rcv) {
                            Some(cv) => (match spec_chain_lookup(
                                h0,
                                cv,
                                sel.s@,
                                (h0.len() + 1) as nat,
                            ) {
                                MethodLookup::NotFound => r is Error,
                                MethodLookup::Abort => r is Error,
                                MethodLookup::Found(_, _) => true,
                            }),
                            None => r is Error,
                        }),
                        None => r is Error,
                    }),
                    crate::instrs::Primitive::AsString => (match spec_isize_of(h0, rcv) {
                        Some(x) => room ==> r is Val && stack_pushed(s0, final(self).stack@)
                            && crate::objects::heap_push_string(
                            h0,
                            final(self).heap@,
                            crate::numstr::spec_int_str(x),
                            true,
                        ) && final(self).stack@.last().spec_box_index() == h0.len(),
                        None => match crate::objects::spec_string_at(h0, rcv) {
                            Some(os) => room ==> r is Val && stack_pushed(s0, final(self).stack@)
                                && crate::objects::heap_push_string(
                                h0,
                                final(self).heap@,
                                os.s@,
                                true,
                            ) && final(self).stack@.last().spec_box_index() == h0.len(),
                            None => match spec_class_at(h0, rcv) {
                                Some(c) => room ==> r is Val && stack_pushed(
                                    s0,
                                    final(self).stack@,
                                ) && crate::objects::heap_push_string(
                                    h0,
                                    final(self).heap@,
                                    c.name@,
                                    true,
                                ) && final(self).stack@.last().spec_box_index() == h0.len(),
                                None => r is Error && final(self).stack@ == s0,
                            },
                        },
                    }),
                    crate::instrs::Primitive::Concatenate => args@.len() == 1 ==> (match (
                        crate::objects::spec_string_at(h0, rcv),
                        crate::objects::spec_string_at(h0, args@[0]),
                    ) {
                        (Some(a), Some(b)) => {
                            &&& r is Val
                            &&& stack_pushed(s0, final(self).stack@)
                            &&& a.s@.len() == 0 ==> final(self).stack@.last() == args@[0]
                            &&& (a.s@.len() > 0 && b.s@.len() == 0) ==> final(self).stack@.last() == rcv
                            &&& (a.s@.len() > 0 && b.s@.len() > 0 && room)
                                ==> crate::objects::heap_push_string(
                                h0,
                                final(self).heap@,
                                a.s@ + b.s@,
                                true,
                            ) && final(self).stack@.last().spec_box_index() == h0.len()
                        },
                        _ => r is Error && final(self).stack@ == s0,
                    }),
                    crate::instrs::Primitive::Name => (match spec_class_at(h0, rcv) {
                        Some(c) => room ==> r is Val && stack_pushed(s0, final(self).stack@)
                            && crate::objects::heap_push_string(
                            h0,
                            final(self).heap@,
                            c.name@,
                            true,
                        ) && final(self).stack@.last().spec_box_index() == h0.len(),
                        None => r is Error && final(self).stack@ == s0,
                    }),
                    crate::instrs::Primitive::New => args@.len() == 0 ==> (match spec_class_at(
                        h0,
                        rcv,
                    ) {
                        Some(c) => room ==> r is Val && stack_pushed(s0, final(self).stack@)
                            && final(self).stack@.last().spec_is_box() && final(self).stack@.last().spec_box_index() == h0.len() && (match final(self).heap@[h0.len() as int] {
                            Obj::Inst(inst) => inst.class == rcv && inst.inst_vars@.len()
                                == c.num_inst_vars && forall|k: int|
                                0 <= k < c.num_inst_vars ==> (
                                #[trigger] inst.inst_vars@[k]).spec_illegal(),
                            _ => false,
                        }),
                        None => r is Error && final(self).stack@ == s0,
                    }),
                    crate::instrs::Primitive::InstVarAt => args@.len() == 1 ==> (match crate::objects::spec_usize_of(
                        h0,
                        args@[0],
                    ) {
                        Some(i) => if i < 1 {
                            r is Error && *r->Error_0 == VMError::IndexOutOfBounds
                        } else {
                            match spec_inst_at(h0, rcv) {
                                Some(inst) => if i - 1 < inst.inst_vars@.len() {
                                    r is Val && final(self).stack@ == s0.push(
                                        inst.inst_vars@[i - 1],
                                    )
                                } else {
                                    r is Error && final(self).stack@ == s0
                                },
                                None => r is Error && final(self).stack@ == s0,
                            }
                        },
                        None => r is Error && final(self).stack@ == s0,
                    }),
                    crate::instrs::Primitive::InstVarAtPut => args@.len() == 2 ==> (match crate::objects::spec_usize_of(
                        h0,
                        args@[0],
                    ) {
                        Some(i) => if i < 1 {
                            r is Error && *r->Error_0 == VMError::IndexOutOfBounds
                        } else {
                            match spec_inst_at(h0, rcv) {
                                Some(inst) => if i - 1 < inst.inst_vars@.len() {
                                    r is Val && final(self).stack@ == s0.push(rcv) && (match final(self).heap@[rcv.spec_box_index()] {
                                        Obj::Inst(ni) => ni.class == inst.class && ni.inst_vars@
                                            == inst.inst_vars@.update(i - 1, args@[1]),
                                        _ => false,
                                    })
                                } else {
                                    r is Error
                                },
                                None => r is Error,
                            }
                        },
                        None => r is Error,
                    }),
                    crate::instrs::Primitive::Hashcode => rcv.val >> 3 <= usize::MAX as u64
                        ==> r is Val && final(self).stack@ == s0.push(
                        Val { val: crate::val::spec_tag_int_word(rcv.val >> 3) },
                    ),
                    _ => r is Error && *r->Error_0 == VMError::PrimitiveError && *final(self)
                        == *old(self),
                }
            }),
        decreases fuel, 0int,
    {
        proof {
            lemma_text_extends_refl(self.output@);
            lemma_closures_extend_refl(self.closures@);
        }
        match prim {
            crate::instrs::Primitive::Add => {
                if args.len() != 1 {
                    return SendReturn::Error(Box::new(VMError::PrimitiveError));
                }
                let v = match self.prim_add(rcv, args[0]) {
                    Ok(v) => v,
                    Err(e) => {
                        return SendReturn::Error(e);
                    },
                };
                self.stack_push(v);
                SendReturn::Val
            },
            crate::instrs::Primitive::Sub => {
                if args.len() != 1 {
                    return SendReturn::Error(Box::new(VMError::PrimitiveError));
                }
                let v = match self.prim_sub(rcv, args[0]) {
                    Ok(v) => v,
                    Err(e) => {
                        return SendReturn::Error(e);
                    },
                };
                self.stack_push(v);
                SendReturn::Val
            },
            crate::instrs::Primitive::Mul => {
                if args.len() != 1 {
                    return SendReturn::Error(Box::new(VMError::PrimitiveError));
                }
                let v = match self.prim_mul(rcv, args[0]) {
                    Ok(v) => v,
                    Err(e) => {
                        return SendReturn::Error(e);
                    },
                };
                self.stack_push(v);
                SendReturn::Val
            },
            crate::instrs::Primitive::Div => {
                if args.len() != 1 {
                    return SendReturn::Error(Box::new(VMError::PrimitiveError));
                }
                let v = match self.prim_div(rcv, args[0]) {
                    Ok(v) => v,
                    Err(e) => {
                        return SendReturn::Error(e);
                    },
                };
                self.stack_push(v);
                SendReturn::Val
            },
            crate::instrs::Primitive::Mod => {
                if args.len() != 1 {
                    return SendReturn::Error(Box::new(VMError::PrimitiveError));
                }
                let v = match self.prim_mod(rcv, args[0]) {
                    Ok(v) => v,
                    Err(e) => {
                        return SendReturn::Error(e);
                    },
                };
                self.stack_push(v);
                SendReturn::Val
            },
            crate::instrs::Primitive::And => {
                if args.len() != 1 {
                    return SendReturn::Error(Box::new(VMError::PrimitiveError));
                }
                let v = match self.prim_and(rcv, args[0]) {
                    Ok(v) => v,
                    Err(e) => {
                        return SendReturn::Error(e);
                    },
                };
                self.stack_push(v);
                SendReturn::Val
            },
            crate::instrs::Primitive::BitXor => {
                if args.len() != 1 {
                    return SendReturn::Error(Box::new(VMError::PrimitiveError));
                }
                let v = match self.prim_xor(rcv, args[0]) {
                    Ok(v) => v,
                    Err(e) => {
                        return SendReturn::Error(e);
                    },
                };
                self.stack_push(v);
                SendReturn::Val
            },
            crate::instrs::Primitive::Shl => {
                if args.len() != 1 {
                    return SendReturn::Error(Box::new(VMError::PrimitiveError));
                }
                let v = match self.prim_shl(rcv, args[0]) {
                    Ok(v) => v,
                    Err(e) => {
                        return SendReturn::Error(e);
                    },
                };
                self.stack_push(v);
                SendReturn::Val
            },
            crate::instrs::Primitive::LessThan => {
                if args.len() != 1 {
                    return SendReturn::Error(Box::new(VMError::PrimitiveError));
                }
                let v = match self.prim_lt(rcv, args[0]) {
                    Ok(v) => v,
                    Err(e) => {
                        return SendReturn::Error(e);
                    },
                };
                self.stack_push(v);
                SendReturn::Val
            },
            crate::instrs::Primitive::LessThanEquals => {
                if args.len() != 1 {
                    return SendReturn::Error(Box::new(VMError::PrimitiveError));
                }
                let v = match self.prim_le(rcv, args[0]) {
                    Ok(v) => v,
                    Err(e) => {
                        return SendReturn::Error(e);
                    },
                };
                self.stack_push(v);
                SendReturn::Val
            },
            crate::instrs::Primitive::GreaterThan => {
                if args.len() != 1 {
                    return SendReturn::Error(Box::new(VMError::PrimitiveError));
                }
                let v = match self.prim_gt(rcv, args[0]) {
                    Ok(v) => v,
                    Err(e) => {
                        return SendReturn::Error(e);
                    },
                };
                self.stack_push(v);
                SendReturn::Val
            },
            crate::instrs::Primitive::GreaterThanEquals => {
                if args.len() != 1 {
                    return SendReturn::Error(Box::new(VMError::PrimitiveError));
                }
                let v = match self.prim_ge(rcv, args[0]) {
                    Ok(v) => v,
                    Err(e) => {
                        return SendReturn::Error(e);
                    },
                };
                self.stack_push(v);
                SendReturn::Val
            },
            crate::instrs::Primitive::Equals => {
                if args.len() != 1 {
                    return SendReturn::Error(Box::new(VMError::PrimitiveError));
                }
                let b = self.val_equals(rcv, args[0]);
                let v = self.bool_val(b);
                self.stack_push(v);
                SendReturn::Val
            },
            crate::instrs::Primitive::NotEquals => {
                if args.len() != 1 {
                    return SendReturn::Error(Box::new(VMError::PrimitiveError));
                }
                let b = self.val_equals(rcv, args[0]);
                let v = self.bool_val(!b);
                self.stack_push(v);
                SendReturn::Val
            },
            crate::instrs::Primitive::RefEquals => {
                if args.len() != 1 {
                    return SendReturn::Error(Box::new(VMError::PrimitiveError));
                }
                let b = self.val_ref_equals(rcv, args[0]);
                let v = self.bool_val(b);
                self.stack_push(v);
                SendReturn::Val
            },
            crate::instrs::Primitive::AsString => {
                let v = match self.prim_as_string(rcv) {
                    Ok(v) => v,
                    Err(e) => {
                        return SendReturn::Error(e);
                    },
                };
                self.stack_push(v);
                SendReturn::Val
            },
            crate::instrs::Primitive::Class => {
                let v = match self.get_class(rcv) {
                    Ok(v) => v,
                    Err(e) => {
                        return SendReturn::Error(e);
                    },
                };
                self.stack_push(v);
                SendReturn::Val
            },
            crate::instrs::Primitive::Concatenate => {
                if args.len() != 1 {
                    return SendReturn::Error(Box::new(VMError::PrimitiveError));
                }
                let (text, is_str) = match crate::objects::str_data(self, rcv) {
                    Ok(t) => t,
                    Err(e) => {
                        return SendReturn::Error(e);
                    },
                };
                let tmp = String_ { s: text, is_str };
                let v = match tmp.concatenate(self, rcv, args[0]) {
                    Ok(v) => v,
                    Err(e) => {
                        return SendReturn::Error(e);
                    },
                };
                self.stack_push(v);
                SendReturn::Val
            },
            crate::instrs::Primitive::Halt => {
                self.stack_push(rcv);
                SendReturn::Val
            },
            crate::instrs::Primitive::Inspect => {
                self.stack_push(rcv);
                SendReturn::Val
            },
            crate::instrs::Primitive::Hashcode => {
                let h: u64 = rcv.val >> 3;
                proof {
                    let w = rcv.val;
                    assert(w >> 3 < 0x2000_0000_0000_0000u64) by (bit_vector);
                }
                let vr = Val::from_usize(self, #[verifier::truncate] (h as usize));
                if vr.is_val() {
                    let v = vr.unwrap();
                    self.stack_push(v);
                    SendReturn::Val
                } else {
                    SendReturn::Error(vr.unwrap_err())
                }
            },
            crate::instrs::Primitive::InstVarAt => {
                if args.len() != 1 {
                    return SendReturn::Error(Box::new(VMError::PrimitiveError));
                }
                let idx = match args[0].as_usize(self) {
                    Ok(i) => i,
                    Err(e) => {
                        return SendReturn::Error(e);
                    },
                };
                if idx < 1 {
                    return SendReturn::Error(Box::new(VMError::IndexOutOfBounds));
                }
                let v = match self.inst_var_lookup(rcv, idx - 1) {
                    Ok(v) => v,
                    Err(e) => {
                        return SendReturn::Error(e);
                    },
                };
                self.stack_push(v);
                SendReturn::Val
            },
            crate::instrs::Primitive::InstVarAtPut => {
                if args.len() != 2 {
                    return SendReturn::Error(Box::new(VMError::PrimitiveError));
                }
                let idx = match args[0].as_usize(self) {
                    Ok(i) => i,
                    Err(e) => {
                        return SendReturn::Error(e);
                    },
                };
                if idx < 1 {
                    return SendReturn::Error(Box::new(VMError::IndexOutOfBounds));
                }
                match self.inst_var_set(rcv, idx - 1, args[1]) {
                    Ok(()) => (),
                    Err(e) => {
                        return SendReturn::Error(e);
                    },
                }
                self.stack_push(rcv);
                SendReturn::Val
            },
            crate::instrs::Primitive::Name => {
                let name = match self.class_name(rcv) {
                    Ok(n) => n,
                    Err(e) => {
                        return SendReturn::Error(e);
                    },
                };
                let v = String_::new(self, name, true);
                self.stack_push(v);
                SendReturn::Val
            },
            crate::instrs::Primitive::New => {
                if args.len() != 0 {
                    return SendReturn::Error(Box::new(VMError::PrimitiveError));
                }
                let v = match Inst::new(self, rcv) {
                    Ok(v) => v,
                    Err(e) => {
                        return SendReturn::Error(e);
                    },
                };
                self.stack_push(v);
                SendReturn::Val
            },
            crate::instrs::Primitive::PrintNewline => {
                self.output_str("\n");
                let v = self.system;
                self.stack_push(v);
                SendReturn::Val
            },
            crate::instrs::Primitive::PrintString => {
                if args.len() != 1 {
                    return SendReturn::Error(Box::new(VMError::PrimitiveError));
                }
                let (text, _is_str) = match crate::objects::str_data(self, args[0]) {
                    Ok(t) => t,
                    Err(e) => {
                        return SendReturn::Error(e);
                    },
                };
                self.output_str(text.as_str());
                let v = self.system;
                self.stack_push(v);
                SendReturn::Val
            },
            crate::instrs::Primitive::Value(nparams) => {
                if fuel == 0 {
                    return SendReturn::Error(Box::new(VMError::StackOverflow));
                }
                let blk = match self.downcast_block(rcv) {
                    Ok(b) => b,
                    Err(e) => {
                        return SendReturn::Error(e);
                    },
                };
                if args.len() != nparams || blk.num_params != nparams {
                    return SendReturn::Error(Box::new(VMError::PrimitiveError));
                }
                let blkinfo = match self.blockinfo(blk.blockinfo_cls, blk.blockinfo_off) {
                    Ok(b) => b,
                    Err(e) => {
                        return SendReturn::Error(e);
                    },
                };
                if blkinfo.num_vars < args.len() {
                    return SendReturn::Error(Box::new(VMError::IndexOutOfBounds));
                }
                let frame = Frame::new(
                    self,
                    false,
                    rcv,
                    Some(blk.parent_closure),
                    blkinfo.num_vars,
                    args,
                );
                self.frame_push(frame);
                let ghost pre_call = *self;
                let r = self.exec_user(rcv, blk.blockinfo_cls, blkinfo.bytecode_off, fuel - 1);
                self.frame_pop();
                proof {
                    lemma_text_extends_trans(old(self).output@, pre_call.output@, self.output@);
                    lemma_closures_extend_trans(
                        old(self).closures@,
                        pre_call.closures@,
                        self.closures@,
                    );
                }
                r
            },
            crate::instrs::Primitive::Perform => {
                if args.len() != 1 {
                    return SendReturn::Error(Box::new(VMError::PrimitiveError));
                }
                if fuel == 0 {
                    return SendReturn::Error(Box::new(VMError::StackOverflow));
                }
                let (sel, _is_str) = match crate::objects::str_data(self, args[0]) {
                    Ok(t) => t,
                    Err(e) => {
                        return SendReturn::Error(e);
                    },
                };
                let cls2 = match self.get_class(rcv) {
                    Ok(c) => c,
                    Err(e) => {
                        return SendReturn::Error(e);
                    },
                };
                let (meth_cls, body) = match self.get_method(cls2, &sel) {
                    Ok(t) => t,
                    Err(e) => {
                        return SendReturn::Error(e);
                    },
                };
                let ghost pre_call = *self;
                let r = match body {
                    MethodBody::Primitive(crate::instrs::Primitive::Restart) => SendReturn::Error(
                        Box::new(VMError::PrimitiveError),
                    ),
                    MethodBody::Primitive(p) => self.exec_primitive(p, rcv, Vec::new(), fuel - 1),
                    MethodBody::User { num_vars, bytecode_off, max_stack: _ } => {
                        if num_vars < 1 {
                            return SendReturn::Error(Box::new(VMError::IndexOutOfBounds));
                        }
                        let nframe = Frame::new(self, true, rcv, None, num_vars, Vec::new());
                        self.frame_push(nframe);
                        let r = self.exec_user(rcv, meth_cls, bytecode_off, fuel - 1);
                        self.frame_pop();
                        r
                    },
                };
                proof {
                    lemma_text_extends_trans(old(self).output@, pre_call.output@, self.output@);
                    lemma_closures_extend_trans(
                        old(self).closures@,
                        pre_call.closures@,
                        self.closures@,
                    );
                }
                r
            },
            // A restart is handled at its send site, where the enclosing
            // method's entry point is known; reaching it here means the
            // send machinery was bypassed.
            crate::instrs::Primitive::Restart => SendReturn::Error(
                Box::new(VMError::PrimitiveError),
            ),
            // The remaining perform variants, sqrt (a double result),
            // objectSize and instVarNamed: are not implemented by this
            // core.
            _ => SendReturn::Error(Box::new(VMError::PrimitiveError)),
        }
    }

    /// Execute user bytecode from `meth_start_pc` of the class `cls_val`
    /// against the receiver `rcv`, in the activation already on top of the
    /// frame stack.
    pub(crate) fn exec_user(&mut self, rcv: Val, cls_val: Val, meth_start_pc: usize, fuel: u64)
        -> (r: SendReturn)
        requires
            old(self).frames@.len() > 0,
        ensures
            same_globals(*old(self), *final(self)),
            final(self).frames@.len() == old(self).frames@.len(),
            final(self).heap@.len() >= old(self).heap@.len(),
            text_extends(final(self).output@, old(self).output@),
            closures_extend(old(self).closures@, final(self).closures@),
            fuel > 0 ==> (match spec_class_at(old(self).heap@, cls_val) {
                Some(c) => {
                    &&& (meth_start_pc < c.instrs@.len() && c.instrs@[meth_start_pc as int]
                        == crate::instrs::Instr::Return) ==> r is Val && *final(self) == *old(self)
                    &&& meth_start_pc >= c.instrs@.len() ==> r is Error && *r->Error_0
                        == VMError::Exit && *final(self) == *old(self)
                },
                None => r is Error && *final(self) == *old(self),
            }),
            (match spec_linear_result(
                *old(self),
                cls_val,
                meth_start_pc as int,
                old(self).stack@,
                fuel as nat,
            ) {
                Some(fs) => r is Val && same_except_stack(*old(self), *final(self)) && final(self).stack@ == fs,
                None => true,
            }),
            (match spec_linear_vars_result(
                *old(self),
                old(self).frames@.last().closure as int,
                cls_val,
                meth_start_pc as int,
                old(self).stack@,
                fuel as nat,
            ) {
                Some(fs) => r is Val && same_except_stack(*old(self), *final(self)) && final(self).stack@ == fs,
                None => true,
            }),
        decreases fuel, 1int,
    {
        proof {
            lemma_text_extends_refl(self.output@);
            lemma_closures_extend_refl(self.closures@);
            if fuel > 0 && spec_class_at(self.heap@, cls_val) is Some {
                lemma_linear_step(
                    *self,
                    cls_val,
                    meth_start_pc as int,
                    self.stack@,
                    fuel as nat,
                );
                lemma_linear_vars_step(
                    *self,
                    self.frames@.last().closure as int,
                    cls_val,
                    meth_start_pc as int,
                    self.stack@,
                    fuel as nat,
                );
            }
        }
        if fuel > 0 {
            // A body whose first instruction is already a return, or whose
            // entry point lies past the stream's end, finishes before any
            // state is touched.
            match self.fetch_instr(cls_val, meth_start_pc) {
                Ok(Some(crate::instrs::Instr::Return)) => {
                    return SendReturn::Val;
                },
                Ok(Some(_)) => (),
                Ok(None) => {
                    return SendReturn::Error(Box::new(VMError::Exit));
                },
                Err(e) => {
                    return SendReturn::Error(e);
                },
            }
        }
        let stack_start = self.stack_len();
        let mut pc = meth_start_pc;
        let mut gas = fuel;
        loop
            invariant
                self.frames@.len() == old(self).frames@.len(),
                old(self).frames@.len() > 0,
                same_globals(*old(self), *self),
                gas <= fuel,
                self.heap@.len() >= old(self).heap@.len(),
                text_extends(self.output@, old(self).output@),
                closures_extend(old(self).closures@, self.closures@),
                fuel > 0 ==> (match spec_class_at(old(self).heap@, cls_val) {
                    Some(c) => meth_start_pc < c.instrs@.len() && c.instrs@[meth_start_pc as int]
                        != crate::instrs::Instr::Return,
                    None => false,
                }),
                (spec_linear_result(
                    *old(self),
                    cls_val,
                    meth_start_pc as int,
                    old(self).stack@,
                    fuel as nat,
                ) is Some) ==> {
                    &&& same_except_stack(*old(self), *self)
                    &&& spec_linear_result(
                        *old(self),
                        cls_val,
                        meth_start_pc as int,
                        old(self).stack@,
                        fuel as nat,
                    ) == spec_linear_result(*old(self), cls_val, pc as int, self.stack@, gas as nat)
                },
                (spec_linear_vars_result(
                    *old(self),
                    old(self).frames@.last().closure as int,
                    cls_val,
                    meth_start_pc as int,
                    old(self).stack@,
                    fuel as nat,
                ) is Some) ==> {
                    &&& same_except_stack(*old(self), *self)
                    &&& spec_linear_vars_result(
                        *old(self),
                        old(self).frames@.last().closure as int,
                        cls_val,
                        meth_start_pc as int,
                        old(self).stack@,
                        fuel as nat,
                    ) == spec_linear_vars_result(
                        *old(self),
                        old(self).frames@.last().closure as int,
                        cls_val,
                        pc as int,
                        self.stack@,
                        gas as nat,
                    )
                },
            decreases gas,
        {
            if gas == 0 {
                return SendReturn::Error(Box::new(VMError::StackOverflow));
            }
            gas = gas - 1;
            let instr_opt = match self.fetch_instr(cls_val, pc) {
                Ok(o) => o,
                Err(e) => {
                    return SendReturn::Error(e);
                },
            };
            let instr = match instr_opt {
                Some(i) => i,
                None => {
                    return SendReturn::Error(Box::new(VMError::Exit));
                },
            };
            proof {
                if spec_linear_result(
                    *old(self),
                    cls_val,
                    meth_start_pc as int,
                    old(self).stack@,
                    fuel as nat,
                ) is Some {
                    lemma_linear_step(
                        *old(self),
                        cls_val,
                        pc as int,
                        self.stack@,
                        (gas + 1) as nat,
                    );
                }
                if spec_linear_vars_result(
                    *old(self),
                    old(self).frames@.last().closure as int,
                    cls_val,
                    meth_start_pc as int,
                    old(self).stack@,
                    fuel as nat,
                ) is Some {
                    lemma_linear_vars_step(
                        *old(self),
                        old(self).frames@.last().closure as int,
                        cls_val,
                        pc as int,
                        self.stack@,
                        (gas + 1) as nat,
                    );
                }
            }
            match instr {
                crate::instrs::Instr::Block(blkinfo_off) => {
                    let blkinfo = match self.blockinfo(cls_val, blkinfo_off) {
                        Ok(b) => b,
                        Err(e) => {
                            return SendReturn::Error(e);
                        },
                    };
                    let b = self.mk_block(cls_val, blkinfo_off, blkinfo.num_params);
                    self.stack_push(b);
                    pc = blkinfo.bytecode_end;
                },
                crate::instrs::Instr::Builtin(b) => {
                    let v = match b {
                        crate::instrs::Builtin::Nil => self.nil,
                        crate::instrs::Builtin::False => self.false_,
                        crate::instrs::Builtin::System => self.system,
                        crate::instrs::Builtin::True => self.true_,
                    };
                    self.stack_push(v);
                    pc = next_pc(pc);
                },
                crate::instrs::Instr::ClosureReturn(closure_depth) => {
                    if self.stack_len() == 0 {
                        return SendReturn::Error(Box::new(VMError::IndexOutOfBounds));
                    }
                    let v = self.stack_pop();
                    let cur = self.current_closure();
                    let parent_closure = match self.closure_at(cur, closure_depth) {
                        Ok(c) => c,
                        Err(e) => {
                            return SendReturn::Error(e);
                        },
                    };
                    match self.unwind_to(parent_closure, v) {
                        Some(frame_depth) => {
                            return SendReturn::ClosureReturn(frame_depth);
                        },
                        None => {
                            // The block escaped the method it was written
                            // in: execution halts.
                            return SendReturn::Error(Box::new(VMError::Exit));
                        },
                    }
                },
                crate::instrs::Instr::Const(coff) => {
                    let v = match self.const_entry(cls_val, coff) {
                        Ok(v) => v,
                        Err(e) => {
                            return SendReturn::Error(e);
                        },
                    };
                    self.stack_push(v);
                    pc = next_pc(pc);
                },
                crate::instrs::Instr::Int(n) => {
                    let v = Val::from_isize(self, n).unwrap();
                    self.stack_push(v);
                    pc = next_pc(pc);
                },
                crate::instrs::Instr::String(idx) => {
                    let (text, is_str) = match self.string_entry(cls_val, idx) {
                        Ok(t) => t,
                        Err(e) => {
                            return SendReturn::Error(e);
                        },
                    };
                    let v = String_::new(self, text, is_str);
                    self.stack_push(v);
                    pc = next_pc(pc);
                },
                crate::instrs::Instr::InstVarLookup(n) => {
                    let v = match self.inst_var_lookup(rcv, n) {
                        Ok(v) => v,
                        Err(e) => {
                            return SendReturn::Error(e);
                        },
                    };
                    self.stack_push(v);
                    pc = next_pc(pc);
                },
                crate::instrs::Instr::InstVarSet(n) => {
                    if self.stack_len() == 0 {
                        return SendReturn::Error(Box::new(VMError::IndexOutOfBounds));
                    }
                    let v = self.stack_peek();
                    match self.inst_var_set(rcv, n, v) {
                        Ok(()) => (),
                        Err(e) => {
                            return SendReturn::Error(e);
                        },
                    }
                    pc = next_pc(pc);
                },
                crate::instrs::Instr::Pop => {
                    if self.stack_len() == 0 {
                        return SendReturn::Error(Box::new(VMError::IndexOutOfBounds));
                    }
                    self.stack_pop();
                    pc = next_pc(pc);
                },
                crate::instrs::Instr::Return => {
                    return SendReturn::Val;
                },
                crate::instrs::Instr::Send(moff) => {
                    let (name, nargs) = match self.send_entry(cls_val, moff) {
                        Ok(t) => t,
                        Err(e) => {
                            return SendReturn::Error(e);
                        },
                    };
                    let pre_len = self.stack_len();
                    if pre_len <= nargs {
                        return SendReturn::Error(Box::new(VMError::IndexOutOfBounds));
                    }
                    let mut rev_args: Vec<Val> = Vec::new();
                    while rev_args.len() < nargs
                        invariant
                            rev_args@.len() <= nargs,
                            nargs < pre_len,
                            self.stack@.len() == pre_len - rev_args@.len(),
                            self.frames@.len() == old(self).frames@.len(),
                            old(self).frames@.len() > 0,
                            same_globals(*old(self), *self),
                            self.heap@.len() >= old(self).heap@.len(),
                            text_extends(self.output@, old(self).output@),
                            closures_extend(old(self).closures@, self.closures@),
                        decreases nargs - rev_args@.len(),
                    {
                        let v = self.stack_pop();
                        rev_args.push(v);
                    }
                    let mut args: Vec<Val> = Vec::new();
                    let mut i = rev_args.len();
                    while i > 0
                        invariant
                            i <= rev_args@.len(),
                            args@.len() == rev_args@.len() - i,
                        decreases i,
                    {
                        i = i - 1;
                        args.push(rev_args[i]);
                    }
                    let rcv2 = self.stack_pop();
                    let cls2 = match self.get_class(rcv2) {
                        Ok(c) => c,
                        Err(e) => {
                            return SendReturn::Error(e);
                        },
                    };
                    let (meth_cls, body) = match self.get_method(cls2, &name) {
                        Ok(t) => t,
                        Err(e) => {
                            return SendReturn::Error(e);
                        },
                    };
                    let sl = self.stack_len();
                    self.set_current_sp(sl);
                    let ghost pre_call = *self;
                    let r = match body {
                        MethodBody::Primitive(crate::instrs::Primitive::Restart) => {
                            self.stack_truncate(stack_start);
                            pc = meth_start_pc;
                            continue ;
                        },
                        MethodBody::Primitive(p) => self.exec_primitive(p, rcv2, args, gas),
                        MethodBody::User { num_vars, bytecode_off, max_stack: _ } => {
                            if gas == 0 {
                                return SendReturn::Error(Box::new(VMError::StackOverflow));
                            }
                            if num_vars < 1 || num_vars - 1 < args.len() {
                                return SendReturn::Error(Box::new(VMError::IndexOutOfBounds));
                            }
                            let nframe = Frame::new(self, true, rcv2, None, num_vars, args);
                            self.frame_push(nframe);
                            let r = self.exec_user(rcv2, meth_cls, bytecode_off, gas - 1);
                            self.frame_pop();
                            r
                        },
                    };
                    proof {
                        lemma_text_extends_trans(
                            old(self).output@,
                            pre_call.output@,
                            self.output@,
                        );
                        lemma_closures_extend_trans(
                            old(self).closures@,
                            pre_call.closures@,
                            self.closures@,
                        );
                    }
                    match r {
                        SendReturn::ClosureReturn(d) => {
                            if d > 0 {
                                return SendReturn::ClosureReturn(d - 1);
                            }
                        },
                        SendReturn::Error(e) => {
                            return SendReturn::Error(e);
                        },
                        SendReturn::Val => (),
                    }
                    pc = next_pc(pc);
                },
                crate::instrs::Instr::VarLookup(d, n) => {
                    let f = self.current_frame();
                    let vr = f.var_lookup(self, d, n);
                    let v = match vr.as_result() {
                        Ok(v) => v,
                        Err(e) => {
                            return SendReturn::Error(e);
                        },
                    };
                    self.stack_push(v);
                    pc = next_pc(pc);
                },
                crate::instrs::Instr::VarSet(d, n) => {
                    if self.stack_len() == 0 {
                        return SendReturn::Error(Box::new(VMError::IndexOutOfBounds));
                    }
                    let v = self.stack_peek();
                    let f = self.current_frame();
                    match f.var_set(self, d, n, v) {
                        Ok(()) => (),
                        Err(e) => {
                            return SendReturn::Error(e);
                        },
                    }
                    pc = next_pc(pc);
                },
            }
        }
    }

    /// Send the message `msg` to the receiver `rcv` with the arguments
    /// `args`: look the method up on the receiver's class and run it in a
    /// fresh activation.  A primitive cannot be entered from here.
    pub fn send(&mut self, rcv: Val, msg: &str, args: Vec<Val>) -> (r: ValResult)
        ensures
            same_globals(*old(self), *final(self)),
            final(self).frames@.len() == old(self).frames@.len(),
            final(self).heap@.len() >= old(self).heap@.len(),
            text_extends(final(self).output@, old(self).output@),
            closures_extend(old(self).closures@, final(self).closures@),
            match old(self).spec_class_of(rcv) {
                Some(cv) => match spec_chain_lookup(
                    old(self).heap@,
                    cv,
                    msg@,
                    (old(self).heap@.len() + 1) as nat,
                ) {
                    MethodLookup::Found(mcls, b) => match b {
                        MethodBody::Primitive(_) => !r.is_val_spec() && r.spec_err()
                            == VMError::PrimitiveError && *final(self) == *old(self),
                        MethodBody::User { num_vars, bytecode_off, max_stack: _ } => (num_vars
                            >= 1 && num_vars - 1 >= args@.len()) ==> {
                            // the fresh activation: its closure holds the
                            // receiver in slot zero, then the arguments
                            &&& (match spec_linear_result(
                                *old(self),
                                mcls,
                                bytecode_off as int,
                                old(self).stack@,
                                EXEC_BUDGET as nat,
                            ) {
                                Some(fs) => if fs.len() > 0 {
                                    r.is_val_spec() && r.spec_val() == fs.last() && final(self).stack@ == fs.drop_last()
                                } else {
                                    !r.is_val_spec() && r.spec_err() == VMError::IndexOutOfBounds
                                },
                                None => true,
                            })
                            &&& (forall|vmx: VM|
                                (vmx.heap@ == old(self).heap@ && vmx.nil == old(self).nil
                                    && vmx.false_ == old(self).false_ && vmx.system == old(self).system && vmx.true_ == old(self).true_ && vmx.closures@.len()
                                    == old(self).closures@.len() + 1 && (forall|k: int|
                                    0 <= k < old(self).closures@.len() ==> (
                                    #[trigger] vmx.closures@[k]).parent == old(self).closures@[k].parent && vmx.closures@[k].vars@ == old(self).closures@[k].vars@) && vmx.closures@.last().parent is None
                                    && vmx.closures@.last().vars@ == spec_frame_vars(
                                    true,
                                    rcv,
                                    args@,
                                    num_vars as nat,
                                )) ==> (match #[trigger] spec_linear_vars_result(
                                    vmx,
                                    old(self).closures@.len() as int,
                                    mcls,
                                    bytecode_off as int,
                                    old(self).stack@,
                                    EXEC_BUDGET as nat,
                                ) {
                                    Some(fs) => if fs.len() > 0 {
                                        r.is_val_spec() && r.spec_val() == fs.last() && final(self).stack@ == fs.drop_last()
                                    } else {
                                        !r.is_val_spec() && r.spec_err()
                                            == VMError::IndexOutOfBounds
                                    },
                                    None => true,
                                }))
                            &&& final(self).closures@.len() > old(self).closures@.len()
                            &&& final(self).closures@[old(self).closures@.len() as int].parent
                                is None
                            &&& final(self).closures@[old(self).closures@.len() as int].vars@.len() == num_vars
                            &&& (match spec_class_at(old(self).heap@, mcls) {
                                Some(c) => (bytecode_off < c.instrs@.len()
                                    && c.instrs@[bytecode_off as int]
                                    == crate::instrs::Instr::Return) ==> {
                                    &&& final(self).closures@[old(self).closures@.len() as int].vars@ == spec_frame_vars(
                                        true,
                                        rcv,
                                        args@,
                                        num_vars as nat,
                                    )
                                    &&& (if old(self).stack@.len() > 0 {
                                        r.is_val_spec() && r.spec_val() == old(self).stack@.last() && final(self).stack@ == old(self).stack@.drop_last()
                                    } else {
                                        !r.is_val_spec() && r.spec_err()
                                            == VMError::IndexOutOfBounds
                                    })
                                },
                                None => true,
                            })
                        },
                    },
                    MethodLookup::NotFound => !r.is_val_spec() && (match r.spec_err() {
                        VMError::UnknownMethod(s) => s@ == msg@,
                        _ => false,
                    }) && *final(self) == *old(self),
                    MethodLookup::Abort => !r.is_val_spec(),
                },
                None => !r.is_val_spec() && *final(self) == *old(self),
            },
    {
        proof {
            lemma_text_extends_refl(self.output@);
            lemma_closures_extend_refl(self.closures@);
        }
        let name = msg.to_owned();
        let cls = match self.get_class(rcv) {
            Ok(c) => c,
            Err(e) => {
                return ValResult::from_boxvmerror(e);
            },
        };
        let (meth_cls, body) = match self.get_method(cls, &name) {
            Ok(t) => t,
            Err(e) => {
                return ValResult::from_boxvmerror(e);
            },
        };
        match body {
            MethodBody::Primitive(_) => ValResult::from_vmerror(VMError::PrimitiveError),
            MethodBody::User { num_vars, bytecode_off, max_stack: _ } => {
                if num_vars < 1 || num_vars - 1 < args.len() {
                    return ValResult::from_vmerror(VMError::IndexOutOfBounds);
                }
                let frame = Frame::new(self, true, rcv, None, num_vars, args);
                self.frame_push(frame);
                let ghost pre_call = *self;
                let r = self.exec_user(rcv, meth_cls, bytecode_off, EXEC_BUDGET);
                self.frame_pop();
                proof {
                    lemma_linear_agrees(
                        *old(self),
                        pre_call,
                        meth_cls,
                        bytecode_off as int,
                        old(self).stack@,
                        EXEC_BUDGET as nat,
                    );
                    assert forall|vmx: VM|
                        (vmx.heap@ == old(self).heap@ && vmx.nil == old(self).nil && vmx.false_
                            == old(self).false_ && vmx.system == old(self).system && vmx.true_
                            == old(self).true_ && vmx.closures@.len() == old(self).closures@.len() + 1 && (forall|k: int|
                            0 <= k < old(self).closures@.len() ==> (
                            #[trigger] vmx.closures@[k]).parent == old(self).closures@[k].parent
                                && vmx.closures@[k].vars@ == old(self).closures@[k].vars@)
                            && vmx.closures@.last().parent is None && vmx.closures@.last().vars@
                            == spec_frame_vars(
                            true,
                            rcv,
                            args@,
                            num_vars as nat,
                        )) implies spec_linear_vars_result(
                        vmx,
                        old(self).closures@.len() as int,
                        meth_cls,
                        bytecode_off as int,
                        old(self).stack@,
                        EXEC_BUDGET as nat,
                    ) == spec_linear_vars_result(
                        pre_call,
                        old(self).closures@.len() as int,
                        meth_cls,
                        bytecode_off as int,
                        old(self).stack@,
                        EXEC_BUDGET as nat,
                    ) by {
                        lemma_linear_vars_agrees(
                            pre_call,
                            vmx,
                            old(self).closures@.len() as int,
                            meth_cls,
                            bytecode_off as int,
                            old(self).stack@,
                            EXEC_BUDGET as nat,
                        );
                    }
                }
                match r {
                    SendReturn::ClosureReturn(_) => ValResult::from_vmerror(VMError::Exit),
                    SendReturn::Error(e) => ValResult::from_boxvmerror(e),
                    SendReturn::Val => {
                        if self.stack_len() > 0 {
                            let v = self.stack_pop();
                            ValResult::from_val(v)
                        } else {
                            ValResult::from_vmerror(VMError::IndexOutOfBounds)
                        }
                    },
                }
            },
        }
    }
}

/// Closure identity: any two block objects created while one activation is
/// current — even for different block literals — capture the very same
/// closure, so their `parent_closure` indices are equal and variable
/// storage reached through them is shared.  `mk_block` pins every block it
/// allocates to `spec_block_for` of the state it was called in.
pub proof fn lemma_closure_identity(
    vm: VM,
    c1: Val,
    o1: usize,
    n1: usize,
    c2: Val,
    o2: usize,
    n2: usize,
)
    requires
        vm.frames@.len() > 0,
    ensures
        spec_block_for(vm, c1, o1, n1).parent_closure == spec_block_for(
            vm,
            c2,
            o2,
            n2,
        ).parent_closure,
{
}

} // verus!

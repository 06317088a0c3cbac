//! The heap object kinds.  Every heap cell holds an [`Obj`], whose variant is
//! reported by [`ObjType`]; a [`val::Val`] with the box tag is an index into
//! the VM's heap arena.

use vstd::prelude::*;

use crate::instrs::{BlockInfo, Instr, Primitive};
use crate::val::{Val, HEAP_LIMIT};
use crate::vm::{same_except_heap, VMError, VM};

verus! {

/// The second heap is the first with one more string cell of the given text
/// and kind at its end.
pub open spec fn heap_push_string(
    pre: Seq<Obj>,
    post: Seq<Obj>,
    text: Seq<char>,
    is_str: bool,
) -> bool {
    &&& post.len() == pre.len() + 1
    &&& post.subrange(0, pre.len() as int) == pre
    &&& match post.last() {
        Obj::String_(ns) => ns.s@ == text && ns.is_str == is_str,
        _ => false,
    }
}

/// No two entries of a send-intern table hold the same selector and
/// argument count.
pub open spec fn sends_unique(s: Seq<(String, usize)>) -> bool {
    forall|i: int, j: int|
        0 <= i < j < s.len() ==> !((#[trigger] s[i]).0@ == (#[trigger] s[j]).0@ && s[i].1
            == s[j].1)
}

/// No two entries of a string-intern table hold the same text and kind.
pub open spec fn strings_unique(s: Seq<(String, bool)>) -> bool {
    forall|i: int, j: int|
        0 <= i < j < s.len() ==> !((#[trigger] s[i]).0@ == (#[trigger] s[j]).0@ && s[i].1
            == s[j].1)
}

/// No two methods of the table share a name.
pub open spec fn methods_unique(ms: Seq<Method>) -> bool {
    forall|i: int, j: int|
        0 <= i < j < ms.len() ==> (#[trigger] ms[i]).name@ != (#[trigger] ms[j]).name@
}

impl Class {
    /// Intern uniqueness: the send table holds each (selector, arity) pair
    /// at most once, and the literal table holds each literal at most once.
    pub open spec fn interns_unique(self) -> bool {
        sends_unique(self.sends@) && strings_unique(self.strings@)
    }
}

/// Intern uniqueness for sends: in a class whose tables are interned, two
/// distinct send entries never agree on both selector and argument count.
pub proof fn lemma_send_intern_uniqueness(c: Class, i: int, j: int)
    requires
        c.interns_unique(),
        0 <= i < j < c.sends@.len(),
    ensures
        !(c.sends@[i].0@ == c.sends@[j].0@ && c.sends@[i].1 == c.sends@[j].1),
{
}

/// Intern uniqueness for literals: in a class whose tables are interned,
/// two distinct literal entries never agree on both text and kind.
pub proof fn lemma_string_intern_uniqueness(c: Class, i: int, j: int)
    requires
        c.interns_unique(),
        0 <= i < j < c.strings@.len(),
    ensures
        !(c.strings@[i].0@ == c.strings@[j].0@ && c.strings@[i].1 == c.strings@[j].1),
{
}

/// The runtime discriminator of a heap object.
#[derive(Clone, Copy, Debug, PartialEq, Eq, Structural)]
pub enum ObjType {
    Array,
    Block,
    Class,
    Double,
    Inst,
    Int,
    Method,
    String_,
}

/// Marker for object kinds whose values must never be stored unboxed in a
/// tagged word.  Every kind but the boxed integer carries it.
pub trait NotUnboxable {}

impl NotUnboxable for Array {}

impl NotUnboxable for Block {}

impl NotUnboxable for Class {}

impl NotUnboxable for Inst {}

impl NotUnboxable for String_ {}

/// A compiled class: its method table plus the flat instruction stream and
/// the auxiliary tables the instructions index into.
pub struct Class {
    pub name: String,
    pub path: String,
    pub supercls: Option<Val>,
    pub num_inst_vars: usize,
    pub methods: Vec<Method>,
    pub consts: Vec<Val>,
    pub instrs: Vec<Instr>,
    pub blockinfos: Vec<BlockInfo>,
    /// Interned message sends: each entry is a (selector, argument count)
    /// pair, and no pair occurs twice.
    pub sends: Vec<(String, usize)>,
    /// Interned string and symbol literals: each entry is the literal text
    /// plus a flag which is true for strings and false for symbols, and no
    /// entry occurs twice.
    pub strings: Vec<(String, bool)>,
}

/// A compiled method: a primitive tag or a user body in the owning class's
/// instruction stream.
pub struct Method {
    pub name: String,
    pub body: MethodBody,
}

#[derive(Clone, Copy, Debug, PartialEq, Eq, Structural)]
pub enum MethodBody {
    Primitive(Primitive),
    User { num_vars: usize, bytecode_off: usize, max_stack: usize },
}

/// An instance of a user class: the class handle plus one slot per instance
/// variable (initially the illegal value).
pub struct Inst {
    pub class: Val,
    pub inst_vars: Vec<Val>,
}

/// A first-class block: where its code lives, the closure it captured, and
/// its parameter count.
#[derive(Clone, Copy, Debug, PartialEq, Eq, Structural)]
pub struct Block {
    /// The class whose `blockinfos` table describes this block's body.
    pub blockinfo_cls: Val,
    pub blockinfo_off: usize,
    /// Index into the VM's closure arena: the closure captured when the block
    /// literal was evaluated.
    pub parent_closure: usize,
    pub num_params: usize,
}

/// A string or symbol; the two share a representation but report different
/// classes.
pub struct String_ {
    pub s: String,
    /// True for strings, false for symbols.
    pub is_str: bool,
}

/// An indexable sequence of values; indices are 1-based.
pub struct Array {
    pub arr: Vec<Val>,
    pub length: usize,
}

/// One heap cell.
pub enum Obj {
    Array(Array),
    Block(Block),
    Class(Class),
    Inst(Inst),
    /// A boxed integer, used for values outside the unboxed 61-bit range.
    Int(isize),
    String_(String_),
}

impl String_ {
    /// Allocate a new string (or, with `is_str` false, symbol) object.
    pub fn new(vm: &mut VM, s: String, is_str: bool) -> (r: Val)
        ensures
            same_except_heap(*old(vm), *final(vm)),
            final(vm).heap@.len() >= old(vm).heap@.len(),
            r.wf(),
            old(vm).heap@.len() < HEAP_LIMIT ==> heap_push_string(
                old(vm).heap@,
                final(vm).heap@,
                s@,
                is_str,
            ) && r.spec_is_box() && r.spec_box_index() == old(vm).heap@.len(),
    {
        let ghost pre = vm.heap@;
        let r = Val::from_obj(vm, Obj::String_(String_ { s, is_str }));
        proof {
            if pre.len() < HEAP_LIMIT {
                assert(vm.heap@.subrange(0, pre.len() as int) =~= pre);
            }
        }
        r
    }

    pub fn as_str(&self) -> (r: &str)
        ensures
            r@ == self.s@,
    {
        self.s.as_str()
    }

    /// A fresh string with the same text, reported as a string even when
    /// this object is a symbol.
    pub fn to_strval(&self, vm: &mut VM) -> (r: Result<Val, Box<VMError>>)
        ensures
            same_except_heap(*old(vm), *final(vm)),
            final(vm).heap@.len() >= old(vm).heap@.len(),
            r is Ok && r->Ok_0.wf(),
            old(vm).heap@.len() < HEAP_LIMIT ==> heap_push_string(
                old(vm).heap@,
                final(vm).heap@,
                self.s@,
                true,
            ) && r->Ok_0.spec_is_box() && r->Ok_0.spec_box_index() == old(vm).heap@.len(),
    {
        Ok(String_::new(vm, clone_string(&self.s), true))
    }

    /// A fresh symbol with the same text.
    pub fn to_symbol(&self, vm: &mut VM) -> (r: Result<Val, Box<VMError>>)
        ensures
            same_except_heap(*old(vm), *final(vm)),
            final(vm).heap@.len() >= old(vm).heap@.len(),
            r is Ok && r->Ok_0.wf(),
            old(vm).heap@.len() < HEAP_LIMIT ==> heap_push_string(
                old(vm).heap@,
                final(vm).heap@,
                self.s@,
                false,
            ) && r->Ok_0.spec_is_box() && r->Ok_0.spec_box_index() == old(vm).heap@.len(),
    {
        Ok(String_::new(vm, clone_string(&self.s), false))
    }

    /// Reference equality is identity: true exactly when `other` is the
    /// very heap cell `self_val` names; a non-string argument is a type
    /// error.
    pub fn ref_equals(&self, vm: &VM, self_val: Val, other: Val) -> (r: Result<
        bool,
        Box<VMError>,
    >)
        ensures
            match spec_string_at(vm.heap@, other) {
                Some(_) => r == Result::<bool, Box<VMError>>::Ok(self_val.val == other.val),
                None => r is Err && (other.spec_is_box() && other.spec_box_index()
                    < vm.heap@.len() ==> *r->Err_0 == (VMError::TypeError {
                    expected: ObjType::String_,
                    got: vm.heap@[other.spec_box_index()].spec_objtype(),
                })),
            },
    {
        match vm.downcast_string(other) {
            Ok(_) => Ok(self_val.val == other.val),
            Err(e) => Err(e),
        }
    }

    /// Concatenate this string (the heap cell `self_val`) with another
    /// string and return the result.  Since strings are immutable, the
    /// empty string is a two-sided identity: an empty receiver hands back
    /// `other`, an empty argument hands back the receiver itself, and
    /// neither allocates.
    pub fn concatenate(&self, vm: &mut VM, self_val: Val, other: Val) -> (r: Result<
        Val,
        Box<VMError>,
    >)
        ensures
            final(vm).heap@.len() >= old(vm).heap@.len(),
            same_except_heap(*old(vm), *final(vm)),
            match spec_string_at(old(vm).heap@, other) {
                Some(os) => {
                    &&& r is Ok
                    &&& if self.s@.len() == 0 {
                        r->Ok_0 == other && *final(vm) == *old(vm)
                    } else if os.s@.len() == 0 {
                        r->Ok_0 == self_val && *final(vm) == *old(vm)
                    } else {
                        old(vm).heap@.len() < HEAP_LIMIT ==> heap_push_string(
                            old(vm).heap@,
                            final(vm).heap@,
                            self.s@ + os.s@,
                            true,
                        ) && r->Ok_0.spec_is_box() && r->Ok_0.spec_box_index() == old(vm).heap@.len()
                    }
                },
                None => r is Err && *final(vm) == *old(vm) && (other.spec_is_box()
                    && other.spec_box_index() < old(vm).heap@.len() ==> *r->Err_0 == (
                VMError::TypeError {
                    expected: ObjType::String_,
                    got: old(vm).heap@[other.spec_box_index()].spec_objtype(),
                })),
            },
    {
        let (otext, _ostr) = str_data(vm, other)?;
        if self.s.as_str().is_empty() {
            return Ok(other);
        }
        if otext.as_str().is_empty() {
            return Ok(self_val);
        }
        let mut joined = clone_string(&self.s);
        joined.append(otext.as_str());
        Ok(String_::new(vm, joined, true))
    }
}

/// The string object a value points at, when it points at one.
pub open spec fn spec_string_at(heap: Seq<Obj>, v: Val) -> Option<String_> {
    if v.spec_is_box() && v.spec_box_index() < heap.len() {
        match heap[v.spec_box_index()] {
            Obj::String_(os) => Some(os),
            _ => None,
        }
    } else {
        None
    }
}

/// Read the text and kind of the string object `v` points at, or report why
/// it is not one.
pub fn str_data(vm: &VM, v: Val) -> (r: Result<(String, bool), Box<VMError>>)
    ensures
        match spec_string_at(vm.heap@, v) {
            Some(os) => r is Ok && r->Ok_0.0@ == os.s@ && r->Ok_0.1 == os.is_str,
            None => r is Err,
        },
        r is Err ==> {
            &&& v.spec_illegal() ==> *r->Err_0 == VMError::UnassignedVar(0)
            &&& v.spec_is_int() ==> *r->Err_0 == (VMError::GcBoxTypeError {
                expected: ObjType::String_,
                got: ObjType::Int,
            })
            &&& (v.spec_is_box() && v.spec_box_index() < vm.heap@.len()) ==> *r->Err_0 == (
            VMError::TypeError {
                expected: ObjType::String_,
                got: vm.heap@[v.spec_box_index()].spec_objtype(),
            })
        },
{
    proof {
        let w = v.val;
        assert(0u64 & 7 == 0) by (bit_vector);
        assert(w & 7 == 1 ==> w != 0) by (bit_vector);
    }
    if v.is_illegal() {
        return Err(Box::new(VMError::UnassignedVar(0)));
    }
    if !(v.val & crate::val::TAG_BITMASK == 0) {
        return Err(
            Box::new(VMError::GcBoxTypeError { expected: ObjType::String_, got: ObjType::Int }),
        );
    }
    let idx = v.obj_index();
    if idx >= vm.heap.len() as u64 {
        return Err(Box::new(VMError::IndexOutOfBounds));
    }
    match &vm.heap[idx as usize] {
        Obj::String_(os) => Ok((clone_string(&os.s), os.is_str)),
        o => Err(
            Box::new(VMError::TypeError { expected: ObjType::String_, got: o.dyn_objtype() }),
        ),
    }
}

/// Clone a string, keeping its text.
pub fn clone_string(s: &String) -> (r: String)
    ensures
        r@ == s@,
{
    s.clone()
}

/// Compare two strings by text.
pub fn string_eq(a: &String, b: &String) -> (r: bool)
    ensures
        r == (a@ == b@),
{
    *a == *b
}

impl Inst {
    /// Allocate an instance of `class` with every instance variable set to
    /// the illegal placeholder.
    pub fn new(vm: &mut VM, class: Val) -> (r: Result<Val, Box<VMError>>)
        ensures
            same_except_heap(*old(vm), *final(vm)),
            final(vm).heap@.len() >= old(vm).heap@.len(),
            match spec_class_at(old(vm).heap@, class) {
                Some(c) => r is Ok && r->Ok_0.wf() && (old(vm).heap@.len() < HEAP_LIMIT ==> {
                    &&& final(vm).heap@.len() == old(vm).heap@.len() + 1
                    &&& final(vm).heap@.subrange(0, old(vm).heap@.len() as int) == old(vm).heap@
                    &&& match final(vm).heap@.last() {
                        Obj::Inst(inst) => inst.class == class && inst.inst_vars@.len()
                            == c.num_inst_vars && forall|k: int|
                            0 <= k < c.num_inst_vars ==> (
                            #[trigger] inst.inst_vars@[k]).spec_illegal(),
                        _ => false,
                    }
                    &&& r->Ok_0.spec_is_box()
                    &&& r->Ok_0.spec_box_index() == old(vm).heap@.len()
                }),
                None => r is Err && *final(vm) == *old(vm),
            },
    {
        let n = match class_data_num_inst_vars(vm, class) {
            Ok(n) => n,
            Err(e) => {
                return Err(e);
            },
        };
        let mut inst_vars: Vec<Val> = Vec::new();
        while inst_vars.len() < n
            invariant
                inst_vars@.len() <= n,
                forall|k: int| 0 <= k < inst_vars@.len() ==> (
                #[trigger] inst_vars@[k]).spec_illegal(),
            decreases n - inst_vars@.len(),
        {
            inst_vars.push(Val::illegal());
        }
        let ghost pre = vm.heap@;
        let r = Val::from_obj(vm, Obj::Inst(Inst { class, inst_vars }));
        proof {
            if pre.len() < HEAP_LIMIT {
                assert(vm.heap@.subrange(0, pre.len() as int) =~= pre);
            }
        }
        Ok(r)
    }
}

/// The class object a value points at, when it points at one.
pub open spec fn spec_class_at(heap: Seq<Obj>, v: Val) -> Option<Class> {
    if v.spec_is_box() && v.spec_box_index() < heap.len() {
        match heap[v.spec_box_index()] {
            Obj::Class(c) => Some(c),
            _ => None,
        }
    } else {
        None
    }
}

/// Read the instance-variable count of the class `v` points at, or report
/// why it is not a class.
pub fn class_data_num_inst_vars(vm: &VM, v: Val) -> (r: Result<usize, Box<VMError>>)
    ensures
        match spec_class_at(vm.heap@, v) {
            Some(c) => r == Result::<usize, Box<VMError>>::Ok(c.num_inst_vars),
            None => r is Err,
        },
{
    if v.is_illegal() {
        return Err(Box::new(VMError::UnassignedVar(0)));
    }
    if !(v.val & crate::val::TAG_BITMASK == 0) {
        return Err(
            Box::new(VMError::GcBoxTypeError { expected: ObjType::Class, got: ObjType::Int }),
        );
    }
    let idx = v.obj_index();
    if idx >= vm.heap.len() as u64 {
        return Err(Box::new(VMError::IndexOutOfBounds));
    }
    match &vm.heap[idx as usize] {
        Obj::Class(c) => Ok(c.num_inst_vars),
        o => Err(Box::new(VMError::TypeError { expected: ObjType::Class, got: o.dyn_objtype() })),
    }
}

impl Block {
    /// Allocate a block object capturing the closure `parent_closure`.
    pub fn new(
        vm: &mut VM,
        blockinfo_cls: Val,
        blockinfo_off: usize,
        parent_closure: usize,
        num_params: usize,
    ) -> (r: Val)
        ensures
            same_except_heap(*old(vm), *final(vm)),
            final(vm).heap@.len() >= old(vm).heap@.len(),
            r.wf(),
            old(vm).heap@.len() < HEAP_LIMIT ==> final(vm).heap@ == old(vm).heap@.push(
                Obj::Block(Block { blockinfo_cls, blockinfo_off, parent_closure, num_params }),
            ) && r.spec_is_box() && r.spec_box_index() == old(vm).heap@.len(),
    {
        Val::from_obj(
            vm,
            Obj::Block(Block { blockinfo_cls, blockinfo_off, parent_closure, num_params }),
        )
    }
}

/// The usize the value `v` reads as, if an as-usize read of it succeeds.
pub open spec fn spec_usize_of(heap: Seq<Obj>, v: Val) -> Option<int> {
    if v.spec_is_int() {
        if v.val >> 63 == 0 && v.val >> 3 <= usize::MAX as u64 {
            Some((v.val >> 3) as int)
        } else {
            None
        }
    } else if v.spec_is_box() && v.spec_box_index() < heap.len() {
        match heap[v.spec_box_index()] {
            Obj::Int(j) => if 0 <= j && j as int <= usize::MAX as int {
                Some(j as int)
            } else {
                None
            },
            _ => None,
        }
    } else {
        None
    }
}

/// Copy a vector of values, keeping its contents.
pub fn clone_vals(v: &Vec<Val>) -> (r: Vec<Val>)
    ensures
        r@ == v@,
{
    let mut r: Vec<Val> = Vec::new();
    let mut i: usize = 0;
    while i < v.len()
        invariant
            i <= v@.len(),
            r@ == v@.subrange(0, i as int),
        decreases v@.len() - i,
    {
        r.push(v[i]);
        i = i + 1;
    }
    proof {
        assert(r@ =~= v@);
    }
    r
}

impl Array {
    /// Allocate an array of reported length `len` whose cells are `arr`.
    pub fn new(vm: &mut VM, len: Val, arr: Vec<Val>) -> (r: Result<Val, Box<VMError>>)
        ensures
            same_except_heap(*old(vm), *final(vm)),
            final(vm).heap@.len() >= old(vm).heap@.len(),
            match spec_usize_of(old(vm).heap@, len) {
                Some(length) => r is Ok && r->Ok_0.wf() && (old(vm).heap@.len() < HEAP_LIMIT ==> {
                    &&& final(vm).heap@.len() == old(vm).heap@.len() + 1
                    &&& final(vm).heap@.subrange(0, old(vm).heap@.len() as int) == old(vm).heap@
                    &&& match final(vm).heap@.last() {
                        Obj::Array(a) => a.arr@ == arr@ && a.length == length,
                        _ => false,
                    }
                    &&& r->Ok_0.spec_is_box()
                    &&& r->Ok_0.spec_box_index() == old(vm).heap@.len()
                }),
                None => r is Err && *final(vm) == *old(vm),
            },
    {
        let length = match len.as_usize(vm) {
            Ok(n) => n,
            Err(e) => {
                return Err(e);
            },
        };
        let ghost pre = vm.heap@;
        let r = Val::from_obj(vm, Obj::Array(Array { arr, length }));
        proof {
            if pre.len() < HEAP_LIMIT {
                assert(vm.heap@.subrange(0, pre.len() as int) =~= pre);
            }
        }
        Ok(r)
    }

    /// Read the 1-based cell `at`; an index below one or above the array's
    /// length is out of bounds.
    pub fn at(&self, vm: &VM, at: Val) -> (r: Result<Val, Box<VMError>>)
        ensures
            match spec_usize_of(vm.heap@, at) {
                Some(i) => if 1 <= i && i <= self.length && i - 1 < self.arr@.len() {
                    r == Result::<Val, Box<VMError>>::Ok(self.arr@[i - 1])
                } else {
                    r == Result::<Val, Box<VMError>>::Err(Box::new(VMError::IndexOutOfBounds))
                },
                None => r is Err,
            },
    {
        let index = match at.as_usize(vm) {
            Ok(n) => n,
            Err(e) => {
                return Err(e);
            },
        };
        if index < 1 || index > self.length {
            return Err(Box::new(VMError::IndexOutOfBounds));
        }
        if index - 1 < self.arr.len() {
            Ok(self.arr[index - 1])
        } else {
            Err(Box::new(VMError::IndexOutOfBounds))
        }
    }

    /// A fresh array like this one but with the 1-based cell `at` holding
    /// `put`; writing one past the last filled cell appends.
    pub fn put(&self, vm: &mut VM, put: Val, at: Val) -> (r: Result<Val, Box<VMError>>)
        ensures
            same_except_heap(*old(vm), *final(vm)),
            final(vm).heap@.len() >= old(vm).heap@.len(),
            match spec_usize_of(old(vm).heap@, at) {
                Some(i) => if 1 <= i && i <= self.length && i - 1 <= self.arr@.len() {
                    r is Ok && r->Ok_0.wf() && (old(vm).heap@.len() < HEAP_LIMIT ==> {
                        &&& final(vm).heap@.len() == old(vm).heap@.len() + 1
                        &&& final(vm).heap@.subrange(0, old(vm).heap@.len() as int) == old(vm).heap@
                        &&& match final(vm).heap@.last() {
                            Obj::Array(a) => a.length == self.length && (if i - 1
                                < self.arr@.len() {
                                a.arr@ == self.arr@.update(i - 1, put)
                            } else {
                                a.arr@ == self.arr@.push(put)
                            }),
                            _ => false,
                        }
                        &&& r->Ok_0.spec_is_box()
                        &&& r->Ok_0.spec_box_index() == old(vm).heap@.len()
                    })
                } else {
                    r == Result::<Val, Box<VMError>>::Err(Box::new(VMError::IndexOutOfBounds))
                        && *final(vm) == *old(vm)
                },
                None => r is Err && *final(vm) == *old(vm),
            },
    {
        let index = match at.as_usize(vm) {
            Ok(n) => n,
            Err(e) => {
                return Err(e);
            },
        };
        if index < 1 || index > self.length {
            return Err(Box::new(VMError::IndexOutOfBounds));
        }
        let mut arr = clone_vals(&self.arr);
        if index - 1 < arr.len() {
            arr.set(index - 1, put);
        } else if index == arr.len() + 1 {
            arr.push(put);
        } else {
            return Err(Box::new(VMError::IndexOutOfBounds));
        }
        let ghost pre = vm.heap@;
        let r = Val::from_obj(vm, Obj::Array(Array { arr, length: self.length }));
        proof {
            if pre.len() < HEAP_LIMIT {
                assert(vm.heap@.subrange(0, pre.len() as int) =~= pre);
            }
        }
        Ok(r)
    }

    /// The array's reported length, as a value.
    pub fn length(&self, vm: &mut VM) -> (r: Result<Val, Box<VMError>>)
        ensures
            same_except_heap(*old(vm), *final(vm)),
            (self.length as int) < 0x1000_0000_0000_0000 && self.length as int <= isize::MAX as int
                ==> *final(vm) == *old(vm) && r is Ok && r->Ok_0.spec_is_int()
                && r->Ok_0.spec_int_val() == self.length as int,
            (0x1000_0000_0000_0000 <= self.length as int && self.length as int <= isize::MAX as int
                && old(vm).heap@.len() < HEAP_LIMIT) ==> r is Ok && crate::vm::spec_num_val(
                final(vm).heap@,
                r->Ok_0,
            ) == Some(self.length as int),
            self.length as int > isize::MAX as int ==> r is Err && *r->Err_0
                == VMError::CantRepresentAsBigInt && *final(vm) == *old(vm),
    {
        if self.length <= (isize::MAX as usize) {
            Ok(Val::from_isize(vm, self.length as isize).unwrap())
        } else {
            Err(Box::new(VMError::CantRepresentAsBigInt))
        }
    }
}

impl Obj {
    /// The discriminator this object reports at runtime.
    pub open spec fn spec_objtype(&self) -> ObjType {
        match self {
            Obj::Array(_) => ObjType::Array,
            Obj::Block(_) => ObjType::Block,
            Obj::Class(_) => ObjType::Class,
            Obj::Inst(_) => ObjType::Inst,
            Obj::Int(_) => ObjType::Int,
            Obj::String_(_) => ObjType::String_,
        }
    }

    pub fn dyn_objtype(&self) -> (r: ObjType)
        ensures
            r == self.spec_objtype(),
    {
        match self {
            Obj::Array(_) => ObjType::Array,
            Obj::Block(_) => ObjType::Block,
            Obj::Class(_) => ObjType::Class,
            Obj::Inst(_) => ObjType::Inst,
            Obj::Int(_) => ObjType::Int,
            Obj::String_(_) => ObjType::String_,
        }
    }
}

} // verus!

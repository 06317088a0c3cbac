//! Tagged value words.  A [`Val`] is one 64-bit word whose low three bits
//! are a tag: tag `0b001` marks an unboxed signed integer held in the upper
//! 61 bits, tag `0b000` marks a handle to a heap cell.  The all-zero word is
//! the illegal placeholder used for not-yet-assigned slots.  A handle stores
//! one plus the index of its cell in the VM's heap arena, so every valid
//! handle is a non-zero multiple of eight.

use vstd::prelude::*;

use crate::objects::{Obj, ObjType};
use crate::vm::{VMError, VM};

verus! {

pub const BITSIZE: u64 = 64;

pub const TAG_BITSIZE: u64 = 3;

pub const TAG_BITMASK: u64 = 7;

/// The heap arena never grows past this many cells, so that one plus a cell
/// index always fits in the 61 bits a handle has for it.
pub const HEAP_LIMIT: u64 = 0x0400_0000_0000_0000;

/// The tag of a value word.
#[derive(Clone, Copy, Debug, PartialEq, Eq, Structural)]
pub enum ValKind {
    GCBOX,
    INT,
}

/// The core value representation: an unboxed integer or a heap handle,
/// treated uniformly.
#[derive(Clone, Copy, Debug, PartialEq, Eq, Structural)]
pub struct Val {
    pub val: u64,
}

/// Does the integer `i` fit the unboxed 61-bit signed range?
pub open spec fn spec_fits_unboxed(i: int) -> bool {
    -0x1000_0000_0000_0000 <= i && i < 0x1000_0000_0000_0000
}

/// Can the integer `i` be returned as an `isize` on this machine?
pub open spec fn spec_fits_isize(i: int) -> bool {
    isize::MIN as int <= i && i <= isize::MAX as int
}

/// The word that stores payload `p` with the integer tag.
pub open spec fn spec_tag_int_word(p: u64) -> u64 {
    (p << 3) | 1
}

/// The unboxed value that stores the integer `i`.
pub open spec fn spec_encode_unboxed(i: i64) -> Val {
    Val { val: spec_tag_int_word(i as u64) }
}

impl Val {
    /// The all-zero illegal placeholder.
    pub open spec fn spec_illegal(self) -> bool {
        self.val == 0
    }

    /// Tagged as an unboxed integer.
    pub open spec fn spec_is_int(self) -> bool {
        self.val & 7 == 1
    }

    /// Tagged as a (non-null) heap handle.
    pub open spec fn spec_is_box(self) -> bool {
        self.val & 7 == 0 && self.val != 0
    }

    /// Every value a constructor of this crate hands out carries one of the
    /// two defined tags.
    pub open spec fn wf(self) -> bool {
        self.val & 7 == 0 || self.val & 7 == 1
    }

    /// The heap-arena index of a handle.
    pub open spec fn spec_box_index(self) -> int {
        (self.val >> 3) - 1
    }

    /// The integer an int-tagged word stores: the upper 61 bits, sign
    /// extended.
    pub open spec fn spec_int_val(self) -> int {
        if self.val >> 63 == 0 {
            ((self.val >> 3) as i64) as int
        } else {
            (((self.val >> 3) | 0xe000_0000_0000_0000u64) as i64) as int
        }
    }

    /// Create a value upon which all operations are invalid, used as a
    /// placeholder while initialising parts of the system.
    pub fn illegal() -> (r: Val)
        ensures
            r.spec_illegal(),
            r.wf(),
            r.val == 0,
    {
        proof {
            assert(0u64 & 7 == 0) by (bit_vector);
        }
        Val { val: 0 }
    }

    /// Is this value the empty placeholder waiting for a proper value?
    pub fn is_illegal(&self) -> (r: bool)
        ensures
            r == self.spec_illegal(),
    {
        self.val == 0
    }

    pub fn valkind(&self) -> (r: ValKind)
        ensures
            r == (if self.spec_is_int() {
                ValKind::INT
            } else {
                ValKind::GCBOX
            }),
    {
        if self.val & TAG_BITMASK == 1 {
            ValKind::INT
        } else {
            ValKind::GCBOX
        }
    }

    /// The handle for the heap cell at `idx`.
    pub(crate) fn from_box_index(idx: usize) -> (r: Val)
        requires
            (idx as u64) < HEAP_LIMIT,
        ensures
            r.spec_is_box(),
            r.wf(),
            r.spec_box_index() == idx,
    {
        let j: u64 = (idx as u64) + 1;
        let w: u64 = j << 3;
        proof {
            assert((j << 3) & 7 == 0 && (j << 3) != 0 && (j << 3) >> 3 == j) by (bit_vector)
                requires
                    1 <= j && j <= 0x0400_0000_0000_0000u64,
            ;
        }
        Val { val: w }
    }

    /// The heap-arena index of this handle.
    pub(crate) fn obj_index(&self) -> (r: u64)
        requires
            self.spec_is_box(),
        ensures
            r as int == self.spec_box_index(),
    {
        proof {
            let w = self.val;
            assert(w & 7 == 0 && w != 0 ==> w >> 3 >= 1) by (bit_vector);
        }
        (self.val >> 3) - 1
    }

    /// Store a new object in the VM's heap and return its handle.  If the
    /// arena is at its limit the object is discarded and the illegal value
    /// returned; every later use of that value reports a runtime error.
    pub fn from_obj(vm: &mut VM, obj: Obj) -> (r: Val)
        ensures
            crate::vm::same_except_heap(*old(vm), *final(vm)),
            r.wf(),
            old(vm).heap@.len() < HEAP_LIMIT ==> final(vm).heap@ == old(vm).heap@.push(obj)
                && r.spec_is_box() && r.spec_box_index() == old(vm).heap@.len(),
            old(vm).heap@.len() >= HEAP_LIMIT ==> final(vm).heap@ == old(vm).heap@
                && r.spec_illegal(),
    {
        if (vm.heap.len() as u64) < HEAP_LIMIT {
            let idx = vm.heap.len();
            vm.heap.push(obj);
            Val::from_box_index(idx)
        } else {
            Val::illegal()
        }
    }

    /// Create a (possibly boxed) value representing the integer `i`.
    pub fn from_isize(vm: &mut VM, i: isize) -> (r: ValResult)
        ensures
            r.is_val_spec(),
            r.spec_val().wf(),
            spec_fits_unboxed(i as int) ==> *final(vm) == *old(vm) && r.spec_val()
                == spec_encode_unboxed(i as i64) && r.spec_val().spec_is_int()
                && r.spec_val().spec_int_val() == i as int,
            !spec_fits_unboxed(i as int) ==> crate::vm::same_except_heap(*old(vm), *final(vm))
                && (old(vm).heap@.len() < HEAP_LIMIT ==> final(vm).heap@ == old(vm).heap@.push(
                Obj::Int(i),
            ) && r.spec_val().spec_is_box() && r.spec_val().spec_box_index() == old(vm).heap@.len()),
            !spec_fits_unboxed(i as int) && old(vm).heap@.len() >= HEAP_LIMIT ==> final(vm).heap@
                == old(vm).heap@ && r.spec_val().spec_illegal(),
    {
        let iw: i64 = i as i64;
        if iw >= -0x1000_0000_0000_0000i64 && iw < 0x1000_0000_0000_0000i64 {
            let w: u64 = ((iw as u64) << 3) | 1;
            proof {
                lemma_unboxed_round_trip(iw);
            }
            ValResult::from_val(Val { val: w })
        } else {
            ValResult::from_val(Val::from_obj(vm, Obj::Int(i)))
        }
    }

    /// Create a (possibly boxed) value representing the unsigned integer
    /// `i`.  Fails when `i` has its top bit set, since integers are stored
    /// as signed words.
    pub fn from_usize(vm: &mut VM, i: usize) -> (r: ValResult)
        ensures
            r.is_val_spec() <==> (i as u64) < 0x8000_0000_0000_0000u64,
            (i as u64) < 0x2000_0000_0000_0000u64 ==> *final(vm) == *old(vm) && r.spec_val()
                == (Val { val: spec_tag_int_word(i as u64) }) && r.spec_val().spec_is_int(),
            0x2000_0000_0000_0000u64 <= i as u64 && (i as u64) < 0x8000_0000_0000_0000u64
                ==> crate::vm::same_except_heap(*old(vm), *final(vm)) && (old(vm).heap@.len()
                < HEAP_LIMIT ==> final(vm).heap@ == old(vm).heap@.push(Obj::Int(i as isize))
                && r.spec_val().spec_is_box() && r.spec_val().spec_box_index() == old(vm).heap@.len()),
            (i as u64) >= 0x8000_0000_0000_0000u64 ==> *final(vm) == *old(vm) && r.spec_err()
                == VMError::CantRepresentAsIsize,
            r.is_val_spec() ==> r.spec_val().wf(),
    {
        let iw: u64 = i as u64;
        if iw & (TAG_BITMASK << (BITSIZE - TAG_BITSIZE)) == 0 {
            let w: u64 = (iw << 3) | 1;
            proof {
                assert(7u64 << (64 - 3) == 0xe000_0000_0000_0000u64) by (bit_vector);
                assert(iw & 0xe000_0000_0000_0000u64 == 0 ==> iw < 0x2000_0000_0000_0000u64) by (
                bit_vector);
                assert(((iw << 3) | 1) & 7 == 1) by (bit_vector);
            }
            ValResult::from_val(Val { val: w })
        } else if iw & (1 << (BITSIZE - 1)) == 0 {
            proof {
                assert(7u64 << (64 - 3) == 0xe000_0000_0000_0000u64) by (bit_vector);
                assert(1u64 << (64 - 1) == 0x8000_0000_0000_0000u64) by (bit_vector);
                assert(iw & 0xe000_0000_0000_0000u64 != 0 ==> iw >= 0x2000_0000_0000_0000u64) by (
                bit_vector);
                assert(iw & 0x8000_0000_0000_0000u64 == 0 ==> iw < 0x8000_0000_0000_0000u64) by (
                bit_vector);
            }
            ValResult::from_val(Val::from_obj(vm, Obj::Int(i as isize)))
        } else {
            proof {
                assert(1u64 << (64 - 1) == 0x8000_0000_0000_0000u64) by (bit_vector);
                assert(iw & 0x8000_0000_0000_0000u64 != 0 ==> iw >= 0x8000_0000_0000_0000u64) by (
                bit_vector);
            }
            ValResult::from_vmerror(VMError::CantRepresentAsIsize)
        }
    }

    /// If possible, return this value as an `isize`: directly for unboxed
    /// integers, through the heap for boxed ones.
    pub fn as_isize(&self, vm: &VM) -> (r: Result<isize, Box<VMError>>)
        ensures
            self.spec_is_int() ==> (if spec_fits_isize(self.spec_int_val()) {
                r is Ok && r->Ok_0 as int == self.spec_int_val()
            } else {
                r == Result::<isize, Box<VMError>>::Err(Box::new(VMError::CantRepresentAsIsize))
            }),
            self.spec_illegal() ==> r == Result::<isize, Box<VMError>>::Err(
                Box::new(VMError::UnassignedVar(0)),
            ),
            self.spec_is_box() ==> (if self.spec_box_index() < vm.heap@.len() {
                match vm.heap@[self.spec_box_index()] {
                    Obj::Int(j) => r == Result::<isize, Box<VMError>>::Ok(j),
                    o => r == Result::<isize, Box<VMError>>::Err(
                        Box::new(VMError::NotANumber { got: o.spec_objtype() }),
                    ),
                }
            } else {
                r == Result::<isize, Box<VMError>>::Err(Box::new(VMError::IndexOutOfBounds))
            }),
            !self.wf() ==> r is Err,
    {
        proof {
            let w = self.val;
            assert(w & 7 == 1 ==> w != 0) by (bit_vector);
        }
        if self.val & TAG_BITMASK == 1 {
            let v: i64 = if self.val & (1 << (BITSIZE - 1)) == 0 {
                proof {
                    let w = self.val;
                    assert(1u64 << (64 - 1) == 0x8000_0000_0000_0000u64) by (bit_vector);
                    assert(w & 0x8000_0000_0000_0000u64 == 0 ==> w >> 63 == 0) by (bit_vector);
                    assert(w >> 63 == 0 ==> w >> 3 <= 0x1fff_ffff_ffff_ffffu64) by (bit_vector);
                }
                (self.val >> TAG_BITSIZE) as i64
            } else {
                proof {
                    let w = self.val;
                    assert(1u64 << (64 - 1) == 0x8000_0000_0000_0000u64) by (bit_vector);
                    assert(7u64 << (64 - 3) == 0xe000_0000_0000_0000u64) by (bit_vector);
                    assert(w & 0x8000_0000_0000_0000u64 != 0 ==> w >> 63 != 0) by (bit_vector);
                }
                ((self.val >> TAG_BITSIZE) | (TAG_BITMASK << (BITSIZE - TAG_BITSIZE))) as i64
            };
            if v >= isize::MIN as i64 && v <= isize::MAX as i64 {
                Ok(v as isize)
            } else {
                Err(Box::new(VMError::CantRepresentAsIsize))
            }
        } else if self.val == 0 {
            Err(Box::new(VMError::UnassignedVar(0)))
        } else if self.val & TAG_BITMASK == 0 {
            let idx = self.obj_index();
            if idx < vm.heap.len() as u64 {
                match &vm.heap[idx as usize] {
                    Obj::Int(j) => Ok(*j),
                    o => Err(Box::new(VMError::NotANumber { got: o.dyn_objtype() })),
                }
            } else {
                Err(Box::new(VMError::IndexOutOfBounds))
            }
        } else {
            // A word with an undefined tag; no constructor of this crate
            // makes one.
            Err(Box::new(VMError::PrimitiveError))
        }
    }

    /// If possible, return this value as a `usize`; an integer that reads as
    /// negative fails.
    pub fn as_usize(&self, vm: &VM) -> (r: Result<usize, Box<VMError>>)
        ensures
            self.spec_is_int() ==> (if self.val >> 63 == 0 && self.val >> 3 <= usize::MAX as u64 {
                r == Result::<usize, Box<VMError>>::Ok((self.val >> 3) as usize)
            } else {
                r == Result::<usize, Box<VMError>>::Err(Box::new(VMError::CantRepresentAsUsize))
            }),
            self.spec_illegal() ==> r == Result::<usize, Box<VMError>>::Err(
                Box::new(VMError::UnassignedVar(0)),
            ),
            self.spec_is_box() ==> (if self.spec_box_index() < vm.heap@.len() {
                match vm.heap@[self.spec_box_index()] {
                    Obj::Int(j) => (if 0 <= j && j as int <= usize::MAX as int {
                        r == Result::<usize, Box<VMError>>::Ok(j as usize)
                    } else {
                        r == Result::<usize, Box<VMError>>::Err(
                            Box::new(VMError::CantRepresentAsUsize),
                        )
                    }),
                    o => r == Result::<usize, Box<VMError>>::Err(
                        Box::new(VMError::NotANumber { got: o.spec_objtype() }),
                    ),
                }
            } else {
                r == Result::<usize, Box<VMError>>::Err(Box::new(VMError::IndexOutOfBounds))
            }),
            !self.wf() ==> r is Err,
    {
        proof {
            let w = self.val;
            assert(w & 7 == 1 ==> w != 0) by (bit_vector);
        }
        if self.val & TAG_BITMASK == 1 {
            if self.val & (1 << (BITSIZE - 1)) == 0 {
                proof {
                    let w = self.val;
                    assert(1u64 << (64 - 1) == 0x8000_0000_0000_0000u64) by (bit_vector);
                    assert(w & 0x8000_0000_0000_0000u64 == 0 <==> w >> 63 == 0) by (bit_vector);
                }
                let p: u64 = self.val >> TAG_BITSIZE;
                if p <= usize::MAX as u64 {
                    Ok(p as usize)
                } else {
                    Err(Box::new(VMError::CantRepresentAsUsize))
                }
            } else {
                proof {
                    let w = self.val;
                    assert(1u64 << (64 - 1) == 0x8000_0000_0000_0000u64) by (bit_vector);
                    assert(w & 0x8000_0000_0000_0000u64 == 0 <==> w >> 63 == 0) by (bit_vector);
                }
                Err(Box::new(VMError::CantRepresentAsUsize))
            }
        } else if self.val == 0 {
            Err(Box::new(VMError::UnassignedVar(0)))
        } else if self.val & TAG_BITMASK == 0 {
            let idx = self.obj_index();
            if idx < vm.heap.len() as u64 {
                match &vm.heap[idx as usize] {
                    Obj::Int(j) => {
                        if *j >= 0 {
                            Ok(*j as usize)
                        } else {
                            Err(Box::new(VMError::CantRepresentAsUsize))
                        }
                    },
                    o => Err(Box::new(VMError::NotANumber { got: o.dyn_objtype() })),
                }
            } else {
                Err(Box::new(VMError::IndexOutOfBounds))
            }
        } else {
            // A word with an undefined tag; no constructor of this crate
            // makes one.
            Err(Box::new(VMError::PrimitiveError))
        }
    }
}

/// An integer in the unboxed range is stored under the int tag and decodes
/// to itself; its word's top bit is its sign.
pub proof fn lemma_unboxed_round_trip(i: i64)
    requires
        spec_fits_unboxed(i as int),
    ensures
        spec_encode_unboxed(i).spec_is_int(),
        spec_encode_unboxed(i).spec_int_val() == i as int,
        (spec_encode_unboxed(i).val >> 63 == 0) <==> i >= 0,
{
    assert((((i as u64) << 3) | 1) & 7 == 1) by (bit_vector);
    assert(((((i as u64) << 3) | 1) >> 63 == 0) <==> i >= 0) by (bit_vector)
        requires
            -0x1000_0000_0000_0000 <= i && i < 0x1000_0000_0000_0000,
    ;
    assert(((((i as u64) << 3) | 1) >> 63 == 0) ==> ((((i as u64) << 3) | 1) >> 3) as i64 == i)
        by (bit_vector)
        requires
            -0x1000_0000_0000_0000 <= i && i < 0x1000_0000_0000_0000,
    ;
    assert(((((i as u64) << 3) | 1) >> 63 != 0) ==> (((((i as u64) << 3) | 1) >> 3)
        | 0xe000_0000_0000_0000u64) as i64 == i) by (bit_vector)
        requires
            -0x1000_0000_0000_0000 <= i && i < 0x1000_0000_0000_0000,
    ;
}

/// Value round-trip: every integer in `[-(2^60), 2^60)` is represented
/// unboxed and reads back unchanged, and a handle to a boxed integer cell
/// reads back that integer unchanged, so reading back what `from_isize`
/// stored is the identity on all of `isize` (the kind boundaries themselves
/// are in `from_isize`'s contract).
pub proof fn lemma_value_round_trip(i: i64, heap: Seq<Obj>, v: Val)
    ensures
        spec_fits_unboxed(i as int) ==> spec_encode_unboxed(i).spec_is_int()
            && spec_encode_unboxed(i).spec_int_val() == i as int,
        spec_fits_isize(i as int) && v.spec_is_box() && 0 <= v.spec_box_index() < heap.len()
            && heap[v.spec_box_index()] == Obj::Int(i as isize) ==> crate::vm::spec_isize_of(
            heap,
            v,
        ) == Some(i as int),
{
    if spec_fits_unboxed(i as int) {
        lemma_unboxed_round_trip(i);
    }
}

/// Unsigned conversion: an unsigned integer below `2^61` is stored under the
/// int tag, and reads back as itself exactly when it is below `2^60` (above
/// that, the word's top bit is set and an as-usize read is refused).
pub proof fn lemma_usize_conversion(i: u64)
    ensures
        i < 0x2000_0000_0000_0000u64 ==> (Val { val: spec_tag_int_word(i) }).spec_is_int(),
        i < 0x1000_0000_0000_0000u64 ==> spec_tag_int_word(i) >> 63 == 0 && spec_tag_int_word(i)
            >> 3 == i,
        (0x1000_0000_0000_0000u64 <= i && i < 0x2000_0000_0000_0000u64) ==> spec_tag_int_word(i)
            >> 63 != 0,
{
    assert(((i << 3) | 1) & 7 == 1) by (bit_vector);
    assert(i < 0x1000_0000_0000_0000u64 ==> ((i << 3) | 1) >> 63 == 0 && ((i << 3) | 1) >> 3 == i)
        by (bit_vector);
    assert((0x1000_0000_0000_0000u64 <= i && i < 0x2000_0000_0000_0000u64) ==> ((i << 3) | 1)
        >> 63 != 0) by (bit_vector);
}

/// The error a result holds and the boxed error it holds agree: reading
/// the error back through either view gives the error that was put in.
pub proof fn lemma_valresult_err_views(r: ValResult)
    ensures
        !r.is_val_spec() ==> *r.spec_err_box() == r.spec_err(),
{
}

/// A compact result: a value or a boxed runtime error.
#[derive(Debug, PartialEq)]
pub struct ValResult {
    res: Result<Val, Box<VMError>>,
}

impl ValResult {
    /// Does this result hold a value?
    pub closed spec fn is_val_spec(&self) -> bool {
        self.res is Ok
    }

    /// The value held, when one is.
    pub closed spec fn spec_val(&self) -> Val {
        self.res->Ok_0
    }

    /// The error held, when one is.
    pub closed spec fn spec_err(&self) -> VMError {
        *self.res->Err_0
    }

    /// The boxed error held, when one is.
    pub closed spec fn spec_err_box(&self) -> Box<VMError> {
        self.res->Err_0
    }

    /// Construct a result from a value.
    pub fn from_val(val: Val) -> (r: ValResult)
        ensures
            r.is_val_spec(),
            r.spec_val() == val,
    {
        ValResult { res: Ok(val) }
    }

    /// Construct a result from an error.
    pub fn from_vmerror(err: VMError) -> (r: ValResult)
        ensures
            !r.is_val_spec(),
            r.spec_err() == err,
            *r.spec_err_box() == err,
    {
        ValResult { res: Err(Box::new(err)) }
    }

    /// Construct a result from a boxed error.
    pub fn from_boxvmerror(err: Box<VMError>) -> (r: ValResult)
        ensures
            !r.is_val_spec(),
            r.spec_err() == *err,
            r.spec_err_box() == err,
    {
        ValResult { res: Err(err) }
    }

    /// Is this result a value?
    pub fn is_val(&self) -> (r: bool)
        ensures
            r == self.is_val_spec(),
    {
        self.res.is_ok()
    }

    /// Is this result an error?
    pub fn is_err(&self) -> (r: bool)
        ensures
            r == !self.is_val_spec(),
    {
        self.res.is_err()
    }

    /// Turn this result back into the plain form.
    pub fn as_result(self) -> (r: Result<Val, Box<VMError>>)
        ensures
            self.is_val_spec() ==> r == Result::<Val, Box<VMError>>::Ok(self.spec_val()),
            !self.is_val_spec() ==> r == Result::<Val, Box<VMError>>::Err(self.spec_err_box()),
    {
        self.res
    }

    /// The value held; the caller must know one is held.
    pub fn unwrap(self) -> (r: Val)
        requires
            self.is_val_spec(),
        ensures
            r == self.spec_val(),
    {
        match self.res {
            Ok(v) => v,
            Err(_) => vstd::pervasive::unreached(),
        }
    }

    /// The value held, or else the result of `op` on the error held.
    pub fn unwrap_or_else<F: FnOnce(Box<VMError>) -> Val>(self, op: F) -> (r: Val)
        requires
            forall|e: Box<VMError>| #[trigger] op.requires((e,)),
        ensures
            self.is_val_spec() ==> r == self.spec_val(),
            !self.is_val_spec() ==> op.ensures((self.spec_err_box(),), r),
    {
        match self.res {
            Ok(v) => v,
            Err(e) => op(e),
        }
    }

    /// The error held; the caller must know one is held.
    pub fn unwrap_err(self) -> (r: Box<VMError>)
        requires
            !self.is_val_spec(),
        ensures
            r == self.spec_err_box(),
            *r == self.spec_err(),
    {
        match self.res {
            Ok(_) => vstd::pervasive::unreached(),
            Err(e) => e,
        }
    }
}

} // verus!

//! The virtual machine: a fetch-decode-execute loop over an operand
//! stack, a globals table and a stack of call frames.
//!
//! Contracts are stated over [`VmModel`], the mathematical model of the
//! machine state. [`sp_step`] says exactly what executing one instruction
//! does: every `run` outcome is the result of iterating it.

use vstd::prelude::*;
use vstd::string::StringExecFns;

use crate::code::{op_name, op_of_byte, read_uint16, read_uint8, Opcode};
use crate::compiler::ByteCode;
use crate::frame::{new_frame, Frame, FrameModel};
use crate::object::{
    hash_key_of, kind_name_of, obj_model, objs_model, pairs_model, prim_eq, spec_hash_key, truthy,
    Array, CompiledFunction, HashKey, HashKeyModel, HashPair, ObjModel, Object,
};

verus! {

broadcast use crate::object::lemma_objs_model, crate::object::lemma_pairs_model;

/// The operand stack's capacity in values.
pub const STACK_SIZE: usize = 2048;

/// The globals table's capacity hint in slots.
pub const GLOBALS_SIZE: usize = 65536;

/// The frame stack's capacity hint in activations.
pub const MAX_FRAMES: usize = 1024;

/// A fresh globals table.
pub fn new_globals_store() -> (r: Vec<Object>)
    ensures
        r@.len() == 0,
{
    Vec::with_capacity(GLOBALS_SIZE)
}

/// The machine: constants and globals it was given, the operand stack,
/// the most recently popped value, and the active call frames.
pub struct VM {
    constants: Vec<Object>,
    stack: Vec<Object>,
    sp: usize,
    last_popped_stack_elem: Option<Object>,
    globals: Vec<Object>,
    frames: Vec<Frame>,
    frame_index: usize,
}

/// The mathematical model of the machine state.
#[verifier::ext_equal]
pub struct VmModel {
    pub constants: Seq<ObjModel>,
    pub stack: Seq<ObjModel>,
    pub last_popped: Option<ObjModel>,
    pub globals: Seq<ObjModel>,
    pub frames: Seq<FrameModel>,
}

/// The model of an optional value.
pub open spec fn opt_obj_model(o: Option<Object>) -> Option<ObjModel> {
    match o {
        Some(v) => Some(obj_model(v)),
        None => None,
    }
}

/// The models of the active frames, oldest first.
pub open spec fn frames_model(s: Seq<Frame>) -> Seq<FrameModel> {
    Seq::new(s.len(), |i: int| s[i]@)
}

impl View for VM {
    type V = VmModel;

    closed spec fn view(&self) -> VmModel {
        VmModel {
            constants: objs_model(self.constants@),
            stack: objs_model(self.stack@),
            last_popped: opt_obj_model(self.last_popped_stack_elem),
            globals: objs_model(self.globals@),
            frames: frames_model(self.frames@),
        }
    }
}

impl VM {
    /// The machine's structural invariant: the stack pointer counts the
    /// stack, the frame index counts the frames, and a main frame is
    /// always present.
    pub closed spec fn wf(&self) -> bool {
        &&& self.sp == self.stack@.len()
        &&& self.frame_index == self.frames@.len()
        &&& self.frames@.len() >= 1
    }
}

/// What one executed instruction yields: the machine halted (the current
/// frame ran out of code), failed with a runtime error, or stepped to a
/// next state.
pub enum StepResult {
    Halted,
    Failed(Seq<char>, VmModel),
    Stepped(VmModel),
}

/// The currently executing frame.
pub open spec fn sp_cur(m: VmModel) -> FrameModel {
    m.frames.last()
}

/// The state with the current frame's instruction pointer moved.
pub open spec fn sp_with_ip(m: VmModel, ip: int) -> VmModel {
    VmModel {
        frames: m.frames.update(m.frames.len() - 1, FrameModel { ip: ip, ..m.frames.last() }),
        ..m
    }
}

/// The 16-bit big-endian operand starting at `i`.
pub open spec fn sp_u16(code: Seq<u8>, i: int) -> int {
    (code[i] as int) * 256 + (code[i + 1] as int)
}

pub open spec fn err_stack_overflow() -> Seq<char> {
    "stack overflow"@
}

pub open spec fn err_stack_underflow() -> Seq<char> {
    "stack underflow"@
}

pub open spec fn err_truncated() -> Seq<char> {
    "truncated instruction"@
}

pub open spec fn err_unknown_opcode() -> Seq<char> {
    "unknown opcode"@
}

pub open spec fn err_no_such_constant() -> Seq<char> {
    "no such constant"@
}

pub open spec fn err_no_such_global() -> Seq<char> {
    "no such global"@
}

pub open spec fn err_no_such_local() -> Seq<char> {
    "no such local"@
}

pub open spec fn err_frame_underflow() -> Seq<char> {
    "frame stack underflow"@
}

pub open spec fn err_division_by_zero() -> Seq<char> {
    "division by zero"@
}

pub open spec fn err_integer_overflow() -> Seq<char> {
    "integer overflow"@
}

pub open spec fn err_calling_non_function() -> Seq<char> {
    "calling non-function"@
}

pub open spec fn err_budget_exhausted() -> Seq<char> {
    "step budget exhausted"@
}

pub open spec fn err_unsupported_objects(right: ObjModel, left: ObjModel) -> Seq<char> {
    "unsupported object: right: "@ + kind_name_of(right) + ", left: "@ + kind_name_of(left)
}

pub open spec fn err_unknown_string_operator(op: Opcode) -> Seq<char> {
    "unknown string operator: "@ + op_name(op)
}

pub open spec fn err_unknown_comparison(op: Opcode, right: ObjModel, left: ObjModel) -> Seq<
    char,
> {
    "unknown operator: "@ + op_name(op) + " "@ + kind_name_of(right) + " "@ + kind_name_of(left)
}

pub open spec fn err_negation(o: ObjModel) -> Seq<char> {
    "unsupported type for negation: "@ + kind_name_of(o)
}

pub open spec fn err_index_unsupported(left: ObjModel) -> Seq<char> {
    "index operator not supported: "@ + kind_name_of(left)
}

pub open spec fn err_unusable_hash_key(o: ObjModel) -> Seq<char> {
    "unusable as hash key: "@ + kind_name_of(o)
}

/// Pushing a value: refused with `stack overflow` at capacity.
pub open spec fn sp_push(m: VmModel, v: ObjModel) -> Result<VmModel, (Seq<char>, VmModel)> {
    if m.stack.len() >= STACK_SIZE {
        Err((err_stack_overflow(), m))
    } else {
        Ok(VmModel { stack: m.stack + seq![v], ..m })
    }
}

/// Popping the top value, which becomes the most recently popped value.
pub open spec fn sp_pop(m: VmModel) -> (VmModel, ObjModel)
    recommends
        m.stack.len() > 0,
{
    (
        VmModel { stack: m.stack.drop_last(), last_popped: Some(m.stack.last()), ..m },
        m.stack.last(),
    )
}

/// Truncated (Rust-style) integer division: the quotient of the
/// magnitudes, negated when exactly one operand is negative.
pub open spec fn sp_trunc_div(a: int, b: int) -> int {
    let q = (if a >= 0 {
        a
    } else {
        -a
    }) / (if b >= 0 {
        b
    } else {
        -b
    });
    if (a < 0) == (b < 0) {
        q
    } else {
        -q
    }
}

/// The value an integer arithmetic opcode computes, or the error it
/// raises: division by zero is refused, and a result outside the 64-bit
/// range is an overflow.
pub open spec fn sp_int_arith(op: Opcode, a: int, b: int) -> Result<int, Seq<char>> {
    if op == Opcode::OpDiv && b == 0 {
        Err(err_division_by_zero())
    } else {
        let v = if op == Opcode::OpAdd {
            a + b
        } else if op == Opcode::OpSub {
            a - b
        } else if op == Opcode::OpMul {
            a * b
        } else {
            sp_trunc_div(a, b)
        };
        if v < i64::MIN || v > i64::MAX {
            Err(err_integer_overflow())
        } else {
            Ok(v)
        }
    }
}

/// A binary opcode applied to two integers already popped.
pub open spec fn sp_binary_ints(m: VmModel, op: Opcode, a: int, b: int) -> Result<
    VmModel,
    (Seq<char>, VmModel),
> {
    match sp_int_arith(op, a, b) {
        Err(e) => Err((e, m)),
        Ok(v) => sp_push(m, ObjModel::Int(v)),
    }
}

/// A binary opcode applied to two strings already popped: only `OpAdd`
/// (concatenation) is defined on strings.
pub open spec fn sp_binary_strs(m: VmModel, op: Opcode, a: Seq<char>, b: Seq<char>) -> Result<
    VmModel,
    (Seq<char>, VmModel),
> {
    if op == Opcode::OpAdd {
        sp_push(m, ObjModel::Str(a + b))
    } else {
        Err((err_unknown_string_operator(op), m))
    }
}

/// A binary arithmetic opcode: pop the right then the left operand;
/// integers compute, strings concatenate under `OpAdd`, and any other
/// combination is refused.
pub open spec fn sp_binary(m: VmModel, op: Opcode) -> Result<VmModel, (Seq<char>, VmModel)> {
    if m.stack.len() < 2 {
        Err((err_stack_underflow(), m))
    } else {
        let (m1, right) = sp_pop(m);
        let (m2, left) = sp_pop(m1);
        match (left, right) {
            (ObjModel::Int(a), ObjModel::Int(b)) => sp_binary_ints(m2, op, a, b),
            (ObjModel::Str(a), ObjModel::Str(b)) => sp_binary_strs(m2, op, a, b),
            _ => Err((err_unsupported_objects(right, left), m2)),
        }
    }
}

/// A comparison of two integers already popped.
pub open spec fn sp_compare_ints(m: VmModel, op: Opcode, a: int, b: int) -> Result<
    VmModel,
    (Seq<char>, VmModel),
> {
    let c = if op == Opcode::OpEqual {
        a == b
    } else if op == Opcode::OpNotEqual {
        a != b
    } else {
        a > b
    };
    sp_push(m, ObjModel::Bool(c))
}

/// A comparison opcode: pop the right then the left operand; two
/// integers compare numerically, anything else compares with the
/// structural equality of primitives, and `OpGreaterThan` demands
/// integers.
pub open spec fn sp_comparison(m: VmModel, op: Opcode) -> Result<VmModel, (Seq<char>, VmModel)> {
    if m.stack.len() < 2 {
        Err((err_stack_underflow(), m))
    } else {
        let (m1, right) = sp_pop(m);
        let (m2, left) = sp_pop(m1);
        match (left, right) {
            (ObjModel::Int(a), ObjModel::Int(b)) => sp_compare_ints(m2, op, a, b),
            _ => {
                if op == Opcode::OpEqual {
                    sp_push(m2, ObjModel::Bool(prim_eq(right, left)))
                } else if op == Opcode::OpNotEqual {
                    sp_push(m2, ObjModel::Bool(!prim_eq(right, left)))
                } else {
                    Err((err_unknown_comparison(op, right, left), m2))
                }
            },
        }
    }
}

/// `OpBang`: pop and push the negation of the value's truthiness.
pub open spec fn sp_bang(m: VmModel) -> Result<VmModel, (Seq<char>, VmModel)> {
    if m.stack.len() < 1 {
        Err((err_stack_underflow(), m))
    } else {
        let (m1, v) = sp_pop(m);
        sp_push(m1, ObjModel::Bool(!truthy(v)))
    }
}

/// `OpMinus`: pop an integer and push its negation.
pub open spec fn sp_minus(m: VmModel) -> Result<VmModel, (Seq<char>, VmModel)> {
    if m.stack.len() < 1 {
        Err((err_stack_underflow(), m))
    } else {
        let (m1, v) = sp_pop(m);
        match v {
            ObjModel::Int(a) => {
                if -a < i64::MIN || -a > i64::MAX {
                    Err((err_integer_overflow(), m1))
                } else {
                    sp_push(m1, ObjModel::Int(-a))
                }
            },
            _ => Err((err_negation(v), m1)),
        }
    }
}

/// `OpArray`: remove the top `n` values as a contiguous slice, lowest
/// first, and push the array built from them.
pub open spec fn sp_build_array(m: VmModel, n: int) -> Result<VmModel, (Seq<char>, VmModel)> {
    if n > m.stack.len() {
        Err((err_stack_underflow(), m))
    } else {
        let elements = m.stack.subrange(m.stack.len() - n, m.stack.len() as int);
        let m1 = VmModel { stack: m.stack.take(m.stack.len() - n), ..m };
        sp_push(m1, ObjModel::Arr(elements))
    }
}

/// The first position holding the given hash key, or -1.
pub open spec fn sp_hash_find(ps: Seq<(HashKeyModel, ObjModel, ObjModel)>, k: HashKeyModel) -> int
    decreases ps,
{
    if ps.len() == 0 {
        -1
    } else if ps[0].0 == k {
        0
    } else {
        let r = sp_hash_find(ps.subrange(1, ps.len() as int), k);
        if r < 0 {
            -1
        } else {
            r + 1
        }
    }
}

/// Writing a keyed pair into a hash: an existing key keeps its position
/// but takes the new pair (last write wins); a fresh key appends.
pub open spec fn sp_hash_put(
    ps: Seq<(HashKeyModel, ObjModel, ObjModel)>,
    k: HashKeyModel,
    key: ObjModel,
    val: ObjModel,
) -> Seq<(HashKeyModel, ObjModel, ObjModel)> {
    let j = sp_hash_find(ps, k);
    if j >= 0 {
        ps.update(j, (k, key, val))
    } else {
        ps.push((k, key, val))
    }
}

/// Folding drained stack values into hash pairs, two at a time; an
/// unhashable key aborts the build.
pub open spec fn sp_fold_hash(
    ps: Seq<(HashKeyModel, ObjModel, ObjModel)>,
    elems: Seq<ObjModel>,
    i: int,
) -> Result<Seq<(HashKeyModel, ObjModel, ObjModel)>, Seq<char>>
    decreases elems.len() - i,
{
    if i < 0 || i + 2 > elems.len() {
        Ok(ps)
    } else {
        match spec_hash_key(elems[i]) {
            None => Err(err_unusable_hash_key(elems[i])),
            Some(k) => sp_fold_hash(sp_hash_put(ps, k, elems[i], elems[i + 1]), elems, i + 2),
        }
    }
}

/// `OpHash`: remove the top `count` values as interleaved key/value
/// pairs in emission order and push the hash built from them.
pub open spec fn sp_build_hash(m: VmModel, count: int) -> Result<VmModel, (Seq<char>, VmModel)> {
    if count > m.stack.len() {
        Err((err_stack_underflow(), m))
    } else {
        let elems = m.stack.subrange(m.stack.len() - count, m.stack.len() as int);
        let m1 = VmModel { stack: m.stack.take(m.stack.len() - count), ..m };
        match sp_fold_hash(Seq::<(HashKeyModel, ObjModel, ObjModel)>::empty(), elems, 0) {
            Err(e) => Err((e, m1)),
            Ok(ps) => sp_push(m1, ObjModel::Hash(ps)),
        }
    }
}

/// Indexing with both operands already popped: arrays index by integer
/// and yield `Null` out of range; hashes look their key up and yield
/// `Null` when it is absent; nothing else can be indexed.
pub open spec fn sp_index_apply(m: VmModel, left: ObjModel, index: ObjModel) -> Result<
    VmModel,
    (Seq<char>, VmModel),
> {
    match (left, index) {
        (ObjModel::Arr(elements), ObjModel::Int(i)) => {
            if i < 0 || i >= elements.len() {
                sp_push(m, ObjModel::Null)
            } else {
                sp_push(m, elements[i])
            }
        },
        (ObjModel::Hash(ps), idx) => match spec_hash_key(idx) {
            None => Err((err_unusable_hash_key(idx), m)),
            Some(k) => {
                let j = sp_hash_find(ps, k);
                if j >= 0 {
                    sp_push(m, ps[j].2)
                } else {
                    sp_push(m, ObjModel::Null)
                }
            },
        },
        (l, _) => Err((err_index_unsupported(l), m)),
    }
}

/// `OpIndex`: pop the index, pop the collection, and push the element.
pub open spec fn sp_index_op(m: VmModel) -> Result<VmModel, (Seq<char>, VmModel)> {
    if m.stack.len() < 2 {
        Err((err_stack_underflow(), m))
    } else {
        let (m1, index) = sp_pop(m);
        let (m2, left) = sp_pop(m1);
        sp_index_apply(m2, left, index)
    }
}

/// `OpCall`: the callee sits under its arguments; a frame is pushed whose
/// locals begin at the callee's first argument, the slots for its
/// remaining locals are reserved (as `Null`), and the caller resumes past
/// the operand.
pub open spec fn sp_call(m: VmModel) -> Result<VmModel, (Seq<char>, VmModel)> {
    let f = sp_cur(m);
    if f.ip + 2 > f.code.len() {
        Err((err_truncated(), m))
    } else {
        let argc = f.code[f.ip + 1] as int;
        if m.stack.len() < argc + 1 {
            Err((err_stack_underflow(), m))
        } else {
            match m.stack[m.stack.len() - 1 - argc] {
                ObjModel::Func(code, locals) => {
                    let base = m.stack.len() - argc;
                    if base + locals > STACK_SIZE {
                        Err((err_stack_overflow(), m))
                    } else {
                        let m1 = sp_with_ip(m, f.ip + 2);
                        let new_stack = if locals >= argc {
                            m1.stack + Seq::new((locals - argc) as nat, |i: int| ObjModel::Null)
                        } else {
                            m1.stack.take(base + locals)
                        };
                        Ok(
                            VmModel {
                                stack: new_stack,
                                frames: m1.frames + seq![
                                    FrameModel { code: code, locals: locals as int, ip: 0, base: base },
                                ],
                                ..m1
                            },
                        )
                    }
                },
                _ => Err((err_calling_non_function(), m)),
            }
        }
    }
}

/// Returning a value: pop it, drop the frame, cut the stack back below
/// the callee (function object and locals included), and push the value.
pub open spec fn sp_return_value(m: VmModel) -> Result<VmModel, (Seq<char>, VmModel)> {
    if m.stack.len() < 1 {
        Err((err_stack_underflow(), m))
    } else {
        let (m1, rv) = sp_pop(m);
        if m1.frames.len() < 2 {
            Err((err_frame_underflow(), m1))
        } else {
            let f = m1.frames.last();
            let m2 = VmModel { frames: m1.frames.drop_last(), ..m1 };
            if f.base < 1 {
                Err((err_frame_underflow(), m2))
            } else {
                let cut = if f.base - 1 <= m2.stack.len() {
                    f.base - 1
                } else {
                    m2.stack.len() as int
                };
                sp_push(VmModel { stack: m2.stack.take(cut), ..m2 }, rv)
            }
        }
    }
}

/// Returning without a value: as `sp_return_value` with a synthesized
/// `Null`, and nothing popped.
pub open spec fn sp_return_null(m: VmModel) -> Result<VmModel, (Seq<char>, VmModel)> {
    if m.frames.len() < 2 {
        Err((err_frame_underflow(), m))
    } else {
        let f = m.frames.last();
        let m2 = VmModel { frames: m.frames.drop_last(), ..m };
        if f.base < 1 {
            Err((err_frame_underflow(), m2))
        } else {
            let cut = if f.base - 1 <= m2.stack.len() {
                f.base - 1
            } else {
                m2.stack.len() as int
            };
            sp_push(VmModel { stack: m2.stack.take(cut), ..m2 }, ObjModel::Null)
        }
    }
}

/// Turns an operation's outcome into a step result.
pub open spec fn sp_step_of(r: Result<VmModel, (Seq<char>, VmModel)>) -> StepResult {
    match r {
        Ok(m) => StepResult::Stepped(m),
        Err((e, m)) => StepResult::Failed(e, m),
    }
}

/// Like `sp_step_of`, but the current frame advances `w` bytes on
/// success (the opcode byte and its operands).
pub open spec fn sp_step_advancing(r: Result<VmModel, (Seq<char>, VmModel)>, ip: int) -> StepResult {
    match r {
        Ok(m) => StepResult::Stepped(sp_with_ip(m, ip)),
        Err((e, m)) => StepResult::Failed(e, m),
    }
}

/// One step of the machine: what executing the instruction under the
/// current frame's instruction pointer does. The machine halts when the
/// current frame has run out of code.
pub open spec fn sp_step(m: VmModel) -> StepResult {
    if m.frames.len() < 1 {
        StepResult::Failed(err_frame_underflow(), m)
    } else {
        let f = sp_cur(m);
        let ip = f.ip;
        if ip < 0 || ip >= f.code.len() {
            StepResult::Halted
        } else {
            match op_of_byte(f.code[ip]) {
                None => StepResult::Failed(err_unknown_opcode(), m),
                Some(op) => match op {
                    Opcode::OpConstant => {
                        if ip + 3 > f.code.len() {
                            StepResult::Failed(err_truncated(), m)
                        } else {
                            let idx = sp_u16(f.code, ip + 1);
                            let m1 = sp_with_ip(m, ip + 3);
                            if idx >= m.constants.len() {
                                StepResult::Failed(err_no_such_constant(), m1)
                            } else {
                                sp_step_of(sp_push(m1, m.constants[idx]))
                            }
                        }
                    },
                    Opcode::OpAdd => sp_step_advancing(sp_binary(m, op), ip + 1),
                    Opcode::OpSub => sp_step_advancing(sp_binary(m, op), ip + 1),
                    Opcode::OpMul => sp_step_advancing(sp_binary(m, op), ip + 1),
                    Opcode::OpDiv => sp_step_advancing(sp_binary(m, op), ip + 1),
                    Opcode::OpPop => {
                        if m.stack.len() < 1 {
                            StepResult::Failed(err_stack_underflow(), m)
                        } else {
                            let (m1, _) = sp_pop(m);
                            StepResult::Stepped(sp_with_ip(m1, ip + 1))
                        }
                    },
                    Opcode::OpTrue => sp_step_advancing(sp_push(m, ObjModel::Bool(true)), ip + 1),
                    Opcode::OpFalse => sp_step_advancing(
                        sp_push(m, ObjModel::Bool(false)),
                        ip + 1,
                    ),
                    Opcode::OpEqual => sp_step_advancing(sp_comparison(m, op), ip + 1),
                    Opcode::OpNotEqual => sp_step_advancing(sp_comparison(m, op), ip + 1),
                    Opcode::OpGreaterThan => sp_step_advancing(sp_comparison(m, op), ip + 1),
                    Opcode::OpMinus => sp_step_advancing(sp_minus(m), ip + 1),
                    Opcode::OpBang => sp_step_advancing(sp_bang(m), ip + 1),
                    Opcode::OpJumpNotTruthy => {
                        if ip + 3 > f.code.len() {
                            StepResult::Failed(err_truncated(), m)
                        } else {
                            let pos = sp_u16(f.code, ip + 1);
                            let m1 = sp_with_ip(m, ip + 3);
                            if m1.stack.len() < 1 {
                                StepResult::Failed(err_stack_underflow(), m1)
                            } else {
                                let (m2, cond) = sp_pop(m1);
                                if !truthy(cond) {
                                    StepResult::Stepped(sp_with_ip(m2, pos))
                                } else {
                                    StepResult::Stepped(m2)
                                }
                            }
                        }
                    },
                    Opcode::OpJump => {
                        if ip + 3 > f.code.len() {
                            StepResult::Failed(err_truncated(), m)
                        } else {
                            StepResult::Stepped(sp_with_ip(m, sp_u16(f.code, ip + 1)))
                        }
                    },
                    Opcode::OpNull => sp_step_advancing(sp_push(m, ObjModel::Null), ip + 1),
                    Opcode::OpGetGlobal => {
                        if ip + 3 > f.code.len() {
                            StepResult::Failed(err_truncated(), m)
                        } else {
                            let idx = sp_u16(f.code, ip + 1);
                            let m1 = sp_with_ip(m, ip + 3);
                            if idx >= m.globals.len() {
                                StepResult::Failed(err_no_such_global(), m1)
                            } else {
                                sp_step_of(sp_push(m1, m.globals[idx]))
                            }
                        }
                    },
                    Opcode::OpSetGlobal => {
                        if ip + 3 > f.code.len() {
                            StepResult::Failed(err_truncated(), m)
                        } else {
                            let idx = sp_u16(f.code, ip + 1);
                            let m1 = sp_with_ip(m, ip + 3);
                            if m1.stack.len() < 1 {
                                StepResult::Failed(err_stack_underflow(), m1)
                            } else {
                                let (m2, v) = sp_pop(m1);
                                if idx == m2.globals.len() {
                                    StepResult::Stepped(
                                        VmModel { globals: m2.globals + seq![v], ..m2 },
                                    )
                                } else if idx < m2.globals.len() {
                                    StepResult::Stepped(
                                        VmModel { globals: m2.globals.update(idx, v), ..m2 },
                                    )
                                } else {
                                    StepResult::Failed(err_no_such_global(), m2)
                                }
                            }
                        }
                    },
                    Opcode::OpArray => {
                        if ip + 3 > f.code.len() {
                            StepResult::Failed(err_truncated(), m)
                        } else {
                            let n = sp_u16(f.code, ip + 1);
                            sp_step_of(sp_build_array(sp_with_ip(m, ip + 3), n))
                        }
                    },
                    Opcode::OpHash => {
                        if ip + 3 > f.code.len() {
                            StepResult::Failed(err_truncated(), m)
                        } else {
                            let count = sp_u16(f.code, ip + 1);
                            sp_step_of(sp_build_hash(sp_with_ip(m, ip + 3), count))
                        }
                    },
                    Opcode::OpIndex => sp_step_advancing(sp_index_op(m), ip + 1),
                    Opcode::OpCall => sp_step_of(sp_call(m)),
                    Opcode::OpReturnValue => sp_step_of(sp_return_value(m)),
                    Opcode::OpReturn => sp_step_of(sp_return_null(m)),
                    Opcode::OpGetLocal => {
                        if ip + 2 > f.code.len() {
                            StepResult::Failed(err_truncated(), m)
                        } else {
                            let slot = f.base + f.code[ip + 1];
                            let m1 = sp_with_ip(m, ip + 2);
                            if slot < 0 || slot >= m1.stack.len() {
                                StepResult::Failed(err_no_such_local(), m1)
                            } else {
                                sp_step_of(sp_push(m1, m1.stack[slot]))
                            }
                        }
                    },
                    Opcode::OpSetLocal => {
                        if ip + 2 > f.code.len() {
                            StepResult::Failed(err_truncated(), m)
                        } else {
                            let slot = f.base + f.code[ip + 1];
                            let m1 = sp_with_ip(m, ip + 2);
                            if m1.stack.len() < 1 {
                                StepResult::Failed(err_stack_underflow(), m1)
                            } else {
                                let (m2, v) = sp_pop(m1);
                                if slot < 0 || slot >= m2.stack.len() {
                                    StepResult::Failed(err_no_such_local(), m2)
                                } else {
                                    StepResult::Stepped(
                                        VmModel { stack: m2.stack.update(slot, v), ..m2 },
                                    )
                                }
                            }
                        }
                    },
                },
            }
        }
    }
}

/// The state after `n` successful steps, or nothing if the machine
/// halted or failed on the way.
pub open spec fn sp_step_n(m: VmModel, n: nat) -> Option<VmModel>
    decreases n,
{
    if n == 0 {
        Some(m)
    } else {
        match sp_step(m) {
            StepResult::Stepped(m2) => sp_step_n(m2, (n - 1) as nat),
            _ => None,
        }
    }
}

/// Running the machine with the given amount of fuel: `None` if it is
/// still going, otherwise the halt state or the error and the state it
/// was raised in.
pub open spec fn sp_run(m: VmModel, fuel: nat) -> Option<
    Result<VmModel, (Seq<char>, VmModel)>,
>
    decreases fuel,
{
    if fuel == 0 {
        None
    } else {
        match sp_step(m) {
            StepResult::Halted => Some(Ok(m)),
            StepResult::Failed(e, m2) => Some(Err((e, m2))),
            StepResult::Stepped(m2) => sp_run(m2, (fuel - 1) as nat),
        }
    }
}

proof fn lemma_step_n_snoc(m0: VmModel, n: nat, m: VmModel, m2: VmModel)
    requires
        sp_step_n(m0, n) == Some(m),
        sp_step(m) == StepResult::Stepped(m2),
    ensures
        sp_step_n(m0, n + 1) == Some(m2),
    decreases n,
{
    reveal_with_fuel(sp_step_n, 3);
    if n == 0 {
    } else {
        match sp_step(m0) {
            StepResult::Stepped(mm) => {
                lemma_step_n_snoc(mm, (n - 1) as nat, m, m2);
            },
            _ => {
                assert(false);
            },
        }
    }
}

proof fn lemma_run_of_steps(m0: VmModel, n: nat, m: VmModel)
    requires
        sp_step_n(m0, n) == Some(m),
    ensures
        sp_step(m) is Halted ==> sp_run(m0, n + 1) == Some(Ok::<VmModel, (Seq<char>, VmModel)>(m)),
        forall|e: Seq<char>, mf: VmModel|
            sp_step(m) == StepResult::Failed(e, mf) ==> sp_run(m0, n + 1) == Some(Err::<
                VmModel,
                (Seq<char>, VmModel),
            >((e, mf))),
    decreases n,
{
    reveal_with_fuel(sp_step_n, 3);
    reveal_with_fuel(sp_run, 3);
    if n == 0 {
    } else {
        match sp_step(m0) {
            StepResult::Stepped(mm) => {
                lemma_run_of_steps(mm, (n - 1) as nat, m);
            },
            _ => {
                assert(false);
            },
        }
    }
}


proof fn lemma_hash_find_char(ps: Seq<(HashKeyModel, ObjModel, ObjModel)>, k: HashKeyModel)
    ensures
        ({
            let j = sp_hash_find(ps, k);
            (j == -1 && forall|i: int| 0 <= i < ps.len() ==> (#[trigger] ps[i]).0 != k) || (0 <= j
                < ps.len() && ps[j].0 == k && forall|i: int| 0 <= i < j ==> (#[trigger] ps[i]).0
                != k)
        }),
    decreases ps,
{
    if ps.len() > 0 && ps[0].0 != k {
        let sub = ps.subrange(1, ps.len() as int);
        lemma_hash_find_char(sub, k);
        let fsub = sp_hash_find(sub, k);
        if fsub == -1 {
            assert forall|i: int| 0 <= i < ps.len() implies (#[trigger] ps[i]).0 != k by {
                if i > 0 {
                    assert(sub[i - 1] == ps[i]);
                }
            }
        } else {
            assert(sub[fsub] == ps[fsub + 1]);
            assert forall|i: int| 0 <= i < fsub + 1 implies (#[trigger] ps[i]).0 != k by {
                if i > 0 {
                    assert(sub[i - 1] == ps[i]);
                }
            }
        }
    }
}

/// The first entry with the given key, if any.
fn find_pair(pairs: &Vec<(HashKey, HashPair)>, key: &HashKey) -> (r: Option<usize>)
    ensures
        match r {
            Some(j) => sp_hash_find(pairs_model(pairs@), key@) == j as int && j < pairs@.len(),
            None => sp_hash_find(pairs_model(pairs@), key@) == -1,
        },
{
    proof {
        lemma_hash_find_char(pairs_model(pairs@), key@);
    }
    let n = pairs.len();
    let mut j: usize = 0;
    while j < n
        invariant
            n == pairs@.len(),
            j <= n,
            forall|i: int| 0 <= i < j ==> (#[trigger] pairs_model(pairs@)[i]).0 != key@,
        decreases n - j,
    {
        if pairs[j].0.equals(key) {
            proof {
                lemma_hash_find_char(pairs_model(pairs@), key@);
                let ps = pairs_model(pairs@);
                let f = sp_hash_find(ps, key@);
                assert(ps[j as int].0 == key@);
                if f == -1 {
                    assert(ps[j as int].0 != key@);
                }
                if 0 <= f < j {
                    assert(ps[f].0 != key@);
                }
                if f > j {
                    assert(ps[j as int].0 != key@);
                }
            }
            return Some(j);
        }
        j = j + 1;
    }
    proof {
        lemma_hash_find_char(pairs_model(pairs@), key@);
    }
    None
}

impl VM {
    /// A machine over freshly compiled bytecode and an externally owned
    /// globals table, so that successive runs can share the globals. The
    /// main function's instructions become the bottom frame.
    pub fn new_with_globals_store(bytecode: ByteCode, s: Vec<Object>) -> (r: VM)
        ensures
            r.wf(),
            r@ == (VmModel {
                constants: objs_model(bytecode.constants@),
                stack: Seq::<ObjModel>::empty(),
                last_popped: None,
                globals: objs_model(s@),
                frames: seq![
                    FrameModel { code: bytecode.instructions@, locals: 0, ip: 0, base: 0 },
                ],
            }),
    {
        let main_fn = CompiledFunction { instructions: bytecode.instructions, num_locals: 0 };
        let main_frame = new_frame(main_fn, 0);
        let mut frames: Vec<Frame> = Vec::with_capacity(MAX_FRAMES);
        frames.push(main_frame);
        let r = VM {
            constants: bytecode.constants,
            stack: Vec::with_capacity(STACK_SIZE),
            sp: 0,
            last_popped_stack_elem: None,
            globals: s,
            frames,
            frame_index: 1,
        };
        proof {
            assert(r@.stack =~= Seq::<ObjModel>::empty());
            assert(r@.frames =~= seq![
                FrameModel { code: bytecode.instructions@, locals: 0, ip: 0, base: 0 },
            ]);
            assert(r@ =~~= (VmModel {
                constants: objs_model(bytecode.constants@),
                stack: Seq::<ObjModel>::empty(),
                last_popped: None,
                globals: objs_model(s@),
                frames: seq![
                    FrameModel { code: bytecode.instructions@, locals: 0, ip: 0, base: 0 },
                ],
            }));
        }
        r
    }

    /// The value most recently popped from the operand stack: the result
    /// a finished program leaves behind.
    pub fn last_popped_stack_elem(&self) -> (r: &Option<Object>)
        ensures
            opt_obj_model(*r) == self@.last_popped,
    {
        &self.last_popped_stack_elem
    }

    /// The value on top of the operand stack, if any.
    pub fn stack_top(&self) -> (r: Option<&Object>)
        requires
            self.wf(),
        ensures
            match r {
                Some(o) => self@.stack.len() > 0 && o@ == self@.stack.last(),
                None => self@.stack.len() == 0,
            },
    {
        if self.sp > 0 {
            Some(&self.stack[self.sp - 1])
        } else {
            None
        }
    }

    /// Consumes the machine and hands the globals table back for reuse.
    pub fn into_globals(self) -> (r: Vec<Object>)
        ensures
            objs_model(r@) == self@.globals,
    {
        self.globals
    }

    /// The currently executing frame.
    fn current_frame(&self) -> (r: &Frame)
        requires
            self.wf(),
        ensures
            r@ == sp_cur(self@),
    {
        &self.frames[self.frame_index - 1]
    }

    /// Moves the current frame's instruction pointer.
    fn set_ip(&mut self, ip: usize)
        requires
            old(self).wf(),
        ensures
            final(self).wf(),
            final(self)@ == sp_with_ip(old(self)@, ip as int),
    {
        let mut frame = self.frames.pop().unwrap();
        frame.ip = ip;
        self.frames.push(frame);
        proof {
            assert(final(self)@.frames =~~= sp_with_ip(old(self)@, ip as int).frames);
            assert(final(self)@ =~~= sp_with_ip(old(self)@, ip as int));
        }
    }

    /// Pushes an activation onto the frame stack.
    fn push_frame(&mut self, frame: Frame)
        requires
            old(self).wf(),
        ensures
            final(self).wf(),
            final(self)@ == (VmModel { frames: old(self)@.frames + seq![frame@], ..old(self)@ }),
    {
        self.frames.push(frame);
        let n = self.frames.len();
        self.frame_index = n;
        proof {
            assert(final(self)@.frames =~~= old(self)@.frames + seq![frame@]);
            assert(final(self)@ =~~= (VmModel {
                frames: old(self)@.frames + seq![frame@],
                ..old(self)@
            }));
        }
    }

    /// Pops the top activation off the frame stack.
    fn pop_frame(&mut self) -> (r: Frame)
        requires
            old(self).wf(),
            old(self)@.frames.len() >= 2,
        ensures
            final(self).wf(),
            r@ == old(self)@.frames.last(),
            final(self)@ == (VmModel { frames: old(self)@.frames.drop_last(), ..old(self)@ }),
    {
        self.frame_index = self.frame_index - 1;
        let r = self.frames.pop().unwrap();
        proof {
            assert(final(self)@.frames =~~= old(self)@.frames.drop_last());
            assert(final(self)@ =~~= (VmModel {
                frames: old(self)@.frames.drop_last(),
                ..old(self)@
            }));
        }
        r
    }

    /// Pushes a value; a full stack is refused with `stack overflow`.
    fn push(&mut self, o: Object) -> (r: Result<(), String>)
        requires
            old(self).wf(),
        ensures
            final(self).wf(),
            match r {
                Ok(_) => sp_push(old(self)@, o@) == Ok::<VmModel, (Seq<char>, VmModel)>(
                    final(self)@,
                ),
                Err(e) => sp_push(old(self)@, o@) == Err::<VmModel, (Seq<char>, VmModel)>(
                    (e@, final(self)@),
                ),
            },
    {
        if self.sp >= STACK_SIZE {
            return Err(String::from_str("stack overflow"));
        }
        self.stack.push(o);
        self.sp = self.sp + 1;
        proof {
            assert(final(self)@.stack =~= old(self)@.stack + seq![o@]);
            assert(final(self)@ =~~= sp_push(old(self)@, o@)->Ok_0);
        }
        Ok(())
    }

    /// Pops the top value and records it as the most recently popped.
    fn pop(&mut self) -> (r: Object)
        requires
            old(self).wf(),
            old(self)@.stack.len() > 0,
        ensures
            final(self).wf(),
            r@ == sp_pop(old(self)@).1,
            final(self)@ == sp_pop(old(self)@).0,
    {
        let o = self.stack.pop().unwrap();
        self.sp = self.sp - 1;
        self.last_popped_stack_elem = Some(o.clone());
        proof {
            assert(old(self)@.stack.last() == o@);
            assert(final(self)@.stack =~= old(self)@.stack.drop_last());
            assert(final(self)@ =~~= sp_pop(old(self)@).0);
        }
        o
    }

    /// Applies an integer arithmetic opcode to two popped operands and
    /// pushes the result.
    fn execute_binary_integer_operation(
        &mut self,
        op: Opcode,
        left_value: i64,
        right_value: i64,
    ) -> (r: Result<(), String>)
        requires
            old(self).wf(),
            op == Opcode::OpAdd || op == Opcode::OpSub || op == Opcode::OpMul || op
                == Opcode::OpDiv,
        ensures
            final(self).wf(),
            match r {
                Ok(_) => sp_binary_ints(old(self)@, op, left_value as int, right_value as int)
                    == Ok::<VmModel, (Seq<char>, VmModel)>(final(self)@),
                Err(e) => sp_binary_ints(old(self)@, op, left_value as int, right_value as int)
                    == Err::<VmModel, (Seq<char>, VmModel)>((e@, final(self)@)),
            },
    {
        if op == Opcode::OpDiv && right_value == 0 {
            return Err(String::from_str("division by zero"));
        }
        let result = if op == Opcode::OpAdd {
            left_value.checked_add(right_value)
        } else if op == Opcode::OpSub {
            left_value.checked_sub(right_value)
        } else if op == Opcode::OpMul {
            left_value.checked_mul(right_value)
        } else {
            left_value.checked_div(right_value)
        };
        match result {
            None => Err(String::from_str("integer overflow")),
            Some(v) => {
                proof {
                    assert(v as int == sp_int_arith(
                        op,
                        left_value as int,
                        right_value as int,
                    )->Ok_0);
                }
                self.push(Object::Integer(v))
            },
        }
    }

    /// Applies a binary opcode to two popped strings: only `OpAdd`
    /// concatenates.
    fn execute_binary_string_operation(
        &mut self,
        op: Opcode,
        left_value: &String,
        right_value: &String,
    ) -> (r: Result<(), String>)
        requires
            old(self).wf(),
        ensures
            final(self).wf(),
            match r {
                Ok(_) => sp_binary_strs(old(self)@, op, left_value@, right_value@) == Ok::<
                    VmModel,
                    (Seq<char>, VmModel),
                >(final(self)@),
                Err(e) => sp_binary_strs(old(self)@, op, left_value@, right_value@) == Err::<
                    VmModel,
                    (Seq<char>, VmModel),
                >((e@, final(self)@)),
            },
    {
        if !(op == Opcode::OpAdd) {
            let def = crate::code::lookup(&op);
            return Err(String::from_str("unknown string operator: ").concat(def.name.as_str()));
        }
        self.push(Object::Str(left_value.clone().concat(right_value.as_str())))
    }

    /// Pops the two operands of a binary arithmetic opcode and applies
    /// it.
    fn execute_binary_operation(&mut self, op: Opcode) -> (r: Result<(), String>)
        requires
            old(self).wf(),
            op == Opcode::OpAdd || op == Opcode::OpSub || op == Opcode::OpMul || op
                == Opcode::OpDiv,
        ensures
            final(self).wf(),
            match r {
                Ok(_) => sp_binary(old(self)@, op) == Ok::<VmModel, (Seq<char>, VmModel)>(
                    final(self)@,
                ),
                Err(e) => sp_binary(old(self)@, op) == Err::<VmModel, (Seq<char>, VmModel)>(
                    (e@, final(self)@),
                ),
            },
    {
        if self.sp < 2 {
            return Err(String::from_str("stack underflow"));
        }
        let right = self.pop();
        let left = self.pop();
        match (&left, &right) {
            (Object::Integer(left_value), Object::Integer(right_value)) => {
                self.execute_binary_integer_operation(op, *left_value, *right_value)
            },
            (Object::Str(left_value), Object::Str(right_value)) => {
                self.execute_binary_string_operation(op, left_value, right_value)
            },
            _ => {
                Err(
                    String::from_str("unsupported object: right: ").concat(
                        right.kind_name().as_str(),
                    ).concat(", left: ").concat(left.kind_name().as_str()),
                )
            },
        }
    }

    /// Pushes the comparison of two popped integers.
    fn execute_integer_comparison(&mut self, op: Opcode, left_value: i64, right_value: i64) -> (r:
        Result<(), String>)
        requires
            old(self).wf(),
            op == Opcode::OpEqual || op == Opcode::OpNotEqual || op == Opcode::OpGreaterThan,
        ensures
            final(self).wf(),
            match r {
                Ok(_) => sp_compare_ints(old(self)@, op, left_value as int, right_value as int)
                    == Ok::<VmModel, (Seq<char>, VmModel)>(final(self)@),
                Err(e) => sp_compare_ints(old(self)@, op, left_value as int, right_value as int)
                    == Err::<VmModel, (Seq<char>, VmModel)>((e@, final(self)@)),
            },
    {
        let c = if op == Opcode::OpEqual {
            left_value == right_value
        } else if op == Opcode::OpNotEqual {
            left_value != right_value
        } else {
            left_value > right_value
        };
        self.push(Self::native_bool_to_boolean_object(c))
    }

    /// Pops the two operands of a comparison opcode and applies it.
    fn execute_comparison(&mut self, op: Opcode) -> (r: Result<(), String>)
        requires
            old(self).wf(),
            op == Opcode::OpEqual || op == Opcode::OpNotEqual || op == Opcode::OpGreaterThan,
        ensures
            final(self).wf(),
            match r {
                Ok(_) => sp_comparison(old(self)@, op) == Ok::<VmModel, (Seq<char>, VmModel)>(
                    final(self)@,
                ),
                Err(e) => sp_comparison(old(self)@, op) == Err::<VmModel, (Seq<char>, VmModel)>(
                    (e@, final(self)@),
                ),
            },
    {
        if self.sp < 2 {
            return Err(String::from_str("stack underflow"));
        }
        let right = self.pop();
        let left = self.pop();
        match (&left, &right) {
            (Object::Integer(left_value), Object::Integer(right_value)) => {
                self.execute_integer_comparison(op, *left_value, *right_value)
            },
            _ => {
                if op == Opcode::OpEqual {
                    let c = right.same_primitive(&left);
                    self.push(Self::native_bool_to_boolean_object(c))
                } else if op == Opcode::OpNotEqual {
                    let c = right.same_primitive(&left);
                    self.push(Self::native_bool_to_boolean_object(!c))
                } else {
                    let def = crate::code::lookup(&op);
                    Err(
                        String::from_str("unknown operator: ").concat(def.name.as_str()).concat(
                            " ",
                        ).concat(right.kind_name().as_str()).concat(" ").concat(
                            left.kind_name().as_str(),
                        ),
                    )
                }
            },
        }
    }

    /// Pops a value and pushes the negation of its truthiness.
    fn execute_bang_operator(&mut self) -> (r: Result<(), String>)
        requires
            old(self).wf(),
        ensures
            final(self).wf(),
            match r {
                Ok(_) => sp_bang(old(self)@) == Ok::<VmModel, (Seq<char>, VmModel)>(final(self)@),
                Err(e) => sp_bang(old(self)@) == Err::<VmModel, (Seq<char>, VmModel)>(
                    (e@, final(self)@),
                ),
            },
    {
        if self.sp < 1 {
            return Err(String::from_str("stack underflow"));
        }
        let operand = self.pop();
        let t = Self::is_truthy(operand);
        self.push(Self::native_bool_to_boolean_object(!t))
    }

    /// Pops an integer and pushes its negation.
    fn execute_minus_operator(&mut self) -> (r: Result<(), String>)
        requires
            old(self).wf(),
        ensures
            final(self).wf(),
            match r {
                Ok(_) => sp_minus(old(self)@) == Ok::<VmModel, (Seq<char>, VmModel)>(final(self)@),
                Err(e) => sp_minus(old(self)@) == Err::<VmModel, (Seq<char>, VmModel)>(
                    (e@, final(self)@),
                ),
            },
    {
        if self.sp < 1 {
            return Err(String::from_str("stack underflow"));
        }
        let operand = self.pop();
        match &operand {
            Object::Integer(integer) => {
                if *integer == i64::MIN {
                    return Err(String::from_str("integer overflow"));
                }
                self.push(Object::Integer(-*integer))
            },
            _ => {
                Err(
                    String::from_str("unsupported type for negation: ").concat(
                        operand.kind_name().as_str(),
                    ),
                )
            },
        }
    }

    /// The canonical boolean value for a native boolean.
    fn native_bool_to_boolean_object(input: bool) -> (r: Object)
        ensures
            r@ == ObjModel::Bool(input),
    {
        if input {
            Object::Boolean(true)
        } else {
            Object::Boolean(false)
        }
    }

    /// Whether a value counts as true in a condition.
    fn is_truthy(obj: Object) -> (r: bool)
        ensures
            r == truthy(obj@),
    {
        match obj {
            Object::Boolean(boolean) => boolean,
            Object::Null => false,
            _ => true,
        }
    }

    /// Removes `stack[start_index..end_index]` (the whole top of the
    /// stack) and builds an array of it, lowest element first.
    fn build_array(&mut self, start_index: usize, end_index: usize) -> (r: Object)
        requires
            old(self).wf(),
            start_index <= end_index,
            end_index == old(self)@.stack.len(),
        ensures
            final(self).wf(),
            r@ == ObjModel::Arr(
                old(self)@.stack.subrange(start_index as int, end_index as int),
            ),
            final(self)@ == (VmModel {
                stack: old(self)@.stack.take(start_index as int),
                ..old(self)@
            }),
    {
        let elements = self.stack.split_off(start_index);
        self.sp = start_index;
        proof {
            assert(objs_model(elements@) =~= old(self)@.stack.subrange(
                start_index as int,
                end_index as int,
            ));
            assert(final(self)@.stack =~= old(self)@.stack.take(start_index as int));
            assert(final(self)@ =~~= (VmModel {
                stack: old(self)@.stack.take(start_index as int),
                ..old(self)@
            }));
        }
        Object::Array(Array { elements })
    }

    /// Removes `stack[start_index..end_index]` as interleaved key/value
    /// pairs and builds a hash of them; a later pair for the same key
    /// replaces the earlier one.
    fn build_hash(&mut self, start_index: usize, end_index: usize) -> (r: Result<Object, String>)
        requires
            old(self).wf(),
            start_index <= end_index,
            end_index == old(self)@.stack.len(),
        ensures
            final(self).wf(),
            final(self)@ == (VmModel {
                stack: old(self)@.stack.take(start_index as int),
                ..old(self)@
            }),
            ({
                let elems = old(self)@.stack.subrange(start_index as int, end_index as int);
                let folded = sp_fold_hash(
                    Seq::<(HashKeyModel, ObjModel, ObjModel)>::empty(),
                    elems,
                    0,
                );
                match r {
                    Ok(obj) => folded is Ok && obj@ == ObjModel::Hash(folded->Ok_0),
                    Err(e) => folded == Err::<Seq<(HashKeyModel, ObjModel, ObjModel)>, Seq<char>>(
                        e@,
                    ),
                }
            }),
    {
        let elements = self.stack.split_off(start_index);
        self.sp = start_index;
        let ghost elems = objs_model(elements@);
        proof {
            assert(elems =~= old(self)@.stack.subrange(start_index as int, end_index as int));
            assert(final(self)@.stack =~= old(self)@.stack.take(start_index as int));
            assert(final(self)@ =~~= (VmModel {
                stack: old(self)@.stack.take(start_index as int),
                ..old(self)@
            }));
        }
        let mut pairs: Vec<(HashKey, HashPair)> = Vec::new();
        let n = elements.len();
        let mut i: usize = 0;
        while n - i > 1
            invariant
                n == elements@.len(),
                elems == objs_model(elements@),
                elems == old(self)@.stack.subrange(start_index as int, end_index as int),
                i <= n,
                self.wf(),
                self@ == (VmModel {
                    stack: old(self)@.stack.take(start_index as int),
                    ..old(self)@
                }),
                sp_fold_hash(Seq::<(HashKeyModel, ObjModel, ObjModel)>::empty(), elems, 0)
                    == sp_fold_hash(pairs_model(pairs@), elems, i as int),
            decreases n - i,
        {
            let ghost pre_pairs = pairs_model(pairs@);
            let hash_key = match hash_key_of(&elements[i]) {
                Ok(k) => k,
                Err(e) => {
                    proof {
                        assert(sp_fold_hash(pre_pairs, elems, i as int) == Err::<
                            Seq<(HashKeyModel, ObjModel, ObjModel)>,
                            Seq<char>,
                        >(e@));
                    }
                    return Err(e);
                },
            };
            let pair = HashPair { key: elements[i].clone(), value: elements[i + 1].clone() };
            match find_pair(&pairs, &hash_key) {
                Some(j) => {
                    pairs[j] = (hash_key, pair);
                    proof {
                        assert(pairs_model(pairs@) =~= pre_pairs.update(
                            sp_hash_find(pre_pairs, pairs@[j as int].0@),
                            (pairs@[j as int].0@, obj_model(elements@[i as int]), obj_model(
                                elements@[i + 1],
                            )),
                        ));
                        assert(pairs_model(pairs@) =~= sp_hash_put(
                            pre_pairs,
                            spec_hash_key(elems[i as int])->Some_0,
                            elems[i as int],
                            elems[i + 1],
                        ));
                    }
                },
                None => {
                    pairs.push((hash_key, pair));
                    proof {
                        assert(pairs_model(pairs@) =~= sp_hash_put(
                            pre_pairs,
                            spec_hash_key(elems[i as int])->Some_0,
                            elems[i as int],
                            elems[i + 1],
                        ));
                    }
                },
            }
            i = i + 2;
        }
        Ok(Object::Hash(crate::object::Hash { pairs }))
    }

    /// Indexes a popped array with a popped integer; out of range yields
    /// `Null`.
    fn execute_array_index(&mut self, array: Array, index: i64) -> (r: Result<(), String>)
        requires
            old(self).wf(),
        ensures
            final(self).wf(),
            match r {
                Ok(_) => sp_index_apply(old(self)@, obj_model(Object::Array(array)), ObjModel::Int(
                    index as int,
                )) == Ok::<VmModel, (Seq<char>, VmModel)>(final(self)@),
                Err(e) => sp_index_apply(
                    old(self)@,
                    obj_model(Object::Array(array)),
                    ObjModel::Int(index as int),
                ) == Err::<VmModel, (Seq<char>, VmModel)>((e@, final(self)@)),
            },
    {
        let ghost lv = obj_model(Object::Array(array));
        proof {
            assert(lv == ObjModel::Arr(objs_model(array.elements@)));
        }
        if index < 0 {
            let r = self.push(Object::Null);
            proof {
                assert(sp_index_apply(old(self)@, lv, ObjModel::Int(index as int)) == sp_push(
                    old(self)@,
                    ObjModel::Null,
                ));
            }
            return r;
        }
        let len = array.elements.len();
        if index as u64 >= len as u64 {
            let r = self.push(Object::Null);
            proof {
                assert(index as int >= objs_model(array.elements@).len());
                assert(sp_index_apply(old(self)@, lv, ObjModel::Int(index as int)) == sp_push(
                    old(self)@,
                    ObjModel::Null,
                ));
            }
            return r;
        }
        let iu = index as usize;
        let element = array.elements[iu].clone();
        proof {
            assert(iu as int == index as int);
            assert(element@ == objs_model(array.elements@)[index as int]);
        }
        self.push(element)
    }

    /// Indexes a popped hash with a popped key; an absent key yields
    /// `Null`, an unhashable one is refused.
    fn execute_hash_index(&mut self, hash: crate::object::Hash, index: Object) -> (r: Result<
        (),
        String,
    >)
        requires
            old(self).wf(),
        ensures
            final(self).wf(),
            match r {
                Ok(_) => sp_index_apply(old(self)@, obj_model(Object::Hash(hash)), index@) == Ok::<
                    VmModel,
                    (Seq<char>, VmModel),
                >(final(self)@),
                Err(e) => sp_index_apply(old(self)@, obj_model(Object::Hash(hash)), index@)
                    == Err::<VmModel, (Seq<char>, VmModel)>((e@, final(self)@)),
            },
    {
        let key = match hash_key_of(&index) {
            Ok(k) => k,
            Err(e) => {
                return Err(e);
            },
        };
        match find_pair(&hash.pairs, &key) {
            Some(j) => {
                let value = hash.pairs[j].1.value.clone();
                self.push(value)
            },
            None => self.push(Object::Null),
        }
    }


    /// Executes the loaded bytecode until the main frame runs out of
    /// instructions or a runtime error aborts the run: the outcome (and
    /// the machine state it leaves behind) is exactly what iterating
    /// [`sp_step`] from the starting state yields.
    #[verifier::rlimit(100)]
    pub fn run(&mut self) -> (r: Result<(), String>)
        requires
            old(self).wf(),
        ensures
            final(self).wf(),
            match r {
                Ok(_) => exists|fuel: nat|
                    sp_run(old(self)@, fuel) == Some(
                        Ok::<VmModel, (Seq<char>, VmModel)>(final(self)@),
                    ),
                Err(e) => (exists|fuel: nat|
                    sp_run(old(self)@, fuel) == Some(
                        Err::<VmModel, (Seq<char>, VmModel)>((e@, final(self)@)),
                    )) || (e@ == err_budget_exhausted() && sp_step_n(old(self)@, u64::MAX as nat)
                    == Some(final(self)@)),
            },
    {
        let ghost m0 = old(self)@;
        let ghost mut steps: nat = 0;
        let mut budget: u64 = u64::MAX;
        loop
            invariant
                m0 == old(self)@,
                self.wf(),
                sp_step_n(m0, steps) == Some(self@),
                steps + budget == u64::MAX,
            decreases budget,
        {
            let ghost pre = self@;
            let fi = self.frame_index - 1;
            let ip = self.frames[fi].ip;
            let ins_len = self.frames[fi].func.instructions.0.len();
            proof {
                assert(sp_cur(pre) == self.frames@[fi as int]@);
            }
            if ip >= ins_len {
                proof {
                    assert(sp_step(self@) == StepResult::Halted);
                    lemma_run_of_steps(m0, steps, self@);
                    assert(sp_run(m0, steps + 1) == Some(
                        Ok::<VmModel, (Seq<char>, VmModel)>(self@),
                    ));
                }
                return Ok(());
            }
            if budget == 0 {
                return Err(String::from_str("step budget exhausted"));
            }
            budget = budget - 1;
            let byte = self.frames[fi].func.instructions.0[ip];
            let op = match Opcode::from_byte(byte) {
                Some(op) => op,
                None => {
                    let e = String::from_str("unknown opcode");
                    proof {
                        assert(sp_step(pre) == StepResult::Failed(e@, self@));
                        lemma_run_of_steps(m0, steps, pre);
                    }
                    return Err(e);
                },
            };
            match op {
                Opcode::OpConstant => {
                    if ins_len - ip < 3 {
                        let e = String::from_str("truncated instruction");
                        proof {
                            assert(sp_step(pre) == StepResult::Failed(e@, self@));
                            lemma_run_of_steps(m0, steps, pre);
                        }
                        return Err(e);
                    }
                    let const_index = read_uint16(
                        &self.frames[fi].func.instructions,
                        ip + 1,
                    ) as usize;
                    self.set_ip(ip + 3);
                    if const_index >= self.constants.len() {
                        let e = String::from_str("no such constant");
                        proof {
                            assert(sp_step(pre) == StepResult::Failed(e@, self@));
                            lemma_run_of_steps(m0, steps, pre);
                        }
                        return Err(e);
                    }
                    let constant = self.constants[const_index].clone();
                    match self.push(constant) {
                        Ok(_) => {},
                        Err(e) => {
                            proof {
                                assert(sp_step(pre) == StepResult::Failed(e@, self@));
                                lemma_run_of_steps(m0, steps, pre);
                            }
                            return Err(e);
                        },
                    }
                },
                Opcode::OpAdd | Opcode::OpSub | Opcode::OpMul | Opcode::OpDiv => {
                    match self.execute_binary_operation(op) {
                        Ok(_) => {},
                        Err(e) => {
                            proof {
                                assert(sp_step(pre) == StepResult::Failed(e@, self@));
                                lemma_run_of_steps(m0, steps, pre);
                            }
                            return Err(e);
                        },
                    }
                    self.set_ip(ip + 1);
                },
                Opcode::OpPop => {
                    if self.sp < 1 {
                        let e = String::from_str("stack underflow");
                        proof {
                            assert(sp_step(pre) == StepResult::Failed(e@, self@));
                            lemma_run_of_steps(m0, steps, pre);
                        }
                        return Err(e);
                    }
                    let _ = self.pop();
                    self.set_ip(ip + 1);
                },
                Opcode::OpTrue => {
                    match self.push(Object::Boolean(true)) {
                        Ok(_) => {},
                        Err(e) => {
                            proof {
                                assert(sp_step(pre) == StepResult::Failed(e@, self@));
                                lemma_run_of_steps(m0, steps, pre);
                            }
                            return Err(e);
                        },
                    }
                    self.set_ip(ip + 1);
                },
                Opcode::OpFalse => {
                    match self.push(Object::Boolean(false)) {
                        Ok(_) => {},
                        Err(e) => {
                            proof {
                                assert(sp_step(pre) == StepResult::Failed(e@, self@));
                                lemma_run_of_steps(m0, steps, pre);
                            }
                            return Err(e);
                        },
                    }
                    self.set_ip(ip + 1);
                },
                Opcode::OpEqual | Opcode::OpNotEqual | Opcode::OpGreaterThan => {
                    match self.execute_comparison(op) {
                        Ok(_) => {},
                        Err(e) => {
                            proof {
                                assert(sp_step(pre) == StepResult::Failed(e@, self@));
                                lemma_run_of_steps(m0, steps, pre);
                            }
                            return Err(e);
                        },
                    }
                    self.set_ip(ip + 1);
                },
                Opcode::OpBang => {
                    match self.execute_bang_operator() {
                        Ok(_) => {},
                        Err(e) => {
                            proof {
                                assert(sp_step(pre) == StepResult::Failed(e@, self@));
                                lemma_run_of_steps(m0, steps, pre);
                            }
                            return Err(e);
                        },
                    }
                    self.set_ip(ip + 1);
                },
                Opcode::OpMinus => {
                    match self.execute_minus_operator() {
                        Ok(_) => {},
                        Err(e) => {
                            proof {
                                assert(sp_step(pre) == StepResult::Failed(e@, self@));
                                lemma_run_of_steps(m0, steps, pre);
                            }
                            return Err(e);
                        },
                    }
                    self.set_ip(ip + 1);
                },
                Opcode::OpJump => {
                    if ins_len - ip < 3 {
                        let e = String::from_str("truncated instruction");
                        proof {
                            assert(sp_step(pre) == StepResult::Failed(e@, self@));
                            lemma_run_of_steps(m0, steps, pre);
                        }
                        return Err(e);
                    }
                    let pos = read_uint16(&self.frames[fi].func.instructions, ip + 1) as usize;
                    self.set_ip(pos);
                },
                Opcode::OpJumpNotTruthy => {
                    if ins_len - ip < 3 {
                        let e = String::from_str("truncated instruction");
                        proof {
                            assert(sp_step(pre) == StepResult::Failed(e@, self@));
                            lemma_run_of_steps(m0, steps, pre);
                        }
                        return Err(e);
                    }
                    let pos = read_uint16(&self.frames[fi].func.instructions, ip + 1) as usize;
                    self.set_ip(ip + 3);
                    if self.sp < 1 {
                        let e = String::from_str("stack underflow");
                        proof {
                            assert(sp_step(pre) == StepResult::Failed(e@, self@));
                            lemma_run_of_steps(m0, steps, pre);
                        }
                        return Err(e);
                    }
                    let condition = self.pop();
                    if !Self::is_truthy(condition) {
                        self.set_ip(pos);
                    }
                },
                Opcode::OpNull => {
                    match self.push(Object::Null) {
                        Ok(_) => {},
                        Err(e) => {
                            proof {
                                assert(sp_step(pre) == StepResult::Failed(e@, self@));
                                lemma_run_of_steps(m0, steps, pre);
                            }
                            return Err(e);
                        },
                    }
                    self.set_ip(ip + 1);
                },
                Opcode::OpSetGlobal => {
                    if ins_len - ip < 3 {
                        let e = String::from_str("truncated instruction");
                        proof {
                            assert(sp_step(pre) == StepResult::Failed(e@, self@));
                            lemma_run_of_steps(m0, steps, pre);
                        }
                        return Err(e);
                    }
                    let global_index = read_uint16(
                        &self.frames[fi].func.instructions,
                        ip + 1,
                    ) as usize;
                    self.set_ip(ip + 3);
                    if self.sp < 1 {
                        let e = String::from_str("stack underflow");
                        proof {
                            assert(sp_step(pre) == StepResult::Failed(e@, self@));
                            lemma_run_of_steps(m0, steps, pre);
                        }
                        return Err(e);
                    }
                    let popped = self.pop();
                    let glen = self.globals.len();
                    if global_index == glen {
                        let ghost before = self@;
                        let ghost v = popped@;
                        self.globals.push(popped);
                        proof {
                            assert(self@.globals =~= before.globals + seq![v]);
                            assert(self@ =~~= (VmModel {
                                globals: before.globals + seq![v],
                                ..before
                            }));
                        }
                    } else if global_index < glen {
                        let ghost before = self@;
                        let ghost v = popped@;
                        self.globals[global_index] = popped;
                        proof {
                            assert(self@.globals =~= before.globals.update(global_index as int, v));
                            assert(self@ =~~= (VmModel {
                                globals: before.globals.update(global_index as int, v),
                                ..before
                            }));
                        }
                    } else {
                        let e = String::from_str("no such global");
                        proof {
                            assert(sp_step(pre) == StepResult::Failed(e@, self@));
                            lemma_run_of_steps(m0, steps, pre);
                        }
                        return Err(e);
                    }
                },
                Opcode::OpGetGlobal => {
                    if ins_len - ip < 3 {
                        let e = String::from_str("truncated instruction");
                        proof {
                            assert(sp_step(pre) == StepResult::Failed(e@, self@));
                            lemma_run_of_steps(m0, steps, pre);
                        }
                        return Err(e);
                    }
                    let global_index = read_uint16(
                        &self.frames[fi].func.instructions,
                        ip + 1,
                    ) as usize;
                    self.set_ip(ip + 3);
                    if global_index >= self.globals.len() {
                        let e = String::from_str("no such global");
                        proof {
                            assert(sp_step(pre) == StepResult::Failed(e@, self@));
                            lemma_run_of_steps(m0, steps, pre);
                        }
                        return Err(e);
                    }
                    let obj = self.globals[global_index].clone();
                    match self.push(obj) {
                        Ok(_) => {},
                        Err(e) => {
                            proof {
                                assert(sp_step(pre) == StepResult::Failed(e@, self@));
                                lemma_run_of_steps(m0, steps, pre);
                            }
                            return Err(e);
                        },
                    }
                },
                Opcode::OpArray => {
                    if ins_len - ip < 3 {
                        let e = String::from_str("truncated instruction");
                        proof {
                            assert(sp_step(pre) == StepResult::Failed(e@, self@));
                            lemma_run_of_steps(m0, steps, pre);
                        }
                        return Err(e);
                    }
                    let num_elements = read_uint16(
                        &self.frames[fi].func.instructions,
                        ip + 1,
                    ) as usize;
                    self.set_ip(ip + 3);
                    if num_elements > self.sp {
                        let e = String::from_str("stack underflow");
                        proof {
                            assert(sp_step(pre) == StepResult::Failed(e@, self@));
                            lemma_run_of_steps(m0, steps, pre);
                        }
                        return Err(e);
                    }
                    let array = self.build_array(self.sp - num_elements, self.sp);
                    match self.push(array) {
                        Ok(_) => {},
                        Err(e) => {
                            proof {
                                assert(sp_step(pre) == StepResult::Failed(e@, self@));
                                lemma_run_of_steps(m0, steps, pre);
                            }
                            return Err(e);
                        },
                    }
                },
                Opcode::OpHash => {
                    if ins_len - ip < 3 {
                        let e = String::from_str("truncated instruction");
                        proof {
                            assert(sp_step(pre) == StepResult::Failed(e@, self@));
                            lemma_run_of_steps(m0, steps, pre);
                        }
                        return Err(e);
                    }
                    let num_elements = read_uint16(
                        &self.frames[fi].func.instructions,
                        ip + 1,
                    ) as usize;
                    self.set_ip(ip + 3);
                    if num_elements > self.sp {
                        let e = String::from_str("stack underflow");
                        proof {
                            assert(sp_step(pre) == StepResult::Failed(e@, self@));
                            lemma_run_of_steps(m0, steps, pre);
                        }
                        return Err(e);
                    }
                    let hash = match self.build_hash(self.sp - num_elements, self.sp) {
                        Ok(h) => h,
                        Err(e) => {
                            proof {
                                assert(sp_step(pre) == StepResult::Failed(e@, self@));
                                lemma_run_of_steps(m0, steps, pre);
                            }
                            return Err(e);
                        },
                    };
                    match self.push(hash) {
                        Ok(_) => {},
                        Err(e) => {
                            proof {
                                assert(sp_step(pre) == StepResult::Failed(e@, self@));
                                lemma_run_of_steps(m0, steps, pre);
                            }
                            return Err(e);
                        },
                    }
                },
                Opcode::OpIndex => {
                    if self.sp < 2 {
                        let e = String::from_str("stack underflow");
                        proof {
                            assert(sp_step(pre) == StepResult::Failed(e@, self@));
                            lemma_run_of_steps(m0, steps, pre);
                        }
                        return Err(e);
                    }
                    let index = self.pop();
                    let left = self.pop();
                    match self.execute_index_expression(left, index) {
                        Ok(_) => {},
                        Err(e) => {
                            proof {
                                assert(sp_step(pre) == StepResult::Failed(e@, self@));
                                lemma_run_of_steps(m0, steps, pre);
                            }
                            return Err(e);
                        },
                    }
                    self.set_ip(ip + 1);
                },
                Opcode::OpCall => {
                    if ins_len - ip < 2 {
                        let e = String::from_str("truncated instruction");
                        proof {
                            assert(sp_step(pre) == StepResult::Failed(e@, self@));
                            lemma_run_of_steps(m0, steps, pre);
                        }
                        return Err(e);
                    }
                    let argc = read_uint8(&self.frames[fi].func.instructions, ip + 1) as usize;
                    if self.sp < argc + 1 {
                        let e = String::from_str("stack underflow");
                        proof {
                            assert(sp_step(pre) == StepResult::Failed(e@, self@));
                            lemma_run_of_steps(m0, steps, pre);
                        }
                        return Err(e);
                    }
                    let func_idx = self.sp - 1 - argc;
                    let func = match &self.stack[func_idx] {
                        Object::CompiledFunction(f) => f.clone(),
                        _ => {
                            let e = String::from_str("calling non-function");
                            proof {
                                assert(sp_step(pre) == StepResult::Failed(e@, self@));
                                lemma_run_of_steps(m0, steps, pre);
                            }
                            return Err(e);
                        },
                    };
                    let base_pointer = self.sp - argc;
                    let num_locals = func.num_locals;
                    if num_locals > STACK_SIZE || base_pointer > STACK_SIZE - num_locals {
                        let e = String::from_str("stack overflow");
                        proof {
                            assert(sp_step(pre) == StepResult::Failed(e@, self@));
                            lemma_run_of_steps(m0, steps, pre);
                        }
                        return Err(e);
                    }
                    self.set_ip(ip + 2);
                    let ghost advanced = self@;
                    if num_locals >= argc {
                        let extra = num_locals - argc;
                        let mut k: usize = 0;
                        while k < extra
                            invariant
                                self.wf(),
                                k <= extra,
                                extra <= STACK_SIZE,
                                self@.stack.len() == advanced.stack.len() + k,
                                advanced.stack.len() + extra <= STACK_SIZE,
                                self@ == (VmModel {
                                    stack: advanced.stack + Seq::new(
                                        k as nat,
                                        |x: int| ObjModel::Null,
                                    ),
                                    ..advanced
                                }),
                            decreases extra - k,
                        {
                            let ghost before_push = self@;
                            self.stack.push(Object::Null);
                            self.sp = self.sp + 1;
                            proof {
                                assert(self@.stack =~= before_push.stack + seq![ObjModel::Null]);
                                assert(Seq::new((k + 1) as nat, |x: int| ObjModel::Null) =~= Seq::new(
                                    k as nat,
                                    |x: int| ObjModel::Null,
                                ) + seq![ObjModel::Null]);
                                assert(self@.stack =~= advanced.stack + Seq::new(
                                    (k + 1) as nat,
                                    |x: int| ObjModel::Null,
                                ));
                                assert(self@ =~~= (VmModel {
                                    stack: advanced.stack + Seq::new(
                                        (k + 1) as nat,
                                        |x: int| ObjModel::Null,
                                    ),
                                    ..advanced
                                }));
                            }
                            k = k + 1;
                        }
                    } else {
                        self.stack.truncate(base_pointer + num_locals);
                        self.sp = base_pointer + num_locals;
                        proof {
                            assert(self@.stack =~= advanced.stack.take(
                                base_pointer + num_locals as int,
                            ));
                            assert(self@ =~~= (VmModel {
                                stack: advanced.stack.take(base_pointer + num_locals as int),
                                ..advanced
                            }));
                        }
                    }
                    self.push_frame(new_frame(func, base_pointer));
                    proof {
                        assert(self@ =~~= sp_call(pre)->Ok_0);
                    }
                },
                Opcode::OpReturnValue => {
                    if self.sp < 1 {
                        let e = String::from_str("stack underflow");
                        proof {
                            assert(sp_step(pre) == StepResult::Failed(e@, self@));
                            lemma_run_of_steps(m0, steps, pre);
                        }
                        return Err(e);
                    }
                    let return_value = self.pop();
                    if self.frame_index < 2 {
                        let e = String::from_str("frame stack underflow");
                        proof {
                            assert(sp_step(pre) == StepResult::Failed(e@, self@));
                            lemma_run_of_steps(m0, steps, pre);
                        }
                        return Err(e);
                    }
                    let frame = self.pop_frame();
                    let base_pointer = frame.base_pointer;
                    if base_pointer < 1 {
                        let e = String::from_str("frame stack underflow");
                        proof {
                            assert(sp_step(pre) == StepResult::Failed(e@, self@));
                            lemma_run_of_steps(m0, steps, pre);
                        }
                        return Err(e);
                    }
                    let ghost before_cut = self@;
                    self.stack.truncate(base_pointer - 1);
                    self.sp = self.stack.len();
                    proof {
                        let cut = if base_pointer - 1 <= before_cut.stack.len() {
                            base_pointer - 1
                        } else {
                            before_cut.stack.len() as int
                        };
                        assert(self@.stack =~= before_cut.stack.take(cut));
                        assert(self@ =~~= (VmModel { stack: before_cut.stack.take(cut), ..before_cut }));
                    }
                    match self.push(return_value) {
                        Ok(_) => {},
                        Err(e) => {
                            proof {
                                assert(sp_step(pre) == StepResult::Failed(e@, self@));
                                lemma_run_of_steps(m0, steps, pre);
                            }
                            return Err(e);
                        },
                    }
                },
                Opcode::OpReturn => {
                    if self.frame_index < 2 {
                        let e = String::from_str("frame stack underflow");
                        proof {
                            assert(sp_step(pre) == StepResult::Failed(e@, self@));
                            lemma_run_of_steps(m0, steps, pre);
                        }
                        return Err(e);
                    }
                    let frame = self.pop_frame();
                    let base_pointer = frame.base_pointer;
                    if base_pointer < 1 {
                        let e = String::from_str("frame stack underflow");
                        proof {
                            assert(sp_step(pre) == StepResult::Failed(e@, self@));
                            lemma_run_of_steps(m0, steps, pre);
                        }
                        return Err(e);
                    }
                    let ghost before_cut = self@;
                    self.stack.truncate(base_pointer - 1);
                    self.sp = self.stack.len();
                    proof {
                        let cut = if base_pointer - 1 <= before_cut.stack.len() {
                            base_pointer - 1
                        } else {
                            before_cut.stack.len() as int
                        };
                        assert(self@.stack =~= before_cut.stack.take(cut));
                        assert(self@ =~~= (VmModel { stack: before_cut.stack.take(cut), ..before_cut }));
                    }
                    match self.push(Object::Null) {
                        Ok(_) => {},
                        Err(e) => {
                            proof {
                                assert(sp_step(pre) == StepResult::Failed(e@, self@));
                                lemma_run_of_steps(m0, steps, pre);
                            }
                            return Err(e);
                        },
                    }
                },
                Opcode::OpGetLocal => {
                    if ins_len - ip < 2 {
                        let e = String::from_str("truncated instruction");
                        proof {
                            assert(sp_step(pre) == StepResult::Failed(e@, self@));
                            lemma_run_of_steps(m0, steps, pre);
                        }
                        return Err(e);
                    }
                    let local_index = read_uint8(&self.frames[fi].func.instructions, ip + 1) as usize;
                    let base_pointer = self.frames[fi].base_pointer;
                    self.set_ip(ip + 2);
                    if local_index > usize::MAX - base_pointer {
                        let e = String::from_str("no such local");
                        proof {
                            assert(sp_step(pre) == StepResult::Failed(e@, self@));
                            lemma_run_of_steps(m0, steps, pre);
                        }
                        return Err(e);
                    }
                    let slot = base_pointer + local_index;
                    if slot >= self.stack.len() {
                        let e = String::from_str("no such local");
                        proof {
                            assert(sp_step(pre) == StepResult::Failed(e@, self@));
                            lemma_run_of_steps(m0, steps, pre);
                        }
                        return Err(e);
                    }
                    let obj = self.stack[slot].clone();
                    match self.push(obj) {
                        Ok(_) => {},
                        Err(e) => {
                            proof {
                                assert(sp_step(pre) == StepResult::Failed(e@, self@));
                                lemma_run_of_steps(m0, steps, pre);
                            }
                            return Err(e);
                        },
                    }
                },
                Opcode::OpSetLocal => {
                    if ins_len - ip < 2 {
                        let e = String::from_str("truncated instruction");
                        proof {
                            assert(sp_step(pre) == StepResult::Failed(e@, self@));
                            lemma_run_of_steps(m0, steps, pre);
                        }
                        return Err(e);
                    }
                    let local_index = read_uint8(&self.frames[fi].func.instructions, ip + 1) as usize;
                    let base_pointer = self.frames[fi].base_pointer;
                    self.set_ip(ip + 2);
                    if self.sp < 1 {
                        let e = String::from_str("stack underflow");
                        proof {
                            assert(sp_step(pre) == StepResult::Failed(e@, self@));
                            lemma_run_of_steps(m0, steps, pre);
                        }
                        return Err(e);
                    }
                    let popped = self.pop();
                    if local_index > usize::MAX - base_pointer {
                        let e = String::from_str("no such local");
                        proof {
                            assert(sp_step(pre) == StepResult::Failed(e@, self@));
                            lemma_run_of_steps(m0, steps, pre);
                        }
                        return Err(e);
                    }
                    let slot = base_pointer + local_index;
                    if slot >= self.stack.len() {
                        let e = String::from_str("no such local");
                        proof {
                            assert(sp_step(pre) == StepResult::Failed(e@, self@));
                            lemma_run_of_steps(m0, steps, pre);
                        }
                        return Err(e);
                    }
                    let ghost before_write = self@;
                    self.stack[slot] = popped;
                    proof {
                        assert(self@.stack =~= before_write.stack.update(
                            slot as int,
                            before_write.last_popped->Some_0,
                        ));
                        assert(self@ =~~= (VmModel {
                            stack: before_write.stack.update(
                                slot as int,
                                before_write.last_popped->Some_0,
                            ),
                            ..before_write
                        }));
                    }
                },
            }
            proof {
                assert(sp_step(pre) == StepResult::Stepped(self@));
                lemma_step_n_snoc(m0, steps, pre, self@);
                steps = steps + 1;
            }
        }
    }

    /// Pops an index and a collection and pushes the element they pick
    /// out.
    fn execute_index_expression(&mut self, left: Object, index: Object) -> (r: Result<(), String>)
        requires
            old(self).wf(),
        ensures
            final(self).wf(),
            match r {
                Ok(_) => sp_index_apply(old(self)@, left@, index@) == Ok::<
                    VmModel,
                    (Seq<char>, VmModel),
                >(final(self)@),
                Err(e) => sp_index_apply(old(self)@, left@, index@) == Err::<
                    VmModel,
                    (Seq<char>, VmModel),
                >((e@, final(self)@)),
            },
    {
        match (left, index) {
            (Object::Array(array), Object::Integer(integer)) => {
                self.execute_array_index(array, integer)
            },
            (Object::Hash(hash), i) => self.execute_hash_index(hash, i),
            (l, _) => Err(
                String::from_str("index operator not supported: ").concat(l.kind_name().as_str()),
            ),
        }
    }
}

} // verus!

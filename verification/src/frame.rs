//! A call frame: one activation of a compiled function.

use vstd::prelude::*;

use crate::code::Instructions;
use crate::object::CompiledFunction;

verus! {

/// A function activation: the function it runs, the instruction pointer
/// into its code, and the operand-stack index where its locals begin.
pub struct Frame {
    pub func: CompiledFunction,
    pub ip: usize,
    pub base_pointer: usize,
}

/// The mathematical model of a frame.
#[verifier::ext_equal]
pub struct FrameModel {
    pub code: Seq<u8>,
    pub locals: int,
    pub ip: int,
    pub base: int,
}

impl View for Frame {
    type V = FrameModel;

    open spec fn view(&self) -> FrameModel {
        FrameModel {
            code: self.func.instructions@,
            locals: self.func.num_locals as int,
            ip: self.ip as int,
            base: self.base_pointer as int,
        }
    }
}

impl Frame {
    /// The instructions the frame is executing.
    pub fn instructions(&self) -> (r: &Instructions)
        ensures
            r@ == self@.code,
    {
        &self.func.instructions
    }
}

/// A fresh frame for one call: execution starts at the top of the
/// function's code, with locals based at the given stack index.
pub fn new_frame(func: CompiledFunction, base_pointer: usize) -> (r: Frame)
    ensures
        r@ == (FrameModel {
            code: func.instructions@,
            locals: func.num_locals as int,
            ip: 0,
            base: base_pointer as int,
        }),
{
    Frame { func, ip: 0, base_pointer }
}

} // verus!

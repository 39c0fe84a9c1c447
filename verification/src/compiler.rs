//! The compiler: walks a parsed program and emits linear bytecode plus a
//! constant pool, resolving identifiers through the scoped symbol table.
//!
//! Contracts are stated over [`CompModel`], the mathematical model of the
//! compiler state, and a family of `sp_*` functions that say exactly what
//! each operation does to that model.

use vstd::prelude::*;
use vstd::string::StringExecFns;

use crate::ast::{BlockStatement, Expression, Program, Statement};
use crate::code::{
    encode_instruction, make, make_with_operands, op_byte, op_of_byte, op_widths, Instructions,
    Opcode,
};
use crate::object::{objs_model, CompiledFunction, ObjModel, Object};
use crate::symbol_table::{
    empty_scope, new_symbol_table_stack, spec_define, spec_defined_symbol, spec_resolve,
    SymbolScope, SymbolTableStack, TableModel,
};

verus! {

/// A fresh, empty constant pool.
pub fn new_constants() -> (r: Vec<Object>)
    ensures
        r@.len() == 0,
{
    Vec::new()
}

/// The record of one emission: which opcode, and at which byte position
/// of the scope's instructions it starts.
pub struct EmittedInstruction {
    pub opcode: Opcode,
    pub position: usize,
}

/// One nested compilation scope: the instructions emitted so far and the
/// two most recent emissions.
pub struct CompilationScope {
    pub instructions: Instructions,
    pub last_instruction: Option<EmittedInstruction>,
    pub previous_instruction: Option<EmittedInstruction>,
}

/// The mathematical model of a compilation scope.
#[verifier::ext_equal]
pub struct CompScopeModel {
    pub ins: Seq<u8>,
    pub last: Option<(Opcode, int)>,
    pub prev: Option<(Opcode, int)>,
}

/// The mathematical model of the whole compiler state.
#[verifier::ext_equal]
pub struct CompModel {
    pub scopes: Seq<CompScopeModel>,
    pub constants: Seq<ObjModel>,
    pub symbols: Seq<TableModel>,
}

impl View for EmittedInstruction {
    type V = (Opcode, int);

    open spec fn view(&self) -> (Opcode, int) {
        (self.opcode, self.position as int)
    }
}

/// The model of an optional emission record.
pub open spec fn emitted_model(e: Option<EmittedInstruction>) -> Option<(Opcode, int)> {
    match e {
        Some(r) => Some(r@),
        None => None,
    }
}

impl View for CompilationScope {
    type V = CompScopeModel;

    open spec fn view(&self) -> CompScopeModel {
        CompScopeModel {
            ins: self.instructions@,
            last: emitted_model(self.last_instruction),
            prev: emitted_model(self.previous_instruction),
        }
    }
}

/// The models of a list of compilation scopes, outermost first.
pub open spec fn comp_scopes_model(s: Seq<CompilationScope>) -> Seq<CompScopeModel> {
    Seq::new(s.len(), |i: int| s[i]@)
}

/// The compiler: the shared constant pool, the symbol table stack, and a
/// stack of compilation scopes of which the bottom one is the main scope.
pub struct Compiler {
    pub constants: Vec<Object>,
    pub symbol_table_stack: SymbolTableStack,
    pub scopes: Vec<CompilationScope>,
    pub scope_index: usize,
}

impl View for Compiler {
    type V = CompModel;

    open spec fn view(&self) -> CompModel {
        CompModel {
            scopes: comp_scopes_model(self.scopes@),
            constants: objs_model(self.constants@),
            symbols: self.symbol_table_stack@,
        }
    }
}

/// The main scope's instructions together with the constants they index.
pub struct ByteCode {
    pub instructions: Instructions,
    pub constants: Vec<Object>,
}

/// An empty compilation scope.
pub open spec fn sp_empty_comp_scope() -> CompScopeModel {
    CompScopeModel { ins: Seq::<u8>::empty(), last: None, prev: None }
}

/// The byte position at which the next emission into the current scope
/// will start.
pub open spec fn sp_emit_pos(m: CompModel) -> int {
    m.scopes.last().ins.len() as int
}

/// Emitting appends the encoded instruction to the current scope and
/// records it as the most recent emission.
pub open spec fn sp_emit(m: CompModel, op: Opcode, operands: Seq<usize>) -> CompModel {
    let scope = m.scopes.last();
    CompModel {
        scopes: m.scopes.update(
            m.scopes.len() - 1,
            CompScopeModel {
                ins: scope.ins + encode_instruction(op, operands),
                last: Some((op, scope.ins.len() as int)),
                prev: scope.last,
            },
        ),
        ..m
    }
}

/// Adding a constant appends it to the shared pool; its index is the
/// pool's length before the append.
pub open spec fn sp_add_constant(m: CompModel, o: ObjModel) -> CompModel {
    CompModel { constants: m.constants + seq![o], ..m }
}

/// Whether the most recent emission in the current scope was `op`.
pub open spec fn sp_last_is(m: CompModel, op: Opcode) -> bool {
    match m.scopes.last().last {
        Some((last_op, _)) => last_op == op,
        None => false,
    }
}

/// Removing the last emission truncates the current scope back to the
/// position the emission started at and promotes the next-to-most-recent
/// emission. With nothing emitted yet, nothing changes.
pub open spec fn sp_remove_last(m: CompModel) -> CompModel {
    let scope = m.scopes.last();
    match scope.last {
        Some((_, pos)) => {
            let cut = if pos <= scope.ins.len() {
                pos
            } else {
                scope.ins.len() as int
            };
            CompModel {
                scopes: m.scopes.update(
                    m.scopes.len() - 1,
                    CompScopeModel { ins: scope.ins.take(cut), last: scope.prev, prev: None },
                ),
                ..m
            }
        },
        None => m,
    }
}

/// Overwriting bytes in place: positions outside the stream stay as they
/// are, nothing grows.
pub open spec fn sp_overwrite(code: Seq<u8>, pos: int, bytes: Seq<u8>) -> Seq<u8> {
    Seq::new(
        code.len(),
        |i: int|
            if pos <= i < pos + bytes.len() {
                bytes[i - pos]
            } else {
                code[i]
            },
    )
}

/// Replacing an instruction overwrites bytes of the current scope in
/// place.
pub open spec fn sp_replace_instruction(m: CompModel, pos: int, bytes: Seq<u8>) -> CompModel {
    let scope = m.scopes.last();
    CompModel {
        scopes: m.scopes.update(
            m.scopes.len() - 1,
            CompScopeModel { ins: sp_overwrite(scope.ins, pos, bytes), ..scope },
        ),
        ..m
    }
}

/// Re-encoding the opcode found at `pos` with one fresh operand and
/// overwriting it in place. A position that holds no opcode changes
/// nothing.
pub open spec fn sp_change_operand(m: CompModel, pos: int, operand: usize) -> CompModel {
    let scope = m.scopes.last();
    if 0 <= pos < scope.ins.len() {
        match op_of_byte(scope.ins[pos]) {
            Some(op) => sp_replace_instruction(m, pos, encode_instruction(op, seq![operand])),
            None => m,
        }
    } else {
        m
    }
}

/// Entering a scope pushes an empty compilation scope and an empty symbol
/// scope.
pub open spec fn sp_enter_scope(m: CompModel) -> CompModel {
    CompModel {
        scopes: m.scopes + seq![sp_empty_comp_scope()],
        symbols: m.symbols + seq![empty_scope()],
        ..m
    }
}

/// Leaving a scope pops the top compilation scope and the top symbol
/// scope; the popped scope's instructions are handed back.
pub open spec fn sp_leave_scope(m: CompModel) -> CompModel {
    CompModel { scopes: m.scopes.drop_last(), symbols: m.symbols.drop_last(), ..m }
}

/// Overwriting the most recent emission with `OpReturnValue` (both are
/// one byte wide). With nothing emitted yet, nothing changes.
pub open spec fn sp_replace_last_with_return(m: CompModel) -> CompModel {
    let scope = m.scopes.last();
    match scope.last {
        Some((_, pos)) => {
            let replaced = sp_replace_instruction(
                m,
                pos,
                encode_instruction(Opcode::OpReturnValue, Seq::<usize>::empty()),
            );
            let scope2 = replaced.scopes.last();
            CompModel {
                scopes: replaced.scopes.update(
                    replaced.scopes.len() - 1,
                    CompScopeModel { last: Some((Opcode::OpReturnValue, pos)), ..scope2 },
                ),
                ..replaced
            }
        },
        None => m,
    }
}

impl Compiler {
    /// The compiler's structural invariant: at least the main scope is
    /// open, `scope_index` points at the top scope, and the symbol stack
    /// is well formed and at least as deep as the scope stack.
    pub open spec fn wf(&self) -> bool {
        &&& self.scopes@.len() >= 1
        &&& self.scope_index == self.scopes@.len() - 1
        &&& self.symbol_table_stack.wf()
        &&& self.symbol_table_stack@.len() >= self.scopes@.len()
    }

    /// A compiler over an externally owned symbol table stack and
    /// constant pool, so that successive programs can share them.
    pub fn new_with_state(s: SymbolTableStack, constants: Vec<Object>) -> (r: Compiler)
        requires
            s.wf(),
            s@.len() >= 1,
        ensures
            r.wf(),
            r@ == (CompModel {
                scopes: seq![sp_empty_comp_scope()],
                constants: objs_model(constants@),
                symbols: s@,
            }),
    {
        let main_scope = CompilationScope {
            instructions: Instructions(Vec::new()),
            last_instruction: None,
            previous_instruction: None,
        };
        let mut scopes: Vec<CompilationScope> = Vec::new();
        scopes.push(main_scope);
        let r = Compiler { constants, symbol_table_stack: s, scopes, scope_index: 0 };
        proof {
            assert(r@.scopes =~= seq![sp_empty_comp_scope()]);
        }
        r
    }

    /// A compiler with a fresh symbol table stack and constant pool.
    pub fn new() -> (r: Compiler)
        ensures
            r.wf(),
            r@ == (CompModel {
                scopes: seq![sp_empty_comp_scope()],
                constants: Seq::<ObjModel>::empty(),
                symbols: seq![empty_scope()],
            }),
    {
        let s = new_symbol_table_stack();
        let constants = new_constants();
        proof {
            assert(objs_model(constants@) =~= Seq::<ObjModel>::empty());
        }
        Compiler::new_with_state(s, constants)
    }

    /// Consumes the compiler and yields the current scope's instructions
    /// together with the constant pool.
    pub fn bytecode(self) -> (r: ByteCode)
        requires
            self.wf(),
        ensures
            r.instructions@ == self@.scopes.last().ins,
            objs_model(r.constants@) == self@.constants,
    {
        let mut scopes = self.scopes;
        let top = scopes.pop().unwrap();
        ByteCode { instructions: top.instructions, constants: self.constants }
    }

    /// Removes the top scope, mutates nothing else, and hands the scope
    /// back; a private helper for the emission methods below.
    fn take_top_scope(&mut self) -> (r: CompilationScope)
        requires
            old(self).wf(),
        ensures
            r@ == old(self)@.scopes.last(),
            final(self).scopes@ == old(self).scopes@.drop_last(),
            final(self).constants == old(self).constants,
            final(self).symbol_table_stack == old(self).symbol_table_stack,
            final(self).scope_index == old(self).scope_index,
    {
        self.scopes.pop().unwrap()
    }

    /// Puts a scope back on top; the inverse of `take_top_scope`.
    fn put_top_scope(&mut self, scope: CompilationScope)
        ensures
            final(self).scopes@ == old(self).scopes@.push(scope),
            final(self).constants == old(self).constants,
            final(self).symbol_table_stack == old(self).symbol_table_stack,
            final(self).scope_index == old(self).scope_index,
    {
        self.scopes.push(scope);
    }

    /// Emits an operand-less opcode into the current scope; returns the
    /// byte position the instruction starts at.
    pub fn emit(&mut self, op: Opcode) -> (pos: usize)
        requires
            old(self).wf(),
        ensures
            final(self).wf(),
            final(self)@ == sp_emit(old(self)@, op, Seq::<usize>::empty()),
            pos == sp_emit_pos(old(self)@),
    {
        let ins = make(op);
        self.emit_ins(op, ins)
    }

    /// Emits an opcode with its operands into the current scope; returns
    /// the byte position the instruction starts at.
    pub fn emit_with_operands(&mut self, op: Opcode, operands: &[usize]) -> (pos: usize)
        requires
            old(self).wf(),
            operands@.len() == op_widths(op).len(),
        ensures
            final(self).wf(),
            final(self)@ == sp_emit(old(self)@, op, operands@),
            pos == sp_emit_pos(old(self)@),
    {
        let ins = make_with_operands(op, operands);
        self.emit_ins_with(op, ins, Ghost(operands@))
    }

    /// Appends an already-encoded operand-less instruction and records it
    /// as the most recent emission.
    fn emit_ins(&mut self, op: Opcode, ins: Instructions) -> (pos: usize)
        requires
            old(self).wf(),
            ins@ == encode_instruction(op, Seq::<usize>::empty()),
        ensures
            final(self).wf(),
            final(self)@ == sp_emit(old(self)@, op, Seq::<usize>::empty()),
            pos == sp_emit_pos(old(self)@),
    {
        self.emit_ins_with(op, ins, Ghost(Seq::<usize>::empty()))
    }

    /// Appends an already-encoded instruction and records it as the most
    /// recent emission.
    fn emit_ins_with(&mut self, op: Opcode, ins: Instructions, operands: Ghost<Seq<usize>>) -> (pos:
        usize)
        requires
            old(self).wf(),
            ins@ == encode_instruction(op, operands@),
        ensures
            final(self).wf(),
            final(self)@ == sp_emit(old(self)@, op, operands@),
            pos == sp_emit_pos(old(self)@),
    {
        let mut scope = self.take_top_scope();
        let pos = scope.instructions.0.len();
        let mut bytes = ins.0;
        scope.instructions.0.append(&mut bytes);
        scope.previous_instruction = scope.last_instruction;
        scope.last_instruction = Some(EmittedInstruction { opcode: op, position: pos });
        self.put_top_scope(scope);
        proof {
            assert(final(self).scopes@ =~= old(self).scopes@.update(
                old(self).scopes@.len() - 1,
                final(self).scopes@.last(),
            ));
            assert(final(self)@.scopes =~= sp_emit(old(self)@, op, operands@).scopes);
            assert(final(self)@ =~~= sp_emit(old(self)@, op, operands@));
        }
        pos
    }

    /// Appends raw instruction bytes to the current scope without
    /// recording an emission; returns the position they start at.
    pub fn add_instruction(&mut self, ins: Instructions) -> (pos: usize)
        requires
            old(self).wf(),
        ensures
            final(self).wf(),
            final(self)@ == (CompModel {
                scopes: old(self)@.scopes.update(
                    old(self)@.scopes.len() - 1,
                    CompScopeModel {
                        ins: old(self)@.scopes.last().ins + ins@,
                        ..old(self)@.scopes.last()
                    },
                ),
                ..old(self)@
            }),
            pos == old(self)@.scopes.last().ins.len(),
    {
        let mut scope = self.take_top_scope();
        let pos = scope.instructions.0.len();
        let mut bytes = ins.0;
        scope.instructions.0.append(&mut bytes);
        self.put_top_scope(scope);
        proof {
            assert(final(self).scopes@ =~= old(self).scopes@.update(
                old(self).scopes@.len() - 1,
                final(self).scopes@.last(),
            ));
            assert(final(self)@.scopes =~= (CompModel {
                scopes: old(self)@.scopes.update(
                    old(self)@.scopes.len() - 1,
                    CompScopeModel {
                        ins: old(self)@.scopes.last().ins + ins@,
                        ..old(self)@.scopes.last()
                    },
                ),
                ..old(self)@
            }).scopes);
        }
        pos
    }

    /// Appends a value to the shared constant pool and returns its index.
    pub fn add_constant(&mut self, obj: Object) -> (idx: usize)
        requires
            old(self).wf(),
        ensures
            final(self).wf(),
            final(self)@ == sp_add_constant(old(self)@, obj@),
            idx == old(self)@.constants.len(),
    {
        broadcast use crate::object::lemma_objs_model;

        let idx = self.constants.len();
        self.constants.push(obj);
        proof {
            assert(objs_model(self.constants@) =~= old(self)@.constants + seq![obj@]);
            assert(final(self)@ =~~= sp_add_constant(old(self)@, obj@));
        }
        idx
    }

    /// Whether the most recent emission in the current scope was `op`.
    pub fn last_instruction_is(&self, op: Opcode) -> (r: bool)
        requires
            self.wf(),
        ensures
            r == sp_last_is(self@, op),
    {
        match &self.scopes[self.scope_index].last_instruction {
            Some(emitted) => emitted.opcode == op,
            None => false,
        }
    }

    /// Truncates the current scope back past its most recent emission
    /// (the compiler uses it to drop a trailing `OpPop`) and promotes the
    /// next-to-most-recent emission.
    pub fn remove_last_pop(&mut self)
        requires
            old(self).wf(),
        ensures
            final(self).wf(),
            final(self)@ == sp_remove_last(old(self)@),
    {
        let mut scope = self.take_top_scope();
        match &scope.last_instruction {
            Some(emitted) => {
                let position = emitted.position;
                scope.instructions.0.truncate(position);
                scope.last_instruction = scope.previous_instruction;
                scope.previous_instruction = None;
                let ghost pos = position as int;
                self.put_top_scope(scope);
                proof {
                    let cut = if pos <= old(self)@.scopes.last().ins.len() {
                        pos
                    } else {
                        old(self)@.scopes.last().ins.len() as int
                    };
                    assert(final(self)@.scopes.last().ins =~= old(self)@.scopes.last().ins.take(
                        cut,
                    ));
                    assert(final(self)@.scopes =~~= sp_remove_last(old(self)@).scopes);
                    assert(final(self)@ =~~= sp_remove_last(old(self)@));
                }
            },
            None => {
                self.put_top_scope(scope);
                proof {
                    assert(final(self)@.scopes =~= old(self)@.scopes);
                    assert(final(self)@ =~~= old(self)@);
                }
            },
        }
    }

    /// Overwrites bytes of the current scope in place, one for one;
    /// positions beyond the end of the stream are ignored.
    pub fn replace_instruction(&mut self, pos: usize, new_instruction: Instructions)
        requires
            old(self).wf(),
        ensures
            final(self).wf(),
            final(self)@ == sp_replace_instruction(old(self)@, pos as int, new_instruction@),
    {
        let mut scope = self.take_top_scope();
        let count = new_instruction.0.len();
        let total = scope.instructions.0.len();
        let mut i: usize = 0;
        while i < count
            invariant
                count == new_instruction@.len(),
                total == scope.instructions@.len(),
                total == old(self)@.scopes.last().ins.len(),
                scope@.last == old(self)@.scopes.last().last,
                scope@.prev == old(self)@.scopes.last().prev,
                i <= count,
                forall|k: int|
                    0 <= k < total ==> scope.instructions@[k] == (if pos <= k < pos + i {
                        new_instruction@[k - pos]
                    } else {
                        old(self)@.scopes.last().ins[k]
                    }),
            decreases count - i,
        {
            if pos < total && i < total - pos {
                let b = new_instruction.0[i];
                scope.instructions.0[pos + i] = b;
            }
            i = i + 1;
        }
        self.put_top_scope(scope);
        proof {
            assert(final(self)@.scopes.last().ins =~= sp_overwrite(
                old(self)@.scopes.last().ins,
                pos as int,
                new_instruction@,
            ));
            assert(final(self)@.scopes =~~= sp_replace_instruction(
                old(self)@,
                pos as int,
                new_instruction@,
            ).scopes);
            assert(final(self)@ =~~= sp_replace_instruction(
                old(self)@,
                pos as int,
                new_instruction@,
            ));
        }
    }

    /// Re-encodes the opcode at `op_pos` with a fresh operand and
    /// overwrites it in place; the replacement has the same width, so
    /// later offsets are undisturbed.
    pub fn change_operand(&mut self, op_pos: usize, operand: usize)
        requires
            old(self).wf(),
        ensures
            final(self).wf(),
            final(self)@ == sp_change_operand(old(self)@, op_pos as int, operand),
    {
        let in_range = op_pos < self.scopes[self.scope_index].instructions.0.len();
        if in_range {
            let byte = self.scopes[self.scope_index].instructions.0[op_pos];
            match Opcode::from_byte(byte) {
                Some(op) => {
                    let def = crate::code::lookup(&op);
                    if def.operand_width.len() == 1 {
                        let mut operands: Vec<usize> = Vec::new();
                        operands.push(operand);
                        proof {
                            assert(operands@ =~= seq![operand]);
                        }
                        let new_instruction = make_with_operands(op, operands.as_slice());
                        self.replace_instruction(op_pos, new_instruction);
                    } else {
                        proof {
                            assert(op_byte(op) == byte);
                            assert(encode_instruction(op, seq![operand]) =~= seq![byte]);
                            assert(sp_overwrite(
                                self@.scopes.last().ins,
                                op_pos as int,
                                seq![byte],
                            ) =~= self@.scopes.last().ins);
                            assert(final(self)@.scopes =~= sp_change_operand(
                                old(self)@,
                                op_pos as int,
                                operand,
                            ).scopes);
                            assert(final(self)@ =~~= sp_change_operand(
                                old(self)@,
                                op_pos as int,
                                operand,
                            ));
                        }
                    }
                },
                None => {
                },
            }
        }
    }

    /// Opens a nested compilation scope and a nested symbol scope.
    pub fn enter_scope(&mut self)
        requires
            old(self).wf(),
        ensures
            final(self).wf(),
            final(self)@ == sp_enter_scope(old(self)@),
    {
        let scope = CompilationScope {
            instructions: Instructions(Vec::new()),
            last_instruction: None,
            previous_instruction: None,
        };
        let depth = self.scopes.len();
        self.scopes.push(scope);
        self.scope_index = depth;
        self.symbol_table_stack.push();
        proof {
            assert(final(self)@.scopes =~= sp_enter_scope(old(self)@).scopes);
            assert(final(self)@ =~~= sp_enter_scope(old(self)@));
        }
    }

    /// Closes the top compilation scope and the top symbol scope; the
    /// closed scope's instructions are handed back.
    pub fn leave_scope(&mut self) -> (r: Instructions)
        requires
            old(self).wf(),
            old(self)@.scopes.len() >= 2,
        ensures
            final(self).wf(),
            final(self)@ == sp_leave_scope(old(self)@),
            r@ == old(self)@.scopes.last().ins,
    {
        let top = self.scopes.pop().unwrap();
        self.scope_index = self.scope_index - 1;
        let _ = self.symbol_table_stack.pop();
        proof {
            assert(final(self)@.scopes =~= sp_leave_scope(old(self)@).scopes);
            assert(final(self)@ =~~= sp_leave_scope(old(self)@));
        }
        top.instructions
    }

    /// Overwrites the most recent emission (the compiler uses it on a
    /// trailing `OpPop`) with `OpReturnValue`; both are one byte wide.
    pub fn replace_last_pop_with_return(&mut self)
        requires
            old(self).wf(),
        ensures
            final(self).wf(),
            final(self)@ == sp_replace_last_with_return(old(self)@),
    {
        let last_pos = match &self.scopes[self.scope_index].last_instruction {
            Some(emitted) => emitted.position,
            None => {
                return ;
            },
        };
        self.replace_instruction(last_pos, make(Opcode::OpReturnValue));
        let mut scope = self.take_top_scope();
        scope.last_instruction = Some(
            EmittedInstruction { opcode: Opcode::OpReturnValue, position: last_pos },
        );
        self.put_top_scope(scope);
        proof {
            assert(final(self)@.scopes =~= sp_replace_last_with_return(old(self)@).scopes);
            assert(final(self)@ =~~= sp_replace_last_with_return(old(self)@));
        }
    }
}

/// The message for an infix or prefix operator the compiler does not
/// know.
pub open spec fn err_unknown_operator(op: Seq<char>) -> Seq<char> {
    "unknown operator "@ + op
}

/// The message for an identifier no open scope defines.
pub open spec fn err_undefined_variable(name: Seq<char>) -> Seq<char> {
    "undefined variable: "@ + name
}

/// The message for a symbol scope whose definition counter cannot grow
/// any further.
pub open spec fn err_symbols_full() -> Seq<char> {
    "symbol table full"@
}

/// The message for a hash literal with more pairs than an emission
/// operand can count.
pub open spec fn err_hash_too_large() -> Seq<char> {
    "hash literal too large"@
}

/// The conventional placeholder operand of a forward jump, rewritten
/// once the target offset is known.
pub open spec fn jump_placeholder() -> usize {
    9999
}

/// What compiling one statement does to the compiler state, or the error
/// it stops on.
pub open spec fn sp_compile_stmt(m: CompModel, s: Statement) -> Result<CompModel, Seq<char>>
    decreases s,
{
    match s {
        Statement::ExpressionStatement { expression } => match sp_compile_expr(m, expression) {
            Err(e) => Err(e),
            Ok(m1) => Ok(sp_emit(m1, Opcode::OpPop, Seq::<usize>::empty())),
        },
        Statement::LetStatement { name, value } => match sp_compile_expr(m, value) {
            Err(e) => Err(e),
            Ok(m1) => {
                if m1.symbols.len() < 1 {
                    Err(err_symbols_full())
                } else if m1.symbols.last().count >= usize::MAX {
                    Err(err_symbols_full())
                } else {
                    let sym = spec_defined_symbol(m1.symbols, name@);
                    let m2 = CompModel { symbols: spec_define(m1.symbols, name@), ..m1 };
                    let op = if sym.scope == SymbolScope::Global {
                        Opcode::OpSetGlobal
                    } else {
                        Opcode::OpSetLocal
                    };
                    Ok(sp_emit(m2, op, seq![sym.index as usize]))
                }
            },
        },
        Statement::ReturnStatement { return_value } => match sp_compile_expr(m, return_value) {
            Err(e) => Err(e),
            Ok(m1) => Ok(sp_emit(m1, Opcode::OpReturnValue, Seq::<usize>::empty())),
        },
    }
}

/// What compiling a statement list does: the statements compile in order,
/// and the first error wins.
pub open spec fn sp_compile_stmts(m: CompModel, ss: Seq<Statement>) -> Result<
    CompModel,
    Seq<char>,
>
    decreases ss,
{
    if ss.len() == 0 {
        Ok(m)
    } else {
        match sp_compile_stmt(m, ss[0]) {
            Err(e) => Err(e),
            Ok(m1) => sp_compile_stmts(m1, ss.subrange(1, ss.len() as int)),
        }
    }
}

/// What compiling an expression list does: left to right, first error
/// wins.
pub open spec fn sp_compile_exprs(m: CompModel, es: Seq<Expression>) -> Result<
    CompModel,
    Seq<char>,
>
    decreases es,
{
    if es.len() == 0 {
        Ok(m)
    } else {
        match sp_compile_expr(m, es[0]) {
            Err(e) => Err(e),
            Ok(m1) => sp_compile_exprs(m1, es.subrange(1, es.len() as int)),
        }
    }
}

/// What compiling the pairs of a hash literal does: each key, then its
/// value, in source order.
pub open spec fn sp_compile_pairs(m: CompModel, ps: Seq<(Expression, Expression)>) -> Result<
    CompModel,
    Seq<char>,
>
    decreases ps,
{
    if ps.len() == 0 {
        Ok(m)
    } else {
        match sp_compile_expr(m, ps[0].0) {
            Err(e) => Err(e),
            Ok(m1) => match sp_compile_expr(m1, ps[0].1) {
                Err(e) => Err(e),
                Ok(m2) => sp_compile_pairs(m2, ps.subrange(1, ps.len() as int)),
            },
        }
    }
}

/// What defining the parameters of a function literal does to the fresh
/// scope, in order.
pub open spec fn sp_define_params(symbols: Seq<TableModel>, ps: Seq<String>) -> Seq<TableModel>
    decreases ps,
{
    if ps.len() == 0 {
        symbols
    } else {
        sp_define_params(spec_define(symbols, ps[0]@), ps.subrange(1, ps.len() as int))
    }
}

/// What compiling one expression does to the compiler state, or the
/// error it stops on.
pub open spec fn sp_compile_expr(m: CompModel, e: Expression) -> Result<CompModel, Seq<char>>
    decreases e,
{
    match e {
        Expression::IntegerLiteral { value } => {
            let idx = m.constants.len() as usize;
            let m1 = sp_add_constant(m, ObjModel::Int(value as int));
            Ok(sp_emit(m1, Opcode::OpConstant, seq![idx]))
        },
        Expression::BooleanLiteral { value } => {
            if value {
                Ok(sp_emit(m, Opcode::OpTrue, Seq::<usize>::empty()))
            } else {
                Ok(sp_emit(m, Opcode::OpFalse, Seq::<usize>::empty()))
            }
        },
        Expression::StringLiteral { value } => {
            let idx = m.constants.len() as usize;
            let m1 = sp_add_constant(m, ObjModel::Str(value@));
            Ok(sp_emit(m1, Opcode::OpConstant, seq![idx]))
        },
        Expression::Identifier { value } => match spec_resolve(m.symbols, value@) {
            None => Err(err_undefined_variable(value@)),
            Some(sym) => {
                let op = if sym.scope == SymbolScope::Global {
                    Opcode::OpGetGlobal
                } else {
                    Opcode::OpGetLocal
                };
                Ok(sp_emit(m, op, seq![sym.index as usize]))
            },
        },
        Expression::PrefixExpression { operator, right } => match sp_compile_expr(m, *right) {
            Err(e) => Err(e),
            Ok(m1) => {
                if operator@ == "!"@ {
                    Ok(sp_emit(m1, Opcode::OpBang, Seq::<usize>::empty()))
                } else if operator@ == "-"@ {
                    Ok(sp_emit(m1, Opcode::OpMinus, Seq::<usize>::empty()))
                } else {
                    Err(err_unknown_operator(operator@))
                }
            },
        },
        Expression::InfixExpression { operator, left, right } => {
            if operator@ == "<"@ {
                match sp_compile_expr(m, *right) {
                    Err(e) => Err(e),
                    Ok(m1) => match sp_compile_expr(m1, *left) {
                        Err(e) => Err(e),
                        Ok(m2) => Ok(sp_emit(m2, Opcode::OpGreaterThan, Seq::<usize>::empty())),
                    },
                }
            } else {
                match sp_compile_expr(m, *left) {
                    Err(e) => Err(e),
                    Ok(m1) => match sp_compile_expr(m1, *right) {
                        Err(e) => Err(e),
                        Ok(m2) => {
                            if operator@ == "+"@ {
                                Ok(sp_emit(m2, Opcode::OpAdd, Seq::<usize>::empty()))
                            } else if operator@ == "-"@ {
                                Ok(sp_emit(m2, Opcode::OpSub, Seq::<usize>::empty()))
                            } else if operator@ == "*"@ {
                                Ok(sp_emit(m2, Opcode::OpMul, Seq::<usize>::empty()))
                            } else if operator@ == "/"@ {
                                Ok(sp_emit(m2, Opcode::OpDiv, Seq::<usize>::empty()))
                            } else if operator@ == ">"@ {
                                Ok(sp_emit(m2, Opcode::OpGreaterThan, Seq::<usize>::empty()))
                            } else if operator@ == "=="@ {
                                Ok(sp_emit(m2, Opcode::OpEqual, Seq::<usize>::empty()))
                            } else if operator@ == "!="@ {
                                Ok(sp_emit(m2, Opcode::OpNotEqual, Seq::<usize>::empty()))
                            } else {
                                Err(err_unknown_operator(operator@))
                            }
                        },
                    },
                }
            }
        },
        Expression::IfExpression { condition, consequence, alternative } => {
            match sp_compile_expr(m, *condition) {
                Err(e) => Err(e),
                Ok(m1) => {
                    let jnt_pos = sp_emit_pos(m1);
                    let m2 = sp_emit(m1, Opcode::OpJumpNotTruthy, seq![jump_placeholder()]);
                    match sp_compile_stmts(m2, consequence.statements@) {
                        Err(e) => Err(e),
                        Ok(m3) => {
                            let m4 = if sp_last_is(m3, Opcode::OpPop) {
                                sp_remove_last(m3)
                            } else {
                                m3
                            };
                            let jump_pos = sp_emit_pos(m4);
                            let m5 = sp_emit(m4, Opcode::OpJump, seq![jump_placeholder()]);
                            let m6 = sp_change_operand(
                                m5,
                                jnt_pos,
                                m5.scopes.last().ins.len() as usize,
                            );
                            match alternative {
                                None => {
                                    let m7 = sp_emit(m6, Opcode::OpNull, Seq::<usize>::empty());
                                    Ok(
                                        sp_change_operand(
                                            m7,
                                            jump_pos,
                                            m7.scopes.last().ins.len() as usize,
                                        ),
                                    )
                                },
                                Some(alt) => match sp_compile_stmts(m6, alt.statements@) {
                                    Err(e) => Err(e),
                                    Ok(m7) => {
                                        let m8 = if sp_last_is(m7, Opcode::OpPop) {
                                            sp_remove_last(m7)
                                        } else {
                                            m7
                                        };
                                        Ok(
                                            sp_change_operand(
                                                m8,
                                                jump_pos,
                                                m8.scopes.last().ins.len() as usize,
                                            ),
                                        )
                                    },
                                },
                            }
                        },
                    }
                },
            }
        },
        Expression::ArrayLiteral { elements } => match sp_compile_exprs(m, elements@) {
            Err(e) => Err(e),
            Ok(m1) => Ok(sp_emit(m1, Opcode::OpArray, seq![elements@.len() as usize])),
        },
        Expression::HashLiteral { pairs } => {
            if pairs@.len() > usize::MAX / 2 {
                Err(err_hash_too_large())
            } else {
                match sp_compile_pairs(m, pairs@) {
                    Err(e) => Err(e),
                    Ok(m1) => Ok(
                        sp_emit(m1, Opcode::OpHash, seq![(pairs@.len() * 2) as usize]),
                    ),
                }
            }
        },
        Expression::IndexExpression { left, index } => match sp_compile_expr(m, *left) {
            Err(e) => Err(e),
            Ok(m1) => match sp_compile_expr(m1, *index) {
                Err(e) => Err(e),
                Ok(m2) => Ok(sp_emit(m2, Opcode::OpIndex, Seq::<usize>::empty())),
            },
        },
        Expression::FunctionLiteral { parameters, body } => {
            let m1 = sp_enter_scope(m);
            let m2 = CompModel { symbols: sp_define_params(m1.symbols, parameters@), ..m1 };
            match sp_compile_stmts(m2, body.statements@) {
                Err(e) => Err(e),
                Ok(m3) => {
                    let m4 = if sp_last_is(m3, Opcode::OpPop) {
                        sp_replace_last_with_return(m3)
                    } else {
                        m3
                    };
                    let m5 = if !sp_last_is(m4, Opcode::OpReturnValue) {
                        sp_emit(m4, Opcode::OpReturn, Seq::<usize>::empty())
                    } else {
                        m4
                    };
                    let num_locals = m5.symbols.last().count;
                    let ins = m5.scopes.last().ins;
                    let m6 = sp_leave_scope(m5);
                    let idx = m6.constants.len() as usize;
                    let m7 = sp_add_constant(m6, ObjModel::Func(ins, num_locals as nat));
                    Ok(sp_emit(m7, Opcode::OpConstant, seq![idx]))
                },
            }
        },
        Expression::CallExpression { function, arguments } => match sp_compile_expr(m, *function) {
            Err(e) => Err(e),
            Ok(m1) => match sp_compile_exprs(m1, arguments@) {
                Err(e) => Err(e),
                Ok(m2) => Ok(sp_emit(m2, Opcode::OpCall, seq![arguments@.len() as usize])),
            },
        },
    }
}

/// What compiling a whole program does: its statements in order.
pub open spec fn sp_compile_program(m: CompModel, p: Program) -> Result<CompModel, Seq<char>> {
    sp_compile_stmts(m, p.statements@)
}

proof fn lemma_define_params_depth(symbols: Seq<TableModel>, ps: Seq<String>)
    requires
        symbols.len() >= 1,
    ensures
        sp_define_params(symbols, ps).len() == symbols.len(),
    decreases ps,
{
    if ps.len() > 0 {
        lemma_define_params_depth(spec_define(symbols, ps[0]@), ps.subrange(1, ps.len() as int));
    }
}

/// Compiling a statement never changes how many compilation scopes or
/// symbol scopes are open.
#[verifier::rlimit(50)]
proof fn lemma_depth_stmt(m: CompModel, s: Statement)
    requires
        m.scopes.len() >= 1,
        m.symbols.len() >= 1,
        sp_compile_stmt(m, s) is Ok,
    ensures
        sp_compile_stmt(m, s)->Ok_0.scopes.len() == m.scopes.len(),
        sp_compile_stmt(m, s)->Ok_0.symbols.len() == m.symbols.len(),
    decreases s,
{
    match s {
        Statement::ExpressionStatement { expression } => {
            lemma_depth_expr(m, expression);
        },
        Statement::LetStatement { name, value } => {
            lemma_depth_expr(m, value);
        },
        Statement::ReturnStatement { return_value } => {
            lemma_depth_expr(m, return_value);
        },
    }
}

#[verifier::rlimit(50)]
proof fn lemma_depth_stmts(m: CompModel, ss: Seq<Statement>)
    requires
        m.scopes.len() >= 1,
        m.symbols.len() >= 1,
        sp_compile_stmts(m, ss) is Ok,
    ensures
        sp_compile_stmts(m, ss)->Ok_0.scopes.len() == m.scopes.len(),
        sp_compile_stmts(m, ss)->Ok_0.symbols.len() == m.symbols.len(),
    decreases ss,
{
    if ss.len() > 0 {
        lemma_depth_stmt(m, ss[0]);
        let m1 = sp_compile_stmt(m, ss[0])->Ok_0;
        lemma_depth_stmts(m1, ss.subrange(1, ss.len() as int));
    }
}

#[verifier::rlimit(50)]
proof fn lemma_depth_exprs(m: CompModel, es: Seq<Expression>)
    requires
        m.scopes.len() >= 1,
        m.symbols.len() >= 1,
        sp_compile_exprs(m, es) is Ok,
    ensures
        sp_compile_exprs(m, es)->Ok_0.scopes.len() == m.scopes.len(),
        sp_compile_exprs(m, es)->Ok_0.symbols.len() == m.symbols.len(),
    decreases es,
{
    if es.len() > 0 {
        lemma_depth_expr(m, es[0]);
        let m1 = sp_compile_expr(m, es[0])->Ok_0;
        lemma_depth_exprs(m1, es.subrange(1, es.len() as int));
    }
}

#[verifier::rlimit(50)]
proof fn lemma_depth_pairs(m: CompModel, ps: Seq<(Expression, Expression)>)
    requires
        m.scopes.len() >= 1,
        m.symbols.len() >= 1,
        sp_compile_pairs(m, ps) is Ok,
    ensures
        sp_compile_pairs(m, ps)->Ok_0.scopes.len() == m.scopes.len(),
        sp_compile_pairs(m, ps)->Ok_0.symbols.len() == m.symbols.len(),
    decreases ps,
{
    if ps.len() > 0 {
        lemma_depth_expr(m, ps[0].0);
        let m1 = sp_compile_expr(m, ps[0].0)->Ok_0;
        lemma_depth_expr(m1, ps[0].1);
        let m2 = sp_compile_expr(m1, ps[0].1)->Ok_0;
        lemma_depth_pairs(m2, ps.subrange(1, ps.len() as int));
    }
}

#[verifier::rlimit(50)]
proof fn lemma_depth_expr(m: CompModel, e: Expression)
    requires
        m.scopes.len() >= 1,
        m.symbols.len() >= 1,
        sp_compile_expr(m, e) is Ok,
    ensures
        sp_compile_expr(m, e)->Ok_0.scopes.len() == m.scopes.len(),
        sp_compile_expr(m, e)->Ok_0.symbols.len() == m.symbols.len(),
    decreases e,
{
    match e {
        Expression::PrefixExpression { operator, right } => {
            lemma_depth_expr(m, *right);
        },
        Expression::InfixExpression { operator, left, right } => {
            if operator@ == "<"@ {
                lemma_depth_expr(m, *right);
                lemma_depth_expr(sp_compile_expr(m, *right)->Ok_0, *left);
            } else {
                lemma_depth_expr(m, *left);
                lemma_depth_expr(sp_compile_expr(m, *left)->Ok_0, *right);
            }
        },
        Expression::IfExpression { condition, consequence, alternative } => {
            lemma_depth_expr(m, *condition);
            let m1 = sp_compile_expr(m, *condition)->Ok_0;
            let m2 = sp_emit(m1, Opcode::OpJumpNotTruthy, seq![jump_placeholder()]);
            lemma_depth_stmts(m2, consequence.statements@);
            let m3 = sp_compile_stmts(m2, consequence.statements@)->Ok_0;
            let m4 = if sp_last_is(m3, Opcode::OpPop) {
                sp_remove_last(m3)
            } else {
                m3
            };
            let m5 = sp_emit(m4, Opcode::OpJump, seq![jump_placeholder()]);
            let m6 = sp_change_operand(m5, sp_emit_pos(m1), m5.scopes.last().ins.len() as usize);
            match alternative {
                None => {},
                Some(alt) => {
                    lemma_depth_stmts(m6, alt.statements@);
                },
            }
        },
        Expression::ArrayLiteral { elements } => {
            lemma_depth_exprs(m, elements@);
        },
        Expression::HashLiteral { pairs } => {
            if pairs@.len() <= usize::MAX / 2 {
                lemma_depth_pairs(m, pairs@);
            }
        },
        Expression::IndexExpression { left, index } => {
            lemma_depth_expr(m, *left);
            lemma_depth_expr(sp_compile_expr(m, *left)->Ok_0, *index);
        },
        Expression::FunctionLiteral { parameters, body } => {
            let m1 = sp_enter_scope(m);
            lemma_define_params_depth(m1.symbols, parameters@);
            let m2 = CompModel { symbols: sp_define_params(m1.symbols, parameters@), ..m1 };
            lemma_depth_stmts(m2, body.statements@);
        },
        Expression::CallExpression { function, arguments } => {
            lemma_depth_expr(m, *function);
            lemma_depth_exprs(sp_compile_expr(m, *function)->Ok_0, arguments@);
        },
        _ => {},
    }
}

impl Compiler {
    /// Whether a string equals the given literal.
    fn str_is(s: &String, lit: &str) -> (r: bool)
        ensures
            r == (s@ == lit@),
    {
        *s == lit.to_owned()
    }

    /// The current scope's instructions.
    pub fn current_instructions(&self) -> (r: &Instructions)
        requires
            self.wf(),
        ensures
            r@ == self@.scopes.last().ins,
    {
        &self.scopes[self.scope_index].instructions
    }

    /// Emits an opcode that takes exactly one operand.
    fn emit_one(&mut self, op: Opcode, operand: usize) -> (pos: usize)
        requires
            old(self).wf(),
            op_widths(op).len() == 1,
        ensures
            final(self).wf(),
            final(self)@ == sp_emit(old(self)@, op, seq![operand]),
            pos == sp_emit_pos(old(self)@),
    {
        let mut operands: Vec<usize> = Vec::new();
        operands.push(operand);
        proof {
            assert(operands@ =~= seq![operand]);
        }
        self.emit_with_operands(op, operands.as_slice())
    }

    /// Compiles a whole program: its statements in order, each followed
    /// by whatever stack cleanup it demands. On an error the constants
    /// and symbol tables keep whatever the partial compilation added.
    pub fn compile(&mut self, program: Program) -> (r: Result<(), String>)
        requires
            old(self).wf(),
        ensures
            final(self).wf(),
            match r {
                Ok(_) => sp_compile_program(old(self)@, program) == Ok::<CompModel, Seq<char>>(
                    final(self)@,
                ),
                Err(e) => sp_compile_program(old(self)@, program) == Err::<CompModel, Seq<char>>(
                    e@,
                ),
            },
    {
        self.compile_stmts(&program.statements)
    }

    /// Compiles a statement list in order; the first error aborts.
    #[verifier::rlimit(100)]
    fn compile_stmts(&mut self, stmts: &Vec<Statement>) -> (r: Result<(), String>)
        requires
            old(self).wf(),
        ensures
            final(self).wf(),
            match r {
                Ok(_) => sp_compile_stmts(old(self)@, stmts@) == Ok::<CompModel, Seq<char>>(
                    final(self)@,
                ),
                Err(e) => sp_compile_stmts(old(self)@, stmts@) == Err::<CompModel, Seq<char>>(e@),
            },
        decreases stmts@, 0int,
    {
        proof {
            assert(stmts@.skip(0) =~= stmts@);
        }
        let n = stmts.len();
        let mut i: usize = 0;
        while i < n
            invariant
                self.wf(),
                n == stmts@.len(),
                i <= n,
                sp_compile_stmts(old(self)@, stmts@) == sp_compile_stmts(
                    self@,
                    stmts@.skip(i as int),
                ),
            decreases n - i,
        {
            let ghost pre = self@;
            let ghost rest = stmts@.skip(i as int);
            proof {
                assert(rest[0] == stmts@[i as int]);
                assert(decreases_to!(stmts@ => stmts@[i as int]));
            }
            match self.compile_stmt(&stmts[i]) {
                Err(e) => {
                    proof {
                        assert(sp_compile_stmts(pre, rest) == Err::<CompModel, Seq<char>>(e@));
                    }
                    return Err(e);
                },
                Ok(_) => {},
            }
            proof {
                assert(rest.subrange(1, rest.len() as int) =~= stmts@.skip(i + 1));
                assert(sp_compile_stmts(pre, rest) == sp_compile_stmts(
                    self@,
                    stmts@.skip(i + 1),
                ));
            }
            i = i + 1;
        }
        proof {
            assert(stmts@.skip(n as int) =~= Seq::<Statement>::empty());
        }
        Ok(())
    }

    /// Compiles one statement.
    #[verifier::rlimit(100)]
    fn compile_stmt(&mut self, s: &Statement) -> (r: Result<(), String>)
        requires
            old(self).wf(),
        ensures
            final(self).wf(),
            match r {
                Ok(_) => sp_compile_stmt(old(self)@, *s) == Ok::<CompModel, Seq<char>>(
                    final(self)@,
                ),
                Err(e) => sp_compile_stmt(old(self)@, *s) == Err::<CompModel, Seq<char>>(e@),
            },
        decreases *s, 0int,
    {
        match s {
            Statement::ExpressionStatement { expression } => {
                match self.compile_expr(expression) {
                    Err(e) => {
                        return Err(e);
                    },
                    Ok(_) => {},
                }
                self.emit(Opcode::OpPop);
                Ok(())
            },
            Statement::LetStatement { name, value } => {
                match self.compile_expr(value) {
                    Err(e) => {
                        return Err(e);
                    },
                    Ok(_) => {},
                }
                if self.symbol_table_stack.last().num_definitions == usize::MAX {
                    return Err(String::from_str("symbol table full"));
                }
                let symbol = self.symbol_table_stack.define(name.as_str());
                let op = if symbol.is_global() {
                    Opcode::OpSetGlobal
                } else {
                    Opcode::OpSetLocal
                };
                let index = symbol.index;
                self.emit_one(op, index);
                Ok(())
            },
            Statement::ReturnStatement { return_value } => {
                match self.compile_expr(return_value) {
                    Err(e) => {
                        return Err(e);
                    },
                    Ok(_) => {},
                }
                self.emit(Opcode::OpReturnValue);
                Ok(())
            },
        }
    }

    /// Compiles an expression list left to right; the first error aborts.
    #[verifier::rlimit(100)]
    fn compile_exprs(&mut self, es: &Vec<Expression>) -> (r: Result<(), String>)
        requires
            old(self).wf(),
        ensures
            final(self).wf(),
            match r {
                Ok(_) => sp_compile_exprs(old(self)@, es@) == Ok::<CompModel, Seq<char>>(
                    final(self)@,
                ),
                Err(e) => sp_compile_exprs(old(self)@, es@) == Err::<CompModel, Seq<char>>(e@),
            },
        decreases es@, 0int,
    {
        proof {
            assert(es@.skip(0) =~= es@);
        }
        let n = es.len();
        let mut i: usize = 0;
        while i < n
            invariant
                self.wf(),
                n == es@.len(),
                i <= n,
                sp_compile_exprs(old(self)@, es@) == sp_compile_exprs(self@, es@.skip(i as int)),
            decreases n - i,
        {
            let ghost pre = self@;
            let ghost rest = es@.skip(i as int);
            proof {
                assert(rest[0] == es@[i as int]);
                assert(decreases_to!(es@ => es@[i as int]));
            }
            match self.compile_expr(&es[i]) {
                Err(e) => {
                    proof {
                        assert(sp_compile_exprs(pre, rest) == Err::<CompModel, Seq<char>>(e@));
                    }
                    return Err(e);
                },
                Ok(_) => {},
            }
            proof {
                assert(rest.subrange(1, rest.len() as int) =~= es@.skip(i + 1));
                assert(sp_compile_exprs(pre, rest) == sp_compile_exprs(self@, es@.skip(i + 1)));
            }
            i = i + 1;
        }
        proof {
            assert(es@.skip(n as int) =~= Seq::<Expression>::empty());
        }
        Ok(())
    }

    /// Compiles one expression.
    #[verifier::rlimit(100)]
    fn compile_expr(&mut self, e: &Expression) -> (r: Result<(), String>)
        requires
            old(self).wf(),
        ensures
            final(self).wf(),
            match r {
                Ok(_) => sp_compile_expr(old(self)@, *e) == Ok::<CompModel, Seq<char>>(
                    final(self)@,
                ),
                Err(msg) => sp_compile_expr(old(self)@, *e) == Err::<CompModel, Seq<char>>(msg@),
            },
        decreases *e, 1int,
    {
        match e {
            Expression::IntegerLiteral { value } => {
                let integer = Object::Integer(*value);
                let constant = self.add_constant(integer);
                self.emit_one(Opcode::OpConstant, constant);
                Ok(())
            },
            Expression::BooleanLiteral { value } => {
                if *value {
                    self.emit(Opcode::OpTrue);
                } else {
                    self.emit(Opcode::OpFalse);
                }
                Ok(())
            },
            Expression::StringLiteral { value } => {
                let string = Object::Str(value.clone());
                let constant = self.add_constant(string);
                self.emit_one(Opcode::OpConstant, constant);
                Ok(())
            },
            Expression::Identifier { value } => {
                let symbol = match self.symbol_table_stack.resolve(value.as_str()) {
                    Some(symbol) => symbol,
                    None => {
                        return Err(
                            String::from_str("undefined variable: ").concat(value.as_str()),
                        );
                    },
                };
                let op = if symbol.is_global() {
                    Opcode::OpGetGlobal
                } else {
                    Opcode::OpGetLocal
                };
                let index = symbol.index;
                self.emit_one(op, index);
                Ok(())
            },
            Expression::PrefixExpression { operator, right } => {
                match self.compile_expr(&**right) {
                    Err(e) => {
                        return Err(e);
                    },
                    Ok(_) => {},
                }
                if Compiler::str_is(operator, "!") {
                    self.emit(Opcode::OpBang);
                    Ok(())
                } else if Compiler::str_is(operator, "-") {
                    self.emit(Opcode::OpMinus);
                    Ok(())
                } else {
                    Err(String::from_str("unknown operator ").concat(operator.as_str()))
                }
            },
            Expression::InfixExpression { operator, left, right } => {
                if Compiler::str_is(operator, "<") {
                    match self.compile_expr(&**right) {
                        Err(e) => {
                            return Err(e);
                        },
                        Ok(_) => {},
                    }
                    match self.compile_expr(&**left) {
                        Err(e) => {
                            return Err(e);
                        },
                        Ok(_) => {},
                    }
                    self.emit(Opcode::OpGreaterThan);
                    return Ok(());
                }
                match self.compile_expr(&**left) {
                    Err(e) => {
                        return Err(e);
                    },
                    Ok(_) => {},
                }
                match self.compile_expr(&**right) {
                    Err(e) => {
                        return Err(e);
                    },
                    Ok(_) => {},
                }
                if Compiler::str_is(operator, "+") {
                    self.emit(Opcode::OpAdd);
                    Ok(())
                } else if Compiler::str_is(operator, "-") {
                    self.emit(Opcode::OpSub);
                    Ok(())
                } else if Compiler::str_is(operator, "*") {
                    self.emit(Opcode::OpMul);
                    Ok(())
                } else if Compiler::str_is(operator, "/") {
                    self.emit(Opcode::OpDiv);
                    Ok(())
                } else if Compiler::str_is(operator, ">") {
                    self.emit(Opcode::OpGreaterThan);
                    Ok(())
                } else if Compiler::str_is(operator, "==") {
                    self.emit(Opcode::OpEqual);
                    Ok(())
                } else if Compiler::str_is(operator, "!=") {
                    self.emit(Opcode::OpNotEqual);
                    Ok(())
                } else {
                    Err(String::from_str("unknown operator ").concat(operator.as_str()))
                }
            },
            Expression::IfExpression { .. } => self.compile_if_expression(e),
            Expression::ArrayLiteral { elements } => {
                let n = elements.len();
                match self.compile_exprs(elements) {
                    Err(e) => {
                        return Err(e);
                    },
                    Ok(_) => {},
                }
                self.emit_one(Opcode::OpArray, n);
                Ok(())
            },
            Expression::HashLiteral { .. } => self.compile_hash_literal(e),
            Expression::IndexExpression { left, index } => {
                match self.compile_expr(&**left) {
                    Err(e) => {
                        return Err(e);
                    },
                    Ok(_) => {},
                }
                match self.compile_expr(&**index) {
                    Err(e) => {
                        return Err(e);
                    },
                    Ok(_) => {},
                }
                self.emit(Opcode::OpIndex);
                Ok(())
            },
            Expression::FunctionLiteral { .. } => self.compile_function_literal(e),
            Expression::CallExpression { function, arguments } => {
                match self.compile_expr(&**function) {
                    Err(e) => {
                        return Err(e);
                    },
                    Ok(_) => {},
                }
                let argc = arguments.len();
                match self.compile_exprs(arguments) {
                    Err(e) => {
                        return Err(e);
                    },
                    Ok(_) => {},
                }
                self.emit_one(Opcode::OpCall, argc);
                Ok(())
            },
        }
    }

    /// Compiles one `if` expression.
    #[verifier::rlimit(100)]
    fn compile_if_expression(&mut self, e: &Expression) -> (r: Result<(), String>)
        requires
            old(self).wf(),
            *e matches Expression::IfExpression { condition, consequence, alternative },
        ensures
            final(self).wf(),
            match r {
                Ok(_) => sp_compile_expr(old(self)@, *e) == Ok::<CompModel, Seq<char>>(
                    final(self)@,
                ),
                Err(msg) => sp_compile_expr(old(self)@, *e) == Err::<CompModel, Seq<char>>(msg@),
            },
        decreases *e, 0int,
    {
        match e {
            Expression::IfExpression { condition, consequence, alternative } => {
                match self.compile_expr(&**condition) {
                    Err(e) => {
                        return Err(e);
                    },
                    Ok(_) => {},
                }
                let jump_not_truthy_pos = self.emit_one(Opcode::OpJumpNotTruthy, 9999);
                match self.compile_stmts(&consequence.statements) {
                    Err(e) => {
                        return Err(e);
                    },
                    Ok(_) => {},
                }
                if self.last_instruction_is(Opcode::OpPop) {
                    self.remove_last_pop();
                }
                let jump_pos = self.emit_one(Opcode::OpJump, 9999);
                let after_consequence_pos = self.current_instructions().0.len();
                self.change_operand(jump_not_truthy_pos, after_consequence_pos);
                match alternative {
                    Some(alt) => {
                        match self.compile_stmts(&alt.statements) {
                            Err(e) => {
                                return Err(e);
                            },
                            Ok(_) => {},
                        }
                        if self.last_instruction_is(Opcode::OpPop) {
                            self.remove_last_pop();
                        }
                    },
                    None => {
                        self.emit(Opcode::OpNull);
                    },
                }
                let after_alternative_pos = self.current_instructions().0.len();
                self.change_operand(jump_pos, after_alternative_pos);
                Ok(())
            },
            _ => {
                proof {
                    assert(false);
                }
                Ok(())
            },
        }
    }

    /// Compiles one `hash literal` expression.
    #[verifier::rlimit(100)]
    fn compile_hash_literal(&mut self, e: &Expression) -> (r: Result<(), String>)
        requires
            old(self).wf(),
            *e matches Expression::HashLiteral { pairs },
        ensures
            final(self).wf(),
            match r {
                Ok(_) => sp_compile_expr(old(self)@, *e) == Ok::<CompModel, Seq<char>>(
                    final(self)@,
                ),
                Err(msg) => sp_compile_expr(old(self)@, *e) == Err::<CompModel, Seq<char>>(msg@),
            },
        decreases *e, 0int,
    {
        match e {
            Expression::HashLiteral { pairs } => {
                let n = pairs.len();
                if n > usize::MAX / 2 {
                    return Err(String::from_str("hash literal too large"));
                }
                proof {
                    assert(pairs@.skip(0) =~= pairs@);
                }
                let count = pairs.len();
                let mut i: usize = 0;
                while i < count
                    invariant
                        self.wf(),
                        *e == (Expression::HashLiteral { pairs: *pairs }),
                        count == pairs@.len(),
                        count <= usize::MAX / 2,
                        i <= count,
                        sp_compile_pairs(old(self)@, pairs@) == sp_compile_pairs(
                            self@,
                            pairs@.skip(i as int),
                        ),
                    decreases count - i,
                {
                    let ghost pre = self@;
                    let ghost rest = pairs@.skip(i as int);
                    proof {
                        assert(rest[0] == pairs@[i as int]);
                        let ghost ov = *e;
                        assert(decreases_to!(ov => ov->HashLiteral_pairs));
                        assert(ov->HashLiteral_pairs == *pairs);
                        assert(decreases_to!(*pairs => pairs@));
                        assert(decreases_to!(pairs@ => pairs@[i as int]));
                        assert(decreases_to!(pairs@[i as int] => pairs@[i as int].0));
                        assert(decreases_to!(pairs@[i as int] => pairs@[i as int].1));
                    }
                    match self.compile_expr(&pairs[i].0) {
                        Err(e) => {
                            proof {
                                assert(sp_compile_pairs(pre, rest) == Err::<CompModel, Seq<char>>(
                                    e@,
                                ));
                            }
                            return Err(e);
                        },
                        Ok(_) => {},
                    }
                    match self.compile_expr(&pairs[i].1) {
                        Err(e) => {
                            proof {
                                assert(sp_compile_pairs(pre, rest) == Err::<CompModel, Seq<char>>(
                                    e@,
                                ));
                            }
                            return Err(e);
                        },
                        Ok(_) => {},
                    }
                    proof {
                        assert(rest.subrange(1, rest.len() as int) =~= pairs@.skip(i + 1));
                        assert(sp_compile_pairs(pre, rest) == sp_compile_pairs(
                            self@,
                            pairs@.skip(i + 1),
                        ));
                    }
                    i = i + 1;
                }
                proof {
                    assert(pairs@.skip(count as int) =~= Seq::<(Expression, Expression)>::empty());
                }
                self.emit_one(Opcode::OpHash, count * 2);
                proof {
                    assert(count * 2 == (pairs@.len() * 2) as usize);
                }
                Ok(())
            },
            _ => {
                proof {
                    assert(false);
                }
                Ok(())
            },
        }
    }

    /// Compiles one `function literal` expression.
    #[verifier::rlimit(100)]
    fn compile_function_literal(&mut self, e: &Expression) -> (r: Result<(), String>)
        requires
            old(self).wf(),
            *e matches Expression::FunctionLiteral { parameters, body },
        ensures
            final(self).wf(),
            match r {
                Ok(_) => sp_compile_expr(old(self)@, *e) == Ok::<CompModel, Seq<char>>(
                    final(self)@,
                ),
                Err(msg) => sp_compile_expr(old(self)@, *e) == Err::<CompModel, Seq<char>>(msg@),
            },
        decreases *e, 0int,
    {
        match e {
            Expression::FunctionLiteral { parameters, body } => {
                self.enter_scope();
                let ghost entered = self@;
                proof {
                    assert(parameters@.skip(0) =~= parameters@);
                }
                let pcount = parameters.len();
                let mut pi: usize = 0;
                while pi < pcount
                    invariant
                        self.wf(),
                        pcount == parameters@.len(),
                        pi <= pcount,
                        self@.symbols.len() >= 2,
                        self@.symbols.last().count == pi,
                        self@.scopes == entered.scopes,
                        self@.constants == entered.constants,
                        sp_define_params(entered.symbols, parameters@) == sp_define_params(
                            self@.symbols,
                            parameters@.skip(pi as int),
                        ),
                    decreases pcount - pi,
                {
                    let ghost pre_symbols = self@.symbols;
                    let ghost rest = parameters@.skip(pi as int);
                    proof {
                        assert(rest[0] == parameters@[pi as int]);
                    }
                    let _ = self.symbol_table_stack.define(parameters[pi].as_str());
                    proof {
                        assert(rest.subrange(1, rest.len() as int) =~= parameters@.skip(pi + 1));
                        assert(sp_define_params(pre_symbols, rest) == sp_define_params(
                            self@.symbols,
                            parameters@.skip(pi + 1),
                        ));
                    }
                    pi = pi + 1;
                }
                proof {
                    assert(parameters@.skip(pcount as int) =~= Seq::<String>::empty());
                    assert(self@ =~~= (CompModel {
                        symbols: sp_define_params(entered.symbols, parameters@),
                        ..entered
                    }));
                }
                let ghost with_params = self@;
                match self.compile_stmts(&body.statements) {
                    Err(e) => {
                        return Err(e);
                    },
                    Ok(_) => {},
                }
                proof {
                    lemma_depth_stmts(with_params, body.statements@);
                }
                if self.last_instruction_is(Opcode::OpPop) {
                    self.replace_last_pop_with_return();
                }
                if !self.last_instruction_is(Opcode::OpReturnValue) {
                    self.emit(Opcode::OpReturn);
                }
                let num_locals = self.symbol_table_stack.last().num_definitions;
                let instructions = self.leave_scope();
                let compiled_fn = Object::CompiledFunction(
                    CompiledFunction { instructions, num_locals },
                );
                let operand = self.add_constant(compiled_fn);
                self.emit_one(Opcode::OpConstant, operand);
                Ok(())
            },
            _ => {
                proof {
                    assert(false);
                }
                Ok(())
            },
        }
    }

}

} // verus!

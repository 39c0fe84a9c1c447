//! Opcode set, instruction encoder/decoder and disassembler.
//!
//! An instruction stream is a byte sequence: each instruction is an opcode
//! byte followed by zero or more big-endian operands whose widths (1 or 2
//! bytes) are fixed per opcode.

use vstd::prelude::*;
use vstd::string::StringExecFns;

verus! {

/// A linear sequence of encoded instructions.
#[derive(Debug, PartialEq, Eq)]
pub struct Instructions(pub Vec<u8>);

impl View for Instructions {
    type V = Seq<u8>;

    open spec fn view(&self) -> Seq<u8> {
        self.0@
    }
}

/// The closed opcode enumeration. The wire encoding of each opcode is its
/// position in this declaration order, starting from 0.
#[derive(Clone, Copy, Debug, PartialEq, Eq, Structural)]
pub enum Opcode {
    OpConstant,
    OpAdd,
    OpPop,
    OpSub,
    OpMul,
    OpDiv,
    OpTrue,
    OpFalse,
    OpEqual,
    OpNotEqual,
    OpGreaterThan,
    OpMinus,
    OpBang,
    OpJumpNotTruthy,
    OpJump,
    OpNull,
    OpGetGlobal,
    OpSetGlobal,
    OpArray,
    OpHash,
    OpIndex,
    OpCall,
    OpReturnValue,
    OpReturn,
    OpGetLocal,
    OpSetLocal,
}

/// The byte that encodes an opcode.
pub open spec fn op_byte(op: Opcode) -> u8 {
    match op {
        Opcode::OpConstant => 0,
        Opcode::OpAdd => 1,
        Opcode::OpPop => 2,
        Opcode::OpSub => 3,
        Opcode::OpMul => 4,
        Opcode::OpDiv => 5,
        Opcode::OpTrue => 6,
        Opcode::OpFalse => 7,
        Opcode::OpEqual => 8,
        Opcode::OpNotEqual => 9,
        Opcode::OpGreaterThan => 10,
        Opcode::OpMinus => 11,
        Opcode::OpBang => 12,
        Opcode::OpJumpNotTruthy => 13,
        Opcode::OpJump => 14,
        Opcode::OpNull => 15,
        Opcode::OpGetGlobal => 16,
        Opcode::OpSetGlobal => 17,
        Opcode::OpArray => 18,
        Opcode::OpHash => 19,
        Opcode::OpIndex => 20,
        Opcode::OpCall => 21,
        Opcode::OpReturnValue => 22,
        Opcode::OpReturn => 23,
        Opcode::OpGetLocal => 24,
        Opcode::OpSetLocal => 25,
    }
}

/// The opcode a byte decodes to, if any.
pub open spec fn op_of_byte(b: u8) -> Option<Opcode> {
    match b {
        0 => Some(Opcode::OpConstant),
        1 => Some(Opcode::OpAdd),
        2 => Some(Opcode::OpPop),
        3 => Some(Opcode::OpSub),
        4 => Some(Opcode::OpMul),
        5 => Some(Opcode::OpDiv),
        6 => Some(Opcode::OpTrue),
        7 => Some(Opcode::OpFalse),
        8 => Some(Opcode::OpEqual),
        9 => Some(Opcode::OpNotEqual),
        10 => Some(Opcode::OpGreaterThan),
        11 => Some(Opcode::OpMinus),
        12 => Some(Opcode::OpBang),
        13 => Some(Opcode::OpJumpNotTruthy),
        14 => Some(Opcode::OpJump),
        15 => Some(Opcode::OpNull),
        16 => Some(Opcode::OpGetGlobal),
        17 => Some(Opcode::OpSetGlobal),
        18 => Some(Opcode::OpArray),
        19 => Some(Opcode::OpHash),
        20 => Some(Opcode::OpIndex),
        21 => Some(Opcode::OpCall),
        22 => Some(Opcode::OpReturnValue),
        23 => Some(Opcode::OpReturn),
        24 => Some(Opcode::OpGetLocal),
        25 => Some(Opcode::OpSetLocal),
        _ => None,
    }
}

/// Encoding and decoding invert each other on single opcode bytes.
pub proof fn lemma_op_byte_round_trip(op: Opcode)
    ensures
        op_of_byte(op_byte(op)) == Some(op),
{
}

/// The operand widths of an opcode, in operand order.
pub open spec fn op_widths(op: Opcode) -> Seq<usize> {
    match op {
        Opcode::OpConstant => seq![2usize],
        Opcode::OpJumpNotTruthy => seq![2usize],
        Opcode::OpJump => seq![2usize],
        Opcode::OpGetGlobal => seq![2usize],
        Opcode::OpSetGlobal => seq![2usize],
        Opcode::OpArray => seq![2usize],
        Opcode::OpHash => seq![2usize],
        Opcode::OpCall => seq![1usize],
        Opcode::OpGetLocal => seq![1usize],
        Opcode::OpSetLocal => seq![1usize],
        _ => Seq::<usize>::empty(),
    }
}

impl Opcode {
    /// The wire encoding of this opcode.
    pub fn byte(self) -> (b: u8)
        ensures
            b == op_byte(self),
    {
        match self {
            Opcode::OpConstant => 0,
            Opcode::OpAdd => 1,
            Opcode::OpPop => 2,
            Opcode::OpSub => 3,
            Opcode::OpMul => 4,
            Opcode::OpDiv => 5,
            Opcode::OpTrue => 6,
            Opcode::OpFalse => 7,
            Opcode::OpEqual => 8,
            Opcode::OpNotEqual => 9,
            Opcode::OpGreaterThan => 10,
            Opcode::OpMinus => 11,
            Opcode::OpBang => 12,
            Opcode::OpJumpNotTruthy => 13,
            Opcode::OpJump => 14,
            Opcode::OpNull => 15,
            Opcode::OpGetGlobal => 16,
            Opcode::OpSetGlobal => 17,
            Opcode::OpArray => 18,
            Opcode::OpHash => 19,
            Opcode::OpIndex => 20,
            Opcode::OpCall => 21,
            Opcode::OpReturnValue => 22,
            Opcode::OpReturn => 23,
            Opcode::OpGetLocal => 24,
            Opcode::OpSetLocal => 25,
        }
    }

    /// Decodes a byte to an opcode, or `None` for a byte outside the table.
    pub fn from_byte(b: u8) -> (op: Option<Opcode>)
        ensures
            op == op_of_byte(b),
    {
        match b {
            0 => Some(Opcode::OpConstant),
            1 => Some(Opcode::OpAdd),
            2 => Some(Opcode::OpPop),
            3 => Some(Opcode::OpSub),
            4 => Some(Opcode::OpMul),
            5 => Some(Opcode::OpDiv),
            6 => Some(Opcode::OpTrue),
            7 => Some(Opcode::OpFalse),
            8 => Some(Opcode::OpEqual),
            9 => Some(Opcode::OpNotEqual),
            10 => Some(Opcode::OpGreaterThan),
            11 => Some(Opcode::OpMinus),
            12 => Some(Opcode::OpBang),
            13 => Some(Opcode::OpJumpNotTruthy),
            14 => Some(Opcode::OpJump),
            15 => Some(Opcode::OpNull),
            16 => Some(Opcode::OpGetGlobal),
            17 => Some(Opcode::OpSetGlobal),
            18 => Some(Opcode::OpArray),
            19 => Some(Opcode::OpHash),
            20 => Some(Opcode::OpIndex),
            21 => Some(Opcode::OpCall),
            22 => Some(Opcode::OpReturnValue),
            23 => Some(Opcode::OpReturn),
            24 => Some(Opcode::OpGetLocal),
            25 => Some(Opcode::OpSetLocal),
            _ => None,
        }
    }

    /// Decodes a byte known to be a valid opcode encoding.
    pub fn from(b: u8) -> (op: Opcode)
        requires
            op_of_byte(b) is Some,
        ensures
            Some(op) == op_of_byte(b),
    {
        Opcode::from_byte(b).unwrap()
    }
}

/// A disassembly table entry: the opcode's printable name and the widths of
/// its operands.
pub struct Definition {
    pub name: String,
    pub operand_width: Vec<usize>,
}

/// The printable name of an opcode.
pub open spec fn op_name(op: Opcode) -> Seq<char> {
    match op {
        Opcode::OpConstant => "OpConstant"@,
        Opcode::OpAdd => "OpAdd"@,
        Opcode::OpPop => "OpPop"@,
        Opcode::OpSub => "OpSub"@,
        Opcode::OpMul => "OpMul"@,
        Opcode::OpDiv => "OpDiv"@,
        Opcode::OpTrue => "OpTrue"@,
        Opcode::OpFalse => "OpFalse"@,
        Opcode::OpEqual => "OpEqual"@,
        Opcode::OpNotEqual => "OpNotEqual"@,
        Opcode::OpGreaterThan => "OpGreaterThan"@,
        Opcode::OpMinus => "OpMinus"@,
        Opcode::OpBang => "OpBang"@,
        Opcode::OpJumpNotTruthy => "OpJumpNotTruthy"@,
        Opcode::OpJump => "OpJump"@,
        Opcode::OpNull => "OpNull"@,
        Opcode::OpGetGlobal => "OpGetGlobal"@,
        Opcode::OpSetGlobal => "OpSetGlobal"@,
        Opcode::OpArray => "OpArray"@,
        Opcode::OpHash => "OpHash"@,
        Opcode::OpIndex => "OpIndex"@,
        Opcode::OpCall => "OpCall"@,
        Opcode::OpReturnValue => "OpReturnValue"@,
        Opcode::OpReturn => "OpReturn"@,
        Opcode::OpGetLocal => "OpGetLocal"@,
        Opcode::OpSetLocal => "OpSetLocal"@,
    }
}

/// Looks an opcode up in the table of definitions.
pub fn lookup(op: &Opcode) -> (def: Definition)
    ensures
        def.name@ == op_name(*op),
        def.operand_width@ == op_widths(*op),
{
    let def = match op {
        Opcode::OpConstant => Definition {
            name: String::from_str("OpConstant"),
            operand_width: vec![2],
        },
        Opcode::OpAdd => Definition { name: String::from_str("OpAdd"), operand_width: vec![] },
        Opcode::OpPop => Definition { name: String::from_str("OpPop"), operand_width: vec![] },
        Opcode::OpSub => Definition { name: String::from_str("OpSub"), operand_width: vec![] },
        Opcode::OpMul => Definition { name: String::from_str("OpMul"), operand_width: vec![] },
        Opcode::OpDiv => Definition { name: String::from_str("OpDiv"), operand_width: vec![] },
        Opcode::OpTrue => Definition { name: String::from_str("OpTrue"), operand_width: vec![] },
        Opcode::OpFalse => Definition { name: String::from_str("OpFalse"), operand_width: vec![] },
        Opcode::OpEqual => Definition { name: String::from_str("OpEqual"), operand_width: vec![] },
        Opcode::OpNotEqual => Definition {
            name: String::from_str("OpNotEqual"),
            operand_width: vec![],
        },
        Opcode::OpGreaterThan => Definition {
            name: String::from_str("OpGreaterThan"),
            operand_width: vec![],
        },
        Opcode::OpMinus => Definition { name: String::from_str("OpMinus"), operand_width: vec![] },
        Opcode::OpBang => Definition { name: String::from_str("OpBang"), operand_width: vec![] },
        Opcode::OpJumpNotTruthy => Definition {
            name: String::from_str("OpJumpNotTruthy"),
            operand_width: vec![2],
        },
        Opcode::OpJump => Definition { name: String::from_str("OpJump"), operand_width: vec![2] },
        Opcode::OpNull => Definition { name: String::from_str("OpNull"), operand_width: vec![] },
        Opcode::OpGetGlobal => Definition {
            name: String::from_str("OpGetGlobal"),
            operand_width: vec![2],
        },
        Opcode::OpSetGlobal => Definition {
            name: String::from_str("OpSetGlobal"),
            operand_width: vec![2],
        },
        Opcode::OpArray => Definition { name: String::from_str("OpArray"), operand_width: vec![2] },
        Opcode::OpHash => Definition { name: String::from_str("OpHash"), operand_width: vec![2] },
        Opcode::OpIndex => Definition { name: String::from_str("OpIndex"), operand_width: vec![] },
        Opcode::OpCall => Definition { name: String::from_str("OpCall"), operand_width: vec![1] },
        Opcode::OpReturnValue => Definition {
            name: String::from_str("OpReturnValue"),
            operand_width: vec![],
        },
        Opcode::OpReturn => Definition {
            name: String::from_str("OpReturn"),
            operand_width: vec![],
        },
        Opcode::OpGetLocal => Definition {
            name: String::from_str("OpGetLocal"),
            operand_width: vec![1],
        },
        Opcode::OpSetLocal => Definition {
            name: String::from_str("OpSetLocal"),
            operand_width: vec![1],
        },
    };
    proof {
        assert(def.operand_width@ =~= op_widths(*op));
    }
    def
}

/// The big-endian encoding of one operand value in the given width.
/// Widths other than 1 and 2 encode to nothing; values too large for their
/// width are truncated to the low-order bytes.
pub open spec fn be_bytes(width: usize, val: usize) -> Seq<u8> {
    if width == 2 {
        seq![((val / 256) % 256) as u8, (val % 256) as u8]
    } else if width == 1 {
        seq![(val % 256) as u8]
    } else {
        Seq::<u8>::empty()
    }
}

/// The concatenated big-endian encoding of a vector of operands.
pub open spec fn encode_operands(widths: Seq<usize>, operands: Seq<usize>) -> Seq<u8>
    decreases widths.len(),
{
    if widths.len() == 0 || operands.len() == 0 {
        Seq::<u8>::empty()
    } else {
        be_bytes(widths[0], operands[0]) + encode_operands(widths.skip(1), operands.skip(1))
    }
}

/// The canonical encoding of a whole instruction: the opcode byte followed
/// by its encoded operands.
pub open spec fn encode_instruction(op: Opcode, operands: Seq<usize>) -> Seq<u8> {
    seq![op_byte(op)] + encode_operands(op_widths(op), operands)
}

/// Encodes an operand-less opcode as a one-byte instruction.
pub fn make(op: Opcode) -> (r: Instructions)
    ensures
        r@ == seq![op_byte(op)],
{
    let mut instruction: Vec<u8> = Vec::new();
    instruction.push(op.byte());
    proof {
        assert(instruction@ =~= seq![op_byte(op)]);
    }
    Instructions(instruction)
}

proof fn lemma_encode_operands_take_snoc(widths: Seq<usize>, operands: Seq<usize>, i: int)
    requires
        0 <= i < widths.len(),
        operands.len() == widths.len(),
    ensures
        encode_operands(widths.take(i + 1), operands.take(i + 1)) == encode_operands(
            widths.take(i),
            operands.take(i),
        ) + be_bytes(widths[i], operands[i]),
    decreases i,
{
    if i == 0 {
        assert(widths.take(1).skip(1) =~= widths.take(0));
        assert(operands.take(1).skip(1) =~= operands.take(0));
        assert(encode_operands(widths.take(0), operands.take(0)) + be_bytes(
            widths[0],
            operands[0],
        ) =~= be_bytes(widths[0], operands[0]));
        assert(be_bytes(widths[0], operands[0]) + Seq::<u8>::empty() =~= be_bytes(
            widths[0],
            operands[0],
        ));
    } else {
        let ws = widths.skip(1);
        let os = operands.skip(1);
        lemma_encode_operands_take_snoc(ws, os, i - 1);
        assert(widths.take(i + 1).skip(1) =~= ws.take(i));
        assert(operands.take(i + 1).skip(1) =~= os.take(i));
        assert(widths.take(i).skip(1) =~= ws.take(i - 1));
        assert(operands.take(i).skip(1) =~= os.take(i - 1));
        assert(encode_operands(widths.take(i + 1), operands.take(i + 1)) == be_bytes(
            widths[0],
            operands[0],
        ) + encode_operands(ws.take(i), os.take(i)));
        assert(be_bytes(widths[0], operands[0]) + (encode_operands(ws.take(i - 1), os.take(i - 1))
            + be_bytes(ws[i - 1], os[i - 1])) =~= (be_bytes(widths[0], operands[0])
            + encode_operands(ws.take(i - 1), os.take(i - 1))) + be_bytes(ws[i - 1], os[i - 1]));
    }
}

/// Encodes an opcode and its operand values as one instruction.
pub fn make_with_operands(op: Opcode, operands: &[usize]) -> (r: Instructions)
    requires
        operands@.len() == op_widths(op).len(),
    ensures
        r@ == encode_instruction(op, operands@),
{
    let def = lookup(&op);
    let mut instruction = make(op).0;

    let ghost widths = op_widths(op);
    let end = operands.len();
    let mut i: usize = 0;
    while i < end
        invariant
            end == operands@.len(),
            end == widths.len(),
            def.operand_width@ == widths,
            i <= end,
            instruction@ == seq![op_byte(op)] + encode_operands(
                widths.take(i as int),
                operands@.take(i as int),
            ),
        decreases end - i,
    {
        let width = def.operand_width[i];
        let o = operands[i];
        if width == 2 {
            instruction.push(((o / 256) % 256) as u8);
            instruction.push((o % 256) as u8);
        } else if width == 1 {
            instruction.push((o % 256) as u8);
        }
        proof {
            lemma_encode_operands_take_snoc(widths, operands@, i as int);
            assert(instruction@ =~= seq![op_byte(op)] + encode_operands(
                widths.take(i + 1),
                operands@.take(i + 1),
            ));
        }
        i = i + 1;
    }
    proof {
        assert(widths.take(end as int) =~= widths);
        assert(operands@.take(end as int) =~= operands@);
    }
    Instructions(instruction)
}

/// The total number of operand bytes demanded by a width vector.
pub open spec fn width_sum(widths: Seq<usize>) -> int
    decreases widths.len(),
{
    if widths.len() == 0 {
        0
    } else {
        widths[0] + width_sum(widths.skip(1))
    }
}

proof fn lemma_width_sum_nonneg(widths: Seq<usize>)
    ensures
        width_sum(widths) >= 0,
    decreases widths.len(),
{
    if widths.len() > 0 {
        lemma_width_sum_nonneg(widths.skip(1));
    }
}

proof fn lemma_width_sum_take_snoc(widths: Seq<usize>, i: int)
    requires
        0 <= i < widths.len(),
    ensures
        width_sum(widths.take(i + 1)) == width_sum(widths.take(i)) + widths[i],
    decreases i,
{
    if i == 0 {
        assert(widths.take(1).skip(1) =~= widths.take(0));
    } else {
        let ws = widths.skip(1);
        lemma_width_sum_take_snoc(ws, i - 1);
        assert(widths.take(i + 1).skip(1) =~= ws.take(i));
        assert(widths.take(i).skip(1) =~= ws.take(i - 1));
    }
}

proof fn lemma_width_sum_take_le(widths: Seq<usize>, i: int)
    requires
        0 <= i <= widths.len(),
    ensures
        width_sum(widths.take(i)) <= width_sum(widths),
    decreases widths.len() - i,
{
    if i == widths.len() {
        assert(widths.take(i) =~= widths);
    } else {
        lemma_width_sum_take_snoc(widths, i);
        lemma_width_sum_take_le(widths, i + 1);
    }
}

/// The value of a 16-bit big-endian operand.
pub open spec fn be16(hi: u8, lo: u8) -> usize {
    ((hi as int) * 256 + (lo as int)) as usize
}

/// The operand values read back from the bytes that follow an opcode,
/// according to a width vector. Widths other than 1 and 2 skip their bytes
/// without yielding a value.
pub open spec fn decode_operands(widths: Seq<usize>, bytes: Seq<u8>) -> Seq<usize>
    decreases widths.len(),
{
    if widths.len() == 0 {
        Seq::<usize>::empty()
    } else {
        let rest = decode_operands(widths.skip(1), bytes.skip(widths[0] as int));
        if widths[0] == 2 {
            seq![be16(bytes[0], bytes[1])] + rest
        } else if widths[0] == 1 {
            seq![bytes[0] as usize] + rest
        } else {
            rest
        }
    }
}

proof fn lemma_decode_operands_take_snoc(widths: Seq<usize>, bytes: Seq<u8>, i: int)
    requires
        0 <= i < widths.len(),
        width_sum(widths.take(i + 1)) <= bytes.len(),
    ensures
        decode_operands(widths.take(i + 1), bytes) == decode_operands(widths.take(i), bytes) + (
        if widths[i] == 2 {
            seq![be16(bytes[width_sum(widths.take(i))], bytes[width_sum(widths.take(i)) + 1])]
        } else if widths[i] == 1 {
            seq![bytes[width_sum(widths.take(i))] as usize]
        } else {
            Seq::<usize>::empty()
        }),
    decreases i,
{
    let here = if widths[i] == 2 {
        seq![be16(bytes[width_sum(widths.take(i))], bytes[width_sum(widths.take(i)) + 1])]
    } else if widths[i] == 1 {
        seq![bytes[width_sum(widths.take(i))] as usize]
    } else {
        Seq::<usize>::empty()
    };
    if i == 0 {
        reveal_with_fuel(decode_operands, 3);
        assert(widths.take(1).skip(1) =~= widths.take(0));
        assert(width_sum(widths.take(0)) == 0);
        assert(decode_operands(widths.take(0), bytes) + here =~= here);
        if widths[0] == 2 || widths[0] == 1 {
            assert(here + Seq::<usize>::empty() =~= here);
        } else {
            assert(decode_operands(widths.take(1), bytes) =~= decode_operands(
                widths.take(0),
                bytes,
            ) + here);
        }
    } else {
        let ws = widths.skip(1);
        assert(widths.take(i + 1).skip(1) =~= ws.take(i));
        lemma_width_sum_nonneg(ws.take(i));
        assert(width_sum(widths.take(i + 1)) == widths[0] + width_sum(ws.take(i)));
        let bs = bytes.skip(widths[0] as int);
        lemma_decode_operands_take_snoc(ws, bs, i - 1);
        assert(widths.take(i).skip(1) =~= ws.take(i - 1));
        lemma_width_sum_take_snoc(ws, i - 1);
        lemma_width_sum_nonneg(ws.take(i - 1));
        let off = width_sum(ws.take(i - 1));
        assert(off == width_sum(widths.take(i)) - widths[0]);
        assert(width_sum(ws.take(i)) == off + ws[i - 1]);
        if ws[i - 1] == 2 {
            assert(off + widths[0] + 2 <= bytes.len());
            assert(bs[off] == bytes[off + widths[0]]);
            assert(bs[off + 1] == bytes[off + widths[0] + 1]);
        } else if ws[i - 1] == 1 {
            assert(off + widths[0] + 1 <= bytes.len());
            assert(bs[off] == bytes[off + widths[0]]);
        }
        let sub_here = if ws[i - 1] == 2 {
            seq![be16(bs[off], bs[off + 1])]
        } else if ws[i - 1] == 1 {
            seq![bs[off] as usize]
        } else {
            Seq::<usize>::empty()
        };
        assert(sub_here =~= here);
        let rest0 = decode_operands(ws.take(i - 1), bs);
        assert(decode_operands(ws.take(i), bs) == rest0 + sub_here);
        if widths[0] == 2 {
            assert(decode_operands(widths.take(i + 1), bytes) == seq![be16(bytes[0], bytes[1])]
                + decode_operands(ws.take(i), bs));
            assert(decode_operands(widths.take(i), bytes) == seq![be16(bytes[0], bytes[1])]
                + rest0);
            assert(seq![be16(bytes[0], bytes[1])] + (rest0 + here) =~= (seq![
                be16(bytes[0], bytes[1])] + rest0) + here);
        } else if widths[0] == 1 {
            assert(seq![bytes[0] as usize] + (rest0 + here) =~= (seq![bytes[0] as usize] + rest0)
                + here);
        }
    }
}

/// Reads the operands that follow an opcode byte back out of an encoded
/// instruction; the second component is the number of bytes consumed,
/// excluding the opcode byte itself.
pub fn read_operands(def: &Definition, ins: &[u8]) -> (r: (Vec<usize>, usize))
    requires
        width_sum(def.operand_width@) <= ins@.len(),
    ensures
        r.0@ == decode_operands(def.operand_width@, ins@),
        r.1 == width_sum(def.operand_width@),
{
    let ghost widths = def.operand_width@;
    let mut operands: Vec<usize> = Vec::new();
    let mut offset: usize = 0;

    let ins_len = ins.len();
    let end = def.operand_width.len();
    let mut i: usize = 0;
    while i < end
        invariant
            end == widths.len(),
            def.operand_width@ == widths,
            ins_len == ins@.len(),
            width_sum(widths) <= ins@.len(),
            i <= end,
            offset == width_sum(widths.take(i as int)),
            operands@ == decode_operands(widths.take(i as int), ins@),
        decreases end - i,
    {
        let width = def.operand_width[i];
        proof {
            lemma_width_sum_take_snoc(widths, i as int);
            lemma_width_sum_take_le(widths, i + 1);
            lemma_decode_operands_take_snoc(widths, ins@, i as int);
        }
        if width == 2 {
            let hi = ins[offset];
            let lo = ins[offset + 1];
            operands.push((hi as usize) * 256 + (lo as usize));
            proof {
                assert((hi as usize) * 256 + (lo as usize) == be16(hi, lo));
            }
        } else if width == 1 {
            operands.push(ins[offset] as usize);
        }
        offset = offset + width;
        i = i + 1;
    }
    proof {
        assert(widths.take(end as int) =~= widths);
    }
    (operands, offset)
}

/// Reads the 16-bit big-endian operand that starts at `start`.
pub fn read_uint16(ins: &Instructions, start: usize) -> (r: u16)
    requires
        start + 2 <= ins@.len(),
    ensures
        r == (ins@[start as int] as int) * 256 + (ins@[start as int + 1] as int),
{
    let n = ins.0.len();
    let hi = ins.0[start];
    let lo = ins.0[start + 1];
    (hi as u16) * 256 + (lo as u16)
}

/// Reads the 8-bit operand that starts at `start`.
pub fn read_uint8(ins: &Instructions, start: usize) -> (r: u8)
    requires
        start < ins@.len(),
    ensures
        r == ins@[start as int],
{
    ins.0[start]
}

/// The byte streams of a sequence of instruction blocks, joined in order.
pub open spec fn flatten_instructions(blocks: Seq<Instructions>) -> Seq<u8>
    decreases blocks.len(),
{
    if blocks.len() == 0 {
        Seq::<u8>::empty()
    } else {
        blocks[0]@ + flatten_instructions(blocks.skip(1))
    }
}

proof fn lemma_flatten_instructions_take_snoc(blocks: Seq<Instructions>, i: int)
    requires
        0 <= i < blocks.len(),
    ensures
        flatten_instructions(blocks.take(i + 1)) == flatten_instructions(blocks.take(i))
            + blocks[i]@,
    decreases i,
{
    if i == 0 {
        assert(blocks.take(1).skip(1) =~= blocks.take(0));
        assert(flatten_instructions(blocks.take(0)) + blocks[0]@ =~= blocks[0]@);
        assert(blocks[0]@ + Seq::<u8>::empty() =~= blocks[0]@);
    } else {
        let bs = blocks.skip(1);
        lemma_flatten_instructions_take_snoc(bs, i - 1);
        assert(blocks.take(i + 1).skip(1) =~= bs.take(i));
        assert(blocks.take(i).skip(1) =~= bs.take(i - 1));
        assert(blocks[0]@ + (flatten_instructions(bs.take(i - 1)) + bs[i - 1]@) =~= (blocks[0]@
            + flatten_instructions(bs.take(i - 1))) + bs[i - 1]@);
    }
}

/// Joining a list of instruction blocks into one instruction stream.
pub trait ConcatInstructions {
    /// Joins the blocks in order into a single byte stream.
    fn concat(&self) -> (r: Instructions);
}

impl ConcatInstructions for Vec<Instructions> {
    fn concat(&self) -> (r: Instructions)
        ensures
            r@ == flatten_instructions(self@),
    {
        let mut out: Vec<u8> = Vec::new();
        let end = self.len();
        let mut i: usize = 0;
        while i < end
            invariant
                end == self@.len(),
                i <= end,
                out@ == flatten_instructions(self@.take(i as int)),
            decreases end - i,
        {
            let mut j: usize = 0;
            let block_len = self[i].0.len();
            while j < block_len
                invariant
                    end == self@.len(),
                    i < end,
                    block_len == self@[i as int]@.len(),
                    j <= block_len,
                    out@ == flatten_instructions(self@.take(i as int)) + self@[i as int]@.take(
                        j as int),
                decreases block_len - j,
            {
                out.push(self[i].0[j]);
                proof {
                    assert(out@ =~= flatten_instructions(self@.take(i as int)) + self@[
                        i as int]@.take(j + 1));
                }
                j = j + 1;
            }
            proof {
                lemma_flatten_instructions_take_snoc(self@, i as int);
                assert(self@[i as int]@.take(block_len as int) =~= self@[i as int]@);
            }
            i = i + 1;
        }
        proof {
            assert(self@.take(end as int) =~= self@);
        }
        Instructions(out)
    }
}

/// Each operand value `operands[i]` fits the operand width `widths[i]`.
pub open spec fn operands_fit(widths: Seq<usize>, operands: Seq<usize>) -> bool {
    forall|i: int|
        0 <= i < widths.len() ==> ((widths[i] == 2 ==> #[trigger] operands[i] < 65536) && (widths[i]
            == 1 ==> operands[i] < 256))
}

/// Every operand width in the table is 1 or 2 bytes.
pub proof fn lemma_widths_are_1_or_2(op: Opcode)
    ensures
        forall|i: int|
            0 <= i < op_widths(op).len() ==> (#[trigger] op_widths(op)[i] == 1 || op_widths(op)[i]
                == 2),
{
}

/// Encoder round trip: reading the operand bytes of an encoded instruction
/// yields the operand values that were encoded, and consumes exactly the
/// operand bytes.
pub proof fn lemma_operands_round_trip(widths: Seq<usize>, operands: Seq<usize>)
    requires
        widths.len() == operands.len(),
        forall|i: int| 0 <= i < widths.len() ==> (#[trigger] widths[i] == 1 || widths[i] == 2),
        operands_fit(widths, operands),
    ensures
        encode_operands(widths, operands).len() == width_sum(widths),
        decode_operands(widths, encode_operands(widths, operands)) == operands,
    decreases widths.len(),
{
    if widths.len() == 0 {
        assert(decode_operands(widths, encode_operands(widths, operands)) =~= operands);
    } else {
        let ws = widths.skip(1);
        let os = operands.skip(1);
        let bytes = encode_operands(widths, operands);
        lemma_operands_round_trip(ws, os);
        assert(bytes == be_bytes(widths[0], operands[0]) + encode_operands(ws, os));
        assert(bytes.skip(widths[0] as int) =~= encode_operands(ws, os));
        if widths[0] == 2 {
            let o = operands[0] as int;
            assert(o < 65536);
            assert(o / 256 < 256) by {
                assert(o / 256 <= 65535int / 256) by (nonlinear_arith)
                    requires
                        0 <= o < 65536,
                ;
            }
            assert((o / 256) % 256 == o / 256);
            assert(o == 256 * (o / 256) + o % 256);
            assert(bytes[0] == (o / 256) as u8);
            assert(bytes[1] == (o % 256) as u8);
            assert(be16(bytes[0], bytes[1]) == operands[0]);
        } else {
            assert(bytes[0] == (operands[0] % 256) as u8);
            assert(operands[0] % 256 == operands[0]);
        }
        assert(decode_operands(widths, bytes) =~= operands);
    }
}

/// The whole-instruction round trip stated over `encode_instruction`:
/// decoding the bytes after the opcode byte restores the operands.
pub proof fn lemma_instruction_round_trip(op: Opcode, operands: Seq<usize>)
    requires
        operands.len() == op_widths(op).len(),
        operands_fit(op_widths(op), operands),
    ensures
        decode_operands(op_widths(op), encode_instruction(op, operands).skip(1)) == operands,
        encode_instruction(op, operands).skip(1).len() == width_sum(op_widths(op)),
{
    lemma_widths_are_1_or_2(op);
    lemma_operands_round_trip(op_widths(op), operands);
    assert(encode_instruction(op, operands).skip(1) =~= encode_operands(op_widths(op), operands));
}


/// The character of one decimal digit.
pub open spec fn dec_digit(d: int) -> char {
    if d == 0 {
        '0'
    } else if d == 1 {
        '1'
    } else if d == 2 {
        '2'
    } else if d == 3 {
        '3'
    } else if d == 4 {
        '4'
    } else if d == 5 {
        '5'
    } else if d == 6 {
        '6'
    } else if d == 7 {
        '7'
    } else if d == 8 {
        '8'
    } else {
        '9'
    }
}

/// The decimal digits of a nonnegative number, most significant first.
pub open spec fn dec_str(n: int) -> Seq<char>
    decreases n,
{
    if n < 10 {
        seq![dec_digit(n)]
    } else {
        dec_str(n / 10) + seq![dec_digit(n % 10)]
    }
}

/// A decimal number padded with zeros to at least four characters, as
/// instruction offsets are printed.
pub open spec fn pad4(n: int) -> Seq<char> {
    let d = dec_str(n);
    if d.len() >= 4 {
        d
    } else {
        Seq::new((4 - d.len()) as nat, |i: int| '0') + d
    }
}

proof fn lemma_dec_str_len(n: int)
    requires
        n >= 0,
    ensures
        n < 10 ==> dec_str(n).len() == 1,
        10 <= n < 100 ==> dec_str(n).len() == 2,
        100 <= n < 1000 ==> dec_str(n).len() == 3,
        n >= 1000 ==> dec_str(n).len() >= 4,
    decreases n,
{
    if n >= 10 {
        lemma_dec_str_len(n / 10);
    }
}

/// One decimal digit as text.
fn digit_str(d: usize) -> (r: &'static str)
    requires
        d < 10,
    ensures
        r@ == seq![dec_digit(d as int)],
{
    proof {
        reveal_strlit("0");
        reveal_strlit("1");
        reveal_strlit("2");
        reveal_strlit("3");
        reveal_strlit("4");
        reveal_strlit("5");
        reveal_strlit("6");
        reveal_strlit("7");
        reveal_strlit("8");
        reveal_strlit("9");
    }
    let r = if d == 0 {
        "0"
    } else if d == 1 {
        "1"
    } else if d == 2 {
        "2"
    } else if d == 3 {
        "3"
    } else if d == 4 {
        "4"
    } else if d == 5 {
        "5"
    } else if d == 6 {
        "6"
    } else if d == 7 {
        "7"
    } else if d == 8 {
        "8"
    } else {
        "9"
    };
    proof {
        assert(r@ =~= seq![dec_digit(d as int)]);
    }
    r
}

/// Renders a nonnegative number in decimal.
pub fn decimal_string(n: usize) -> (r: String)
    ensures
        r@ == dec_str(n as int),
    decreases n,
{
    if n < 10 {
        String::from_str(digit_str(n))
    } else {
        let s = decimal_string(n / 10);
        s.concat(digit_str(n % 10))
    }
}

/// Renders an instruction offset, zero-padded to four digits.
pub fn offset_string(n: usize) -> (r: String)
    ensures
        r@ == pad4(n as int),
{
    proof {
        lemma_dec_str_len(n as int);
        reveal_strlit("");
        reveal_strlit("0");
        reveal_strlit("00");
        reveal_strlit("000");
    }
    let prefix = if n < 10 {
        "000"
    } else if n < 100 {
        "00"
    } else if n < 1000 {
        "0"
    } else {
        ""
    };
    let r = String::from_str(prefix).concat(decimal_string(n).as_str());
    proof {
        if n < 1000 {
            assert(prefix@ =~= Seq::new((4 - dec_str(n as int).len()) as nat, |i: int| '0'));
        }
        assert(r@ =~= pad4(n as int));
    }
    r
}

/// The rendered body of one disassembled instruction with the given
/// name and operand widths: the name, then the operand values. A
/// mismatched or unhandled operand count renders an error note instead.
pub open spec fn render_body_of(name: Seq<char>, widths: Seq<usize>, operands: Seq<usize>) -> Seq<
    char,
> {
    let count = widths.len() as int;
    if operands.len() != count {
        "ERROR: operand len "@ + dec_str(operands.len() as int) + " does not match defined "@
            + dec_str(count) + "\n"@
    } else if count == 0 {
        name
    } else if count == 1 {
        name + " "@ + dec_str(operands[0] as int)
    } else {
        "ERROR: unhandled operand count for "@ + name
    }
}

/// The rendered body of one disassembled instruction.
pub open spec fn render_body(op: Opcode, operands: Seq<usize>) -> Seq<char> {
    render_body_of(op_name(op), op_widths(op), operands)
}

/// One full disassembly line: the zero-padded byte offset, a space, the
/// rendered instruction, and a newline.
pub open spec fn render_line(pos: int, op: Opcode, operands: Seq<usize>) -> Seq<char> {
    pad4(pos) + " "@ + render_body(op, operands) + "\n"@
}

/// The whole encoded length of the instruction starting with `op`.
pub open spec fn op_len(op: Opcode) -> int {
    match op {
        Opcode::OpConstant => 3,
        Opcode::OpJumpNotTruthy => 3,
        Opcode::OpJump => 3,
        Opcode::OpGetGlobal => 3,
        Opcode::OpSetGlobal => 3,
        Opcode::OpArray => 3,
        Opcode::OpHash => 3,
        Opcode::OpCall => 2,
        Opcode::OpGetLocal => 2,
        Opcode::OpSetLocal => 2,
        _ => 1,
    }
}

/// The opcode table's lengths and widths agree.
pub proof fn lemma_op_len(op: Opcode)
    ensures
        op_len(op) == 1 + width_sum(op_widths(op)),
{
    reveal_with_fuel(width_sum, 3);
}

/// A byte stream is well formed when instructions tile it exactly: each
/// position in the tiling holds a known opcode whose operand bytes are
/// all present.
pub open spec fn wf_code_from(code: Seq<u8>, pos: int) -> bool
    decreases code.len() - pos,
{
    if pos < 0 {
        false
    } else if pos >= code.len() {
        true
    } else {
        match op_of_byte(code[pos]) {
            None => false,
            Some(op) => pos + op_len(op) <= code.len() && wf_code_from(code, pos + op_len(op)),
        }
    }
}

/// A well-formed instruction stream.
pub open spec fn wf_code(code: Seq<u8>) -> bool {
    wf_code_from(code, 0)
}

/// The byte offsets at which the instructions of a stream start.
pub open spec fn starts_from(code: Seq<u8>, pos: int) -> Seq<int>
    decreases code.len() - pos,
{
    if pos < 0 || pos >= code.len() {
        Seq::<int>::empty()
    } else {
        match op_of_byte(code[pos]) {
            None => Seq::<int>::empty(),
            Some(op) => {
                if pos + op_len(op) <= code.len() {
                    seq![pos] + starts_from(code, pos + op_len(op))
                } else {
                    Seq::<int>::empty()
                }
            },
        }
    }
}

/// The byte offsets of all instructions of a stream.
pub open spec fn instruction_starts(code: Seq<u8>) -> Seq<int> {
    starts_from(code, 0)
}

/// The disassembly text of a stream from a given position on: one
/// rendered line per instruction.
pub open spec fn disassembly_from(code: Seq<u8>, pos: int) -> Seq<char>
    decreases code.len() - pos,
{
    if pos < 0 || pos >= code.len() {
        Seq::<char>::empty()
    } else {
        match op_of_byte(code[pos]) {
            None => Seq::<char>::empty(),
            Some(op) => {
                if pos + op_len(op) <= code.len() {
                    render_line(pos, op, decode_operands(op_widths(op), code.skip(pos + 1)))
                        + disassembly_from(code, pos + op_len(op))
                } else {
                    Seq::<char>::empty()
                }
            },
        }
    }
}

/// The full disassembly text of a stream.
pub open spec fn disassembly(code: Seq<u8>) -> Seq<char> {
    disassembly_from(code, 0)
}

impl Instructions {
    /// Renders one instruction for the disassembly: the opcode's name
    /// followed by its operands.
    pub fn fmt_instruction(&self, def: Definition, operands: Vec<usize>) -> (r: String)
        ensures
            r@ == render_body_of(def.name@, def.operand_width@, operands@),
    {
        let operand_count = def.operand_width.len();
        if operands.len() != operand_count {
            return String::from_str("ERROR: operand len ").concat(
                decimal_string(operands.len()).as_str(),
            ).concat(" does not match defined ").concat(
                decimal_string(operand_count).as_str(),
            ).concat("\n");
        }
        if operand_count == 0 {
            def.name
        } else if operand_count == 1 {
            def.name.concat(" ").concat(decimal_string(operands[0]).as_str())
        } else {
            String::from_str("ERROR: unhandled operand count for ").concat(def.name.as_str())
        }
    }

    /// Disassembles a well-formed instruction stream: one line per
    /// instruction, `NNNN OpName operand` with a four-digit zero-padded
    /// byte offset.
    pub fn disassemble(&self) -> (r: String)
        requires
            wf_code(self@),
        ensures
            r@ == disassembly(self@),
    {
        let mut out = String::new();
        let total = self.0.len();
        let mut i: usize = 0;
        while i < total
            invariant
                total == self@.len(),
                i <= total,
                wf_code_from(self@, i as int),
                disassembly(self@) == out@ + disassembly_from(self@, i as int),
            decreases total - i,
        {
            let op = Opcode::from(self.0[i]);
            let def = lookup(&op);
            proof {
                lemma_op_len(op);
                lemma_width_sum_nonneg(op_widths(op));
            }
            let rest = vstd::slice::slice_subrange(self.0.as_slice(), i + 1, total);
            proof {
                assert(rest@ =~= self@.skip(i + 1));
            }
            let ghost out_before = out@;
            let (operands, read) = read_operands(&def, rest);
            let line_body = self.fmt_instruction(def, operands);
            out.append(offset_string(i).as_str());
            out.append(" ");
            out.append(line_body.as_str());
            out.append("\n");
            proof {
                let pos = i as int;
                let ops = decode_operands(op_widths(op), self@.skip(pos + 1));
                assert(line_body@ == render_body(op, ops));
                assert(out@ =~= out_before + render_line(pos, op, ops));
                assert(out_before + render_line(pos, op, ops) + disassembly_from(
                    self@,
                    pos + op_len(op),
                ) =~= out_before + (render_line(pos, op, ops) + disassembly_from(
                    self@,
                    pos + op_len(op),
                )));
                assert(disassembly(self@) == out@ + disassembly_from(self@, pos + op_len(op)));
            }
            i = i + 1 + read;
        }
        proof {
            assert(disassembly_from(self@, total as int) =~= Seq::<char>::empty());
            assert(out@ =~= disassembly(self@));
        }
        out
    }
}

proof fn lemma_starts_from_bounds(code: Seq<u8>, pos: int)
    requires
        0 <= pos,
        wf_code_from(code, pos),
    ensures
        forall|k: int|
            0 <= k < starts_from(code, pos).len() ==> pos <= #[trigger] starts_from(code, pos)[k]
                < code.len(),
        forall|k1: int, k2: int|
            0 <= k1 < k2 < starts_from(code, pos).len() ==> starts_from(code, pos)[k1]
                < starts_from(code, pos)[k2],
        pos < code.len() ==> starts_from(code, pos).len() > 0 && starts_from(code, pos)[0] == pos,
        pos >= code.len() ==> starts_from(code, pos).len() == 0,
    decreases code.len() - pos,
{
    if pos < code.len() {
        let op = op_of_byte(code[pos])->Some_0;
        let next = pos + op_len(op);
        lemma_starts_from_bounds(code, next);
        let st = starts_from(code, pos);
        let rest = starts_from(code, next);
        assert(st == seq![pos] + rest);
        assert(forall|k: int| 0 <= k < rest.len() ==> st[k + 1] == #[trigger] rest[k]);
        assert forall|k: int| 0 <= k < st.len() implies pos <= #[trigger] st[k] < code.len() by {
            if k > 0 {
                assert(st[k] == rest[k - 1]);
            }
        }
        assert forall|k1: int, k2: int| 0 <= k1 < k2 < st.len() implies st[k1] < st[k2] by {
            if k1 > 0 {
                assert(st[k1] == rest[k1 - 1]);
                assert(st[k2] == rest[k2 - 1]);
            } else {
                assert(st[k2] == rest[k2 - 1]);
            }
        }
    }
}

/// Disassembly invariant, first half: the instruction offsets of a
/// well-formed stream begin at zero, strictly increase, and each lies
/// within the stream.
pub proof fn lemma_disassembly_offsets(code: Seq<u8>)
    requires
        wf_code(code),
    ensures
        forall|k: int|
            0 <= k < instruction_starts(code).len() ==> 0 <= #[trigger] instruction_starts(code)[k]
                < code.len(),
        forall|k1: int, k2: int|
            0 <= k1 < k2 < instruction_starts(code).len() ==> instruction_starts(code)[k1]
                < instruction_starts(code)[k2],
        code.len() > 0 ==> instruction_starts(code)[0] == 0,
        code.len() == 0 ==> instruction_starts(code).len() == 0,
{
    lemma_starts_from_bounds(code, 0);
}

/// How many newlines a text holds; the disassembly prints one line by
/// closing it with one newline.
pub open spec fn newline_count(s: Seq<char>) -> int
    decreases s.len(),
{
    if s.len() == 0 {
        0
    } else {
        (if s[0] == '\n' {
            1int
        } else {
            0int
        }) + newline_count(s.subrange(1, s.len() as int))
    }
}

proof fn lemma_newline_count_add(a: Seq<char>, b: Seq<char>)
    ensures
        newline_count(a + b) == newline_count(a) + newline_count(b),
    decreases a.len(),
{
    if a.len() == 0 {
        assert(a + b =~= b);
    } else {
        let asub = a.subrange(1, a.len() as int);
        assert((a + b).subrange(1, (a + b).len() as int) =~= asub + b);
        assert((a + b)[0] == a[0]);
        lemma_newline_count_add(asub, b);
    }
}

proof fn lemma_newline_count_zero(s: Seq<char>)
    requires
        forall|i: int| 0 <= i < s.len() ==> #[trigger] s[i] != '\n',
    ensures
        newline_count(s) == 0,
    decreases s.len(),
{
    if s.len() > 0 {
        let sub = s.subrange(1, s.len() as int);
        assert(forall|i: int| 0 <= i < sub.len() ==> #[trigger] sub[i] == s[i + 1]);
        lemma_newline_count_zero(sub);
    }
}

proof fn lemma_dec_str_no_newline(n: int)
    requires
        n >= 0,
    ensures
        newline_count(dec_str(n)) == 0,
    decreases n,
{
    if n < 10 {
        lemma_newline_count_zero(dec_str(n));
    } else {
        lemma_dec_str_no_newline(n / 10);
        assert(forall|i: int|
            0 <= i < seq![dec_digit(n % 10)].len() ==> #[trigger] seq![dec_digit(n % 10)][i]
                != '\n');
        lemma_newline_count_zero(seq![dec_digit(n % 10)]);
        lemma_newline_count_add(dec_str(n / 10), seq![dec_digit(n % 10)]);
    }
}

proof fn lemma_pad4_no_newline(n: int)
    requires
        n >= 0,
    ensures
        newline_count(pad4(n)) == 0,
{
    lemma_dec_str_no_newline(n);
    let d = dec_str(n);
    if d.len() < 4 {
        let zeros = Seq::new((4 - d.len()) as nat, |i: int| '0');
        lemma_newline_count_zero(zeros);
        lemma_newline_count_add(zeros, d);
    }
}

proof fn lemma_op_name_no_newline(op: Opcode)
    ensures
        newline_count(op_name(op)) == 0,
{
    reveal_with_fuel(newline_count, 17);
    match op {
        Opcode::OpConstant => {
            reveal_strlit("OpConstant");
            assert(newline_count("OpConstant"@) == 0);
        },
        Opcode::OpAdd => {
            reveal_strlit("OpAdd");
            assert(newline_count("OpAdd"@) == 0);
        },
        Opcode::OpPop => {
            reveal_strlit("OpPop");
            assert(newline_count("OpPop"@) == 0);
        },
        Opcode::OpSub => {
            reveal_strlit("OpSub");
            assert(newline_count("OpSub"@) == 0);
        },
        Opcode::OpMul => {
            reveal_strlit("OpMul");
            assert(newline_count("OpMul"@) == 0);
        },
        Opcode::OpDiv => {
            reveal_strlit("OpDiv");
            assert(newline_count("OpDiv"@) == 0);
        },
        Opcode::OpTrue => {
            reveal_strlit("OpTrue");
            assert(newline_count("OpTrue"@) == 0);
        },
        Opcode::OpFalse => {
            reveal_strlit("OpFalse");
            assert(newline_count("OpFalse"@) == 0);
        },
        Opcode::OpEqual => {
            reveal_strlit("OpEqual");
            assert(newline_count("OpEqual"@) == 0);
        },
        Opcode::OpNotEqual => {
            reveal_strlit("OpNotEqual");
            assert(newline_count("OpNotEqual"@) == 0);
        },
        Opcode::OpGreaterThan => {
            reveal_strlit("OpGreaterThan");
            assert(newline_count("OpGreaterThan"@) == 0);
        },
        Opcode::OpMinus => {
            reveal_strlit("OpMinus");
            assert(newline_count("OpMinus"@) == 0);
        },
        Opcode::OpBang => {
            reveal_strlit("OpBang");
            assert(newline_count("OpBang"@) == 0);
        },
        Opcode::OpJumpNotTruthy => {
            reveal_strlit("OpJumpNotTruthy");
            assert(newline_count("OpJumpNotTruthy"@) == 0);
        },
        Opcode::OpJump => {
            reveal_strlit("OpJump");
            assert(newline_count("OpJump"@) == 0);
        },
        Opcode::OpNull => {
            reveal_strlit("OpNull");
            assert(newline_count("OpNull"@) == 0);
        },
        Opcode::OpGetGlobal => {
            reveal_strlit("OpGetGlobal");
            assert(newline_count("OpGetGlobal"@) == 0);
        },
        Opcode::OpSetGlobal => {
            reveal_strlit("OpSetGlobal");
            assert(newline_count("OpSetGlobal"@) == 0);
        },
        Opcode::OpArray => {
            reveal_strlit("OpArray");
            assert(newline_count("OpArray"@) == 0);
        },
        Opcode::OpHash => {
            reveal_strlit("OpHash");
            assert(newline_count("OpHash"@) == 0);
        },
        Opcode::OpIndex => {
            reveal_strlit("OpIndex");
            assert(newline_count("OpIndex"@) == 0);
        },
        Opcode::OpCall => {
            reveal_strlit("OpCall");
            assert(newline_count("OpCall"@) == 0);
        },
        Opcode::OpReturnValue => {
            reveal_strlit("OpReturnValue");
            assert(newline_count("OpReturnValue"@) == 0);
        },
        Opcode::OpReturn => {
            reveal_strlit("OpReturn");
            assert(newline_count("OpReturn"@) == 0);
        },
        Opcode::OpGetLocal => {
            reveal_strlit("OpGetLocal");
            assert(newline_count("OpGetLocal"@) == 0);
        },
        Opcode::OpSetLocal => {
            reveal_strlit("OpSetLocal");
            assert(newline_count("OpSetLocal"@) == 0);
        },
    }
}

proof fn lemma_decode_operand_count(widths: Seq<usize>, bytes: Seq<u8>)
    requires
        forall|i: int| 0 <= i < widths.len() ==> (#[trigger] widths[i] == 1 || widths[i] == 2),
    ensures
        decode_operands(widths, bytes).len() == widths.len(),
    decreases widths,
{
    if widths.len() > 0 {
        lemma_decode_operand_count(widths.skip(1), bytes.skip(widths[0] as int));
    }
}

proof fn lemma_render_line_one_newline(pos: int, op: Opcode, operands: Seq<usize>)
    requires
        pos >= 0,
        operands.len() == op_widths(op).len(),
    ensures
        newline_count(render_line(pos, op, operands)) == 1,
{
    reveal_with_fuel(newline_count, 3);
    reveal_strlit(" ");
    reveal_strlit("\n");
    lemma_pad4_no_newline(pos);
    lemma_op_name_no_newline(op);
    assert(newline_count(" "@) == 0);
    assert(newline_count("\n"@) == 1);
    let body = render_body(op, operands);
    if op_widths(op).len() == 0 {
        assert(newline_count(body) == 0);
    } else {
        lemma_dec_str_no_newline(operands[0] as int);
        lemma_newline_count_add(op_name(op), " "@);
        lemma_newline_count_add(op_name(op) + " "@, dec_str(operands[0] as int));
        assert(newline_count(body) == 0);
    }
    lemma_newline_count_add(pad4(pos), " "@);
    lemma_newline_count_add(pad4(pos) + " "@, body);
    lemma_newline_count_add(pad4(pos) + " "@ + body, "\n"@);
}

proof fn lemma_disassembly_count_from(code: Seq<u8>, pos: int)
    requires
        0 <= pos,
        wf_code_from(code, pos),
    ensures
        newline_count(disassembly_from(code, pos)) == starts_from(code, pos).len(),
    decreases code.len() - pos,
{
    if pos < code.len() {
        let op = op_of_byte(code[pos])->Some_0;
        let next = pos + op_len(op);
        lemma_widths_are_1_or_2(op);
        lemma_decode_operand_count(op_widths(op), code.skip(pos + 1));
        let ops = decode_operands(op_widths(op), code.skip(pos + 1));
        lemma_render_line_one_newline(pos, op, ops);
        lemma_newline_count_add(render_line(pos, op, ops), disassembly_from(code, next));
        lemma_disassembly_count_from(code, next);
    }
}

/// Disassembly invariant, second half: for a well-formed stream the
/// disassembler emits exactly one line (one newline) per instruction.
pub proof fn lemma_disassembly_one_line_per_instruction(code: Seq<u8>)
    requires
        wf_code(code),
    ensures
        newline_count(disassembly(code)) == instruction_starts(code).len(),
{
    lemma_disassembly_count_from(code, 0);
}

} // verus!

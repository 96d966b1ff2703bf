//! The instruction set shared by the bytecode generator and the virtual
//! machine: a closed set of opcodes, each with a declared operand layout, and
//! the packing of an instruction into one 32-bit big-endian word.

use vstd::prelude::*;

verus! {

/// Version of the binary format.
pub const VERSION: u32 = 0x00000001;

/// Length of the header in bytes: the magic value, the version and five
/// (offset, size) pairs, each field four bytes wide.
pub const METADATA_BYTES: u32 = 48;

/// The bytes "ANGI" read as a big-endian number.
pub const MAGIC_NUMBER: u32 = 0x414E4749;

pub const OPCODE_BITS: u32 = 8;

pub const REG_BITS: u32 = 4;

pub const CONST_BITS: u32 = 20;

pub const OPCODE_OFFSET: u32 = 24;

pub const OPCODE_MASK: u32 = 0xFF;

pub const REG_MASK: u32 = 0xF;

pub const CONST_MASK: u32 = 0xFFFFF;

/// The kind of one operand field of an instruction.
#[derive(Debug, Clone, Copy, PartialEq, Eq)]
pub enum Operand {
    /// A register address, 4 bits wide.
    RegAddr,
    /// An index into the constant pool, the thunk table or the function
    /// table, 20 bits wide.
    ConstIdx,
}

#[derive(Debug, Clone, Copy, PartialEq, Eq)]
pub enum OpCode {
    /// Load a constant into a register.
    LOADCONST,
    /// Reserved: load an immediate value.
    LOADIM,
    /// Put an empty table into a register.
    MAKETABLE,
    /// Set an attribute of a table: table, key, value.
    SETATTR,
    /// Bind a deferred value to a register.
    MAKETHUNK,
    /// End execution and yield a register's value.
    RETURN,
    /// Put an empty list into a register.
    MAKELIST,
    /// Append a value to a list: list, value.
    ADDLIST,
    ADD,
    SUB,
    MUL,
    DIV,
    /// Bind a function to a register.
    MAKEFUNC,
    /// Pop the next pending argument into a register.
    LOADARG,
    /// Push a register's value as the next argument.
    PUSHARG,
    /// Call the function named by the second register; the result goes to
    /// the first.
    CALL,
}

/// The bits of an operand field that hold its value.
pub open spec fn operand_mask(operand: Operand) -> u32 {
    match operand {
        Operand::RegAddr => REG_MASK,
        Operand::ConstIdx => CONST_MASK,
    }
}

/// The width of an operand field in bits.
pub open spec fn operand_bits(operand: Operand) -> nat {
    match operand {
        Operand::RegAddr => 4,
        Operand::ConstIdx => 20,
    }
}

/// The total width of the fields `from..` of a layout.
pub open spec fn bits_from(layout: Seq<Operand>, from: int) -> nat
    decreases layout.len() - from,
{
    if from < 0 || from >= layout.len() {
        0
    } else {
        operand_bits(layout[from]) + bits_from(layout, from + 1)
    }
}

/// How far field `i` stands from the low end of the word: the fields are
/// packed from the low end, the last one of the layout first.
pub open spec fn operand_shift(layout: Seq<Operand>, i: int) -> u32 {
    bits_from(layout, i + 1) as u32
}

/// The operand fields `from..` of a layout, each value cut to its field's
/// width and moved to its place.
pub open spec fn pack_operands(layout: Seq<Operand>, params: Seq<u32>, from: int) -> u32
    decreases layout.len() - from,
{
    if from < 0 || from >= layout.len() {
        0
    } else {
        ((params[from] & operand_mask(layout[from])) << operand_shift(layout, from))
            | pack_operands(layout, params, from + 1)
    }
}

/// The instruction word of an opcode and its operands.
pub open spec fn spec_encode(op: OpCode, params: Seq<u32>) -> u32 {
    (((op.spec_code() as u32) & OPCODE_MASK) << OPCODE_OFFSET) | pack_operands(
        op.spec_layout(),
        params,
        0,
    )
}

/// The operands that an instruction word holds under an opcode's layout.
pub open spec fn spec_decode(op: OpCode, word: u32) -> Seq<u32> {
    Seq::new(
        op.spec_layout().len(),
        |i: int| (word >> operand_shift(op.spec_layout(), i)) & operand_mask(op.spec_layout()[i]),
    )
}

/// The opcode with a given number, if there is one.
pub open spec fn spec_from_u8(n: u8) -> Option<OpCode> {
    match n {
        1 => Some(OpCode::LOADCONST),
        2 => Some(OpCode::LOADIM),
        3 => Some(OpCode::MAKETABLE),
        4 => Some(OpCode::SETATTR),
        5 => Some(OpCode::MAKETHUNK),
        6 => Some(OpCode::RETURN),
        7 => Some(OpCode::MAKELIST),
        8 => Some(OpCode::ADDLIST),
        9 => Some(OpCode::ADD),
        10 => Some(OpCode::SUB),
        11 => Some(OpCode::MUL),
        12 => Some(OpCode::DIV),
        13 => Some(OpCode::MAKEFUNC),
        14 => Some(OpCode::LOADARG),
        15 => Some(OpCode::PUSHARG),
        16 => Some(OpCode::CALL),
        _ => None,
    }
}

/// The opcode that an instruction word names in its top eight bits.
pub open spec fn spec_extract_opcode(word: u32) -> Option<OpCode> {
    spec_from_u8((word >> OPCODE_OFFSET) as u8)
}

/// The four bytes of a word, most significant first.
pub open spec fn spec_word_bytes(word: u32) -> Seq<u8> {
    seq![(word >> 24) as u8, (word >> 16) as u8, (word >> 8) as u8, word as u8]
}

impl OpCode {
    /// The number that stands for the opcode in an instruction word.
    pub open spec fn spec_code(self) -> u8 {
        match self {
            OpCode::LOADCONST => 1,
            OpCode::LOADIM => 2,
            OpCode::MAKETABLE => 3,
            OpCode::SETATTR => 4,
            OpCode::MAKETHUNK => 5,
            OpCode::RETURN => 6,
            OpCode::MAKELIST => 7,
            OpCode::ADDLIST => 8,
            OpCode::ADD => 9,
            OpCode::SUB => 10,
            OpCode::MUL => 11,
            OpCode::DIV => 12,
            OpCode::MAKEFUNC => 13,
            OpCode::LOADARG => 14,
            OpCode::PUSHARG => 15,
            OpCode::CALL => 16,
        }
    }

    /// The operand fields of the opcode, in the order in which they are
    /// written.
    pub open spec fn spec_layout(self) -> Seq<Operand> {
        match self {
            OpCode::LOADCONST => seq![Operand::RegAddr, Operand::ConstIdx],
            OpCode::LOADIM => seq![],
            OpCode::MAKETABLE => seq![Operand::RegAddr],
            OpCode::SETATTR => seq![Operand::RegAddr, Operand::RegAddr, Operand::RegAddr],
            OpCode::MAKETHUNK => seq![Operand::RegAddr, Operand::ConstIdx],
            OpCode::RETURN => seq![Operand::RegAddr],
            OpCode::MAKELIST => seq![Operand::RegAddr],
            OpCode::ADDLIST => seq![Operand::RegAddr, Operand::RegAddr],
            OpCode::ADD => seq![Operand::RegAddr, Operand::RegAddr, Operand::RegAddr],
            OpCode::SUB => seq![Operand::RegAddr, Operand::RegAddr, Operand::RegAddr],
            OpCode::MUL => seq![Operand::RegAddr, Operand::RegAddr, Operand::RegAddr],
            OpCode::DIV => seq![Operand::RegAddr, Operand::RegAddr, Operand::RegAddr],
            OpCode::MAKEFUNC => seq![Operand::RegAddr, Operand::ConstIdx],
            OpCode::LOADARG => seq![Operand::RegAddr],
            OpCode::PUSHARG => seq![Operand::RegAddr],
            OpCode::CALL => seq![Operand::RegAddr, Operand::RegAddr],
        }
    }

    pub fn from_u8(n: u8) -> (r: Option<OpCode>)
        ensures
            r == spec_from_u8(n),
            r is Some <==> 1 <= n <= 16,
            r matches Some(op) ==> op.spec_code() == n,
    {
        match n {
            1 => Some(OpCode::LOADCONST),
            2 => Some(OpCode::LOADIM),
            3 => Some(OpCode::MAKETABLE),
            4 => Some(OpCode::SETATTR),
            5 => Some(OpCode::MAKETHUNK),
            6 => Some(OpCode::RETURN),
            7 => Some(OpCode::MAKELIST),
            8 => Some(OpCode::ADDLIST),
            9 => Some(OpCode::ADD),
            10 => Some(OpCode::SUB),
            11 => Some(OpCode::MUL),
            12 => Some(OpCode::DIV),
            13 => Some(OpCode::MAKEFUNC),
            14 => Some(OpCode::LOADARG),
            15 => Some(OpCode::PUSHARG),
            16 => Some(OpCode::CALL),
            _ => None,
        }
    }

    pub fn to_u8(self) -> (r: u8)
        ensures
            r == self.spec_code(),
    {
        match self {
            OpCode::LOADCONST => 1,
            OpCode::LOADIM => 2,
            OpCode::MAKETABLE => 3,
            OpCode::SETATTR => 4,
            OpCode::MAKETHUNK => 5,
            OpCode::RETURN => 6,
            OpCode::MAKELIST => 7,
            OpCode::ADDLIST => 8,
            OpCode::ADD => 9,
            OpCode::SUB => 10,
            OpCode::MUL => 11,
            OpCode::DIV => 12,
            OpCode::MAKEFUNC => 13,
            OpCode::LOADARG => 14,
            OpCode::PUSHARG => 15,
            OpCode::CALL => 16,
        }
    }

    pub fn to_u32(self) -> (r: u32)
        ensures
            r == self.spec_code(),
    {
        self.to_u8() as u32
    }

    pub fn layout(&self) -> (r: Vec<Operand>)
        ensures
            r@ == self.spec_layout(),
    {
        let r = match self {
            OpCode::LOADCONST | OpCode::MAKETHUNK | OpCode::MAKEFUNC => vec![
                Operand::RegAddr,
                Operand::ConstIdx,
            ],
            OpCode::LOADIM => Vec::new(),
            OpCode::MAKETABLE
            | OpCode::RETURN
            | OpCode::MAKELIST
            | OpCode::LOADARG
            | OpCode::PUSHARG => vec![Operand::RegAddr],
            OpCode::ADDLIST | OpCode::CALL => vec![Operand::RegAddr, Operand::RegAddr],
            OpCode::SETATTR | OpCode::ADD | OpCode::SUB | OpCode::MUL | OpCode::DIV => vec![
                Operand::RegAddr,
                Operand::RegAddr,
                Operand::RegAddr,
            ],
        };
        assert(r@ =~= self.spec_layout());
        r
    }

    /// Packs the operands into the instruction word of this opcode and gives
    /// its four bytes, most significant first. Each operand is cut to the
    /// width of its field.
    pub fn encode(&self, operand_params: Vec<u32>) -> (r: [u8; 4])
        requires
            operand_params@.len() == self.spec_layout().len(),
        ensures
            r@ == spec_word_bytes(spec_encode(*self, operand_params@)),
    {
        let layout = self.layout();
        let base: u32 = (self.to_u32() & OPCODE_MASK) << OPCODE_OFFSET;
        let mut bit: u32 = base;
        let mut offset_bit_from_right: u32 = 0;
        let mut i: usize = layout.len();
        proof {
            lemma_layout_fits(*self);
            assert(base | 0 == base) by (bit_vector);
        }
        while i > 0
            invariant
                i <= layout@.len(),
                layout@ == self.spec_layout(),
                operand_params@.len() == layout@.len(),
                offset_bit_from_right == bits_from(layout@, i as int),
                bits_from(layout@, 0) <= 24,
                bit == base | pack_operands(layout@, operand_params@, i as int),
            decreases i,
        {
            i -= 1;
            proof {
                lemma_bits_from_monotone(layout@, i as int);
            }
            let field: u32 = match layout[i] {
                Operand::RegAddr => {
                    let f = (operand_params[i] & REG_MASK) << offset_bit_from_right;
                    offset_bit_from_right += REG_BITS;
                    f
                },
                Operand::ConstIdx => {
                    let f = (operand_params[i] & CONST_MASK) << offset_bit_from_right;
                    offset_bit_from_right += CONST_BITS;
                    f
                },
            };
            proof {
                let rest = pack_operands(layout@, operand_params@, i as int + 1);
                assert((base | rest) | field == base | (field | rest)) by (bit_vector);
            }
            bit |= field;
        }
        let r: [u8; 4] = [(bit >> 24) as u8, (bit >> 16) as u8, (bit >> 8) as u8, bit as u8];
        assert(r@ =~= spec_word_bytes(spec_encode(*self, operand_params@)));
        r
    }

    /// Unpacks the operands of an instruction word under this opcode's
    /// layout, in the order of the layout.
    pub fn decode(&self, byte: u32) -> (r: Vec<u32>)
        ensures
            r@ == spec_decode(*self, byte),
    {
        let layout = self.layout();
        let mut offset_bit_from_right: u32 = 0;
        let mut result: Vec<u32> = Vec::new();
        let mut i: usize = layout.len();
        proof {
            lemma_layout_fits(*self);
        }
        while i > 0
            invariant
                i <= layout@.len(),
                layout@ == self.spec_layout(),
                offset_bit_from_right == bits_from(layout@, i as int),
                bits_from(layout@, 0) <= 24,
                result@.len() == layout@.len() - i,
                forall|j: int|
                    0 <= j < result@.len() ==> result@[j] == (byte >> operand_shift(
                        layout@,
                        i + j,
                    )) & operand_mask(layout@[i + j]),
            decreases i,
        {
            i -= 1;
            proof {
                lemma_bits_from_monotone(layout@, i as int);
            }
            let number: u32 = match layout[i] {
                Operand::RegAddr => {
                    let n = (byte >> offset_bit_from_right) & REG_MASK;
                    offset_bit_from_right += REG_BITS;
                    n
                },
                Operand::ConstIdx => {
                    let n = (byte >> offset_bit_from_right) & CONST_MASK;
                    offset_bit_from_right += CONST_BITS;
                    n
                },
            };
            result.insert(0, number);
        }
        assert(result@ =~= spec_decode(*self, byte));
        result
    }
}

/// Reads the opcode of an instruction word from its top eight bits. A number
/// that names no opcode gives `None`.
pub fn extract_opcode(byte: u32) -> (r: Option<OpCode>)
    ensures
        r == spec_extract_opcode(byte),
{
    let bit = byte >> OPCODE_OFFSET;
    OpCode::from_u8(bit as u8)
}

/// The operand fields of every opcode fit into the 24 bits below the opcode.
pub proof fn lemma_layout_fits(op: OpCode)
    ensures
        bits_from(op.spec_layout(), 0) <= 24,
{
    reveal_with_fuel(bits_from, 4);
}

/// The fields from `i` on are at least as wide together as those after `i`.
pub proof fn lemma_bits_from_monotone(layout: Seq<Operand>, i: int)
    requires
        0 <= i < layout.len(),
    ensures
        bits_from(layout, i) == operand_bits(layout[i]) + bits_from(layout, i + 1),
        bits_from(layout, i) <= bits_from(layout, 0),
    decreases i,
{
    if i > 0 {
        lemma_bits_from_monotone(layout, i - 1);
    }
}

proof fn lemma_fields_one(c: u32, a0: u32, m0: u32)
    by (bit_vector)
    requires
        c <= 255,
        m0 == 0xF || m0 == 0xFFFFF,
    ensures
        ({
            let w = ((c & 0xFF) << 24) | (((a0 & m0) << 0) | 0);
            &&& (w >> 0) & m0 == a0 & m0
            &&& (w >> 24) as u8 == c
        }),
{
}

proof fn lemma_fields_reg_reg(c: u32, a0: u32, a1: u32)
    by (bit_vector)
    requires
        c <= 255,
    ensures
        ({
            let w = ((c & 0xFF) << 24) | (((a0 & 0xF) << 4) | (((a1 & 0xF) << 0) | 0));
            &&& (w >> 4) & 0xF == a0 & 0xF
            &&& (w >> 0) & 0xF == a1 & 0xF
            &&& (w >> 24) as u8 == c
        }),
{
}

proof fn lemma_fields_reg_const(c: u32, a0: u32, a1: u32)
    by (bit_vector)
    requires
        c <= 255,
    ensures
        ({
            let w = ((c & 0xFF) << 24) | (((a0 & 0xF) << 20) | (((a1 & 0xFFFFF) << 0) | 0));
            &&& (w >> 20) & 0xF == a0 & 0xF
            &&& (w >> 0) & 0xFFFFF == a1 & 0xFFFFF
            &&& (w >> 24) as u8 == c
        }),
{
}

proof fn lemma_fields_reg_reg_reg(c: u32, a0: u32, a1: u32, a2: u32)
    by (bit_vector)
    requires
        c <= 255,
    ensures
        ({
            let w = ((c & 0xFF) << 24) | (((a0 & 0xF) << 8) | (((a1 & 0xF) << 4) | (((a2 & 0xF)
                << 0) | 0)));
            &&& (w >> 8) & 0xF == a0 & 0xF
            &&& (w >> 4) & 0xF == a1 & 0xF
            &&& (w >> 0) & 0xF == a2 & 0xF
            &&& (w >> 24) as u8 == c
        }),
{
}

proof fn lemma_fields_none(c: u32)
    by (bit_vector)
    requires
        c <= 255,
    ensures
        ((((c & 0xFF) << 24) | 0) >> 24) as u8 == c,
{
}

/// Decoding an encoded instruction gives back each operand, cut to the width
/// of its field, and the opcode.
pub proof fn lemma_decode_encode(op: OpCode, params: Seq<u32>)
    requires
        params.len() == op.spec_layout().len(),
    ensures
        spec_decode(op, spec_encode(op, params)) == Seq::new(
            params.len(),
            |i: int| params[i] & operand_mask(op.spec_layout()[i]),
        ),
        spec_extract_opcode(spec_encode(op, params)) == Some(op),
{
    reveal_with_fuel(bits_from, 5);
    reveal_with_fuel(pack_operands, 5);
    let layout = op.spec_layout();
    let c = op.spec_code() as u32;
    let w = spec_encode(op, params);
    if layout.len() == 0 {
        lemma_fields_none(c);
    } else if layout.len() == 1 {
        lemma_fields_one(c, params[0], operand_mask(layout[0]));
    } else if layout.len() == 2 {
        if layout[1] == Operand::RegAddr {
            lemma_fields_reg_reg(c, params[0], params[1]);
        } else {
            lemma_fields_reg_const(c, params[0], params[1]);
        }
    } else {
        lemma_fields_reg_reg_reg(c, params[0], params[1], params[2]);
    }
    assert(spec_decode(op, w) =~= Seq::new(
        params.len(),
        |i: int| params[i] & operand_mask(op.spec_layout()[i]),
    ));
}

proof fn lemma_field_bound(word: u32, shift: u32, mask: u32)
    by (bit_vector)
    ensures
        (word >> shift) & mask <= mask,
{
}

/// Every operand that decoding gives fits its field: a register address is
/// below 16, a constant index below 2^20.
pub proof fn lemma_decode_in_range(op: OpCode, word: u32)
    ensures
        operands_in_range(op, spec_decode(op, word)),
{
    let layout = op.spec_layout();
    assert forall|i: int| 0 <= i < layout.len() implies spec_decode(op, word)[i] <= operand_mask(
        layout[i],
    ) by {
        lemma_field_bound(word, operand_shift(layout, i), operand_mask(layout[i]));
    }
}

/// Whether every operand fits the field that the layout gives it.
pub open spec fn operands_in_range(op: OpCode, params: Seq<u32>) -> bool {
    &&& params.len() == op.spec_layout().len()
    &&& forall|i: int| 0 <= i < params.len() ==> params[i] <= operand_mask(op.spec_layout()[i])
}

proof fn lemma_mask_identity(p: u32, m: u32)
    by (bit_vector)
    requires
        m == 0xF || m == 0xFFFFF,
        p <= m,
    ensures
        p & m == p,
{
}

/// For every opcode, decoding what was encoded gives back the operands,
/// whenever each of them fits its field: a register address up to 15, a
/// constant index up to 2^20 - 1.
pub proof fn lemma_encode_decode_roundtrip(op: OpCode, params: Seq<u32>)
    requires
        operands_in_range(op, params),
    ensures
        spec_decode(op, spec_encode(op, params)) == params,
        spec_extract_opcode(spec_encode(op, params)) == Some(op),
{
    lemma_decode_encode(op, params);
    assert forall|i: int| 0 <= i < params.len() implies params[i] & operand_mask(
        op.spec_layout()[i],
    ) == params[i] by {
        lemma_mask_identity(params[i], operand_mask(op.spec_layout()[i]));
    }
    assert(spec_decode(op, spec_encode(op, params)) =~= params);
}

} // verus!

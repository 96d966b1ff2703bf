//! The machine: it loads a compiled program, and runs its instructions from
//! wherever the host asks, until an instruction yields a value.

use vstd::prelude::*;
use std::collections::HashMap;
use std::collections::VecDeque;
use crate::instructions::{
    extract_opcode,
    lemma_decode_in_range,
    operands_in_range,
    spec_decode,
    spec_extract_opcode,
    OpCode,
    MAGIC_NUMBER,
    METADATA_BYTES,
};
use crate::vm::constant::{ConstantValue, ConstantView};
use crate::vm::error::{VmError, VmErrorKind};
use crate::vm::metadata::MetaData;
use crate::vm::register::{spec_add_to_list, spec_empty_registers, spec_set_attr, Register};
use crate::vm::tree::{path_model, TreeModel};
use crate::vm::utils::{
    is_text_at,
    read_i64,
    read_str_with_len,
    read_u32,
    read_u8,
    spec_i64_from_be,
    spec_text_at,
    spec_u32_from_be,
    str_equal,
};
use crate::vm::value::{
    lemma_model_view_walk,
    lemma_tree_view_model,
    values_view,
    FromValue,
    Value,
    ValueView,
};

verus! {

/// How many calls may be under way at once.
pub const MAX_CALL_DEPTH: usize = 64;

/// What the machine holds, as a mathematical value.
pub struct VmModel {
    pub metadata: MetaData,
    pub registers: Seq<ValueView>,
    /// The constant pool: the constants by their numbers, which start at 1.
    pub consts: Map<usize, ConstantView>,
    /// The thunk table: for the number of each thunk, which start at 1, the
    /// byte at which its code starts.
    pub thunks: Map<usize, u32>,
    pub bytes: Seq<u8>,
    /// The arguments that were pushed and not yet loaded, oldest first.
    pub args: Seq<ValueView>,
}

pub struct VM {
    metadata: MetaData,
    registers: Register,
    const_pool: HashMap<usize, ConstantValue>,
    thunk_table: HashMap<usize, u32>,
    bytes: Vec<u8>,
    args_queue: VecDeque<Value>,
}

impl View for VM {
    type V = VmModel;

    closed spec fn view(&self) -> VmModel {
        VmModel {
            metadata: self.metadata,
            registers: self.registers@,
            consts: self.const_pool@.map_values(|c: ConstantValue| c@),
            thunks: self.thunk_table@,
            bytes: self.bytes@,
            args: values_view(self.args_queue@),
        }
    }
}

/// The items by their numbers: the first has the number 1.
pub open spec fn spec_numbered<V>(items: Seq<V>) -> Map<usize, V> {
    Map::new(|k: usize| 1 <= k <= items.len(), |k: usize| items[k - 1])
}

/// The number that the four bytes at `cursor` spell, if the bytes reach that
/// far.
pub open spec fn spec_word(bytes: Seq<u8>, cursor: int) -> Option<u32> {
    if 0 <= cursor && cursor + 4 <= bytes.len() {
        Some(spec_u32_from_be(bytes.subrange(cursor, cursor + 4)))
    } else {
        None
    }
}

/// The header that a program starts with, if it starts with the magic value
/// and holds a whole header.
pub open spec fn spec_header(bytes: Seq<u8>) -> Option<MetaData> {
    if bytes.len() >= METADATA_BYTES && spec_word(bytes, 0) == Some(MAGIC_NUMBER) {
        Some(
            MetaData {
                magic_code: spec_word(bytes, 0)->0,
                version: spec_word(bytes, 4)->0,
                const_offset: spec_word(bytes, 8)->0,
                const_size: spec_word(bytes, 12)->0,
                thunk_offset: spec_word(bytes, 16)->0,
                thunk_size: spec_word(bytes, 20)->0,
                function_offset: spec_word(bytes, 24)->0,
                function_size: spec_word(bytes, 28)->0,
                global_function_offset: spec_word(bytes, 32)->0,
                global_function_size: spec_word(bytes, 36)->0,
                code_offset: spec_word(bytes, 40)->0,
                code_size: spec_word(bytes, 44)->0,
            },
        )
    } else {
        None
    }
}

/// The constant that stands at `cursor`, and where the next one starts: a
/// tag, then for tag 0 the eight bytes of a number, for tag 1 the length of a
/// text in bytes and the bytes of the text, which are UTF-8.
pub open spec fn spec_constant(bytes: Seq<u8>, cursor: int) -> Option<(ConstantView, int)> {
    if 0 <= cursor < bytes.len() {
        if bytes[cursor] == 0 {
            if cursor + 9 <= bytes.len() {
                Some(
                    (
                        ConstantView::Int(spec_i64_from_be(bytes.subrange(cursor + 1, cursor + 9))),
                        cursor + 9,
                    ),
                )
            } else {
                None
            }
        } else if bytes[cursor] == 1 {
            match spec_word(bytes, cursor + 1) {
                Some(len) => if is_text_at(bytes, cursor + 5, len as nat) {
                    Some(
                        (
                            ConstantView::String(spec_text_at(bytes, cursor + 5, len as nat)),
                            cursor + 5 + len,
                        ),
                    )
                } else {
                    None
                },
                None => None,
            }
        } else {
            None
        }
    } else {
        None
    }
}

/// The `n` constants that stand from `cursor` on, one after the other.
pub open spec fn spec_constants(bytes: Seq<u8>, cursor: int, n: nat) -> Option<Seq<ConstantView>>
    decreases n,
{
    if n == 0 {
        Some(Seq::empty())
    } else {
        match spec_constant(bytes, cursor) {
            Some((c, next)) => match spec_constants(bytes, next, (n - 1) as nat) {
                Some(rest) => Some(seq![c] + rest),
                None => None,
            },
            None => None,
        }
    }
}

/// The byte at which the code of a thunk starts, from the number of its
/// first instruction.
pub open spec fn spec_thunk_start(stored: u32, code_offset: u32) -> Option<u32> {
    if stored * 4 + code_offset <= u32::MAX {
        Some((stored * 4 + code_offset) as u32)
    } else {
        None
    }
}

/// The `n` entries of the thunk table that stand from `cursor` on, each as
/// the byte at which the thunk's code starts.
pub open spec fn spec_thunks(bytes: Seq<u8>, cursor: int, n: nat, code_offset: u32) -> Option<
    Seq<u32>,
>
    decreases n,
{
    if n == 0 {
        Some(Seq::empty())
    } else {
        match spec_word(bytes, cursor) {
            Some(stored) => match spec_thunk_start(stored, code_offset) {
                Some(start) => match spec_thunks(bytes, cursor + 4, (n - 1) as nat, code_offset) {
                    Some(rest) => Some(seq![start] + rest),
                    None => None,
                },
                None => None,
            },
            None => None,
        }
    }
}

/// What loading a program gives: its header, its constants and its thunk
/// table. A program that does not start with the magic value, or whose
/// sections run past its end, cannot be loaded.
pub open spec fn spec_load(bytes: Seq<u8>) -> Option<(MetaData, Seq<ConstantView>, Seq<u32>)> {
    match spec_header(bytes) {
        Some(metadata) => match spec_constants(
            bytes,
            metadata.const_offset as int,
            metadata.const_size as nat,
        ) {
            Some(consts) => match spec_thunks(
                bytes,
                metadata.thunk_offset as int,
                metadata.thunk_size as nat,
                metadata.code_offset,
            ) {
                Some(thunks) => Some((metadata, consts, thunks)),
                None => None,
            },
            None => None,
        },
        None => None,
    }
}

/// A program whose first four bytes are not the magic value cannot be
/// loaded, whatever else it holds.
pub proof fn lemma_magic_required(bytes: Seq<u8>)
    requires
        bytes.len() < 4 || spec_u32_from_be(bytes.subrange(0, 4)) != MAGIC_NUMBER,
    ensures
        spec_load(bytes) is None,
{
}

pub(crate) fn vm_error(message: &str) -> (r: VmError)
    ensures
        r.spec_kind() == VmErrorKind::UnexpectedError,
        r.spec_message() == message@,
{
    VmError::UnexpectedError { message: String::from_str(message) }
}

impl Default for VM {
    /// A machine that holds no program.
    fn default() -> (r: Self)
        ensures
            r@.registers == spec_empty_registers(),
            r@.consts == Map::<usize, ConstantView>::empty(),
            r@.thunks == Map::<usize, u32>::empty(),
            r@.bytes.len() == 0,
            r@.args.len() == 0,
            r@.metadata == crate::vm::metadata::spec_empty_metadata(),
    {
        let r = VM {
            registers: Register::new(),
            const_pool: HashMap::new(),
            thunk_table: HashMap::new(),
            bytes: Vec::new(),
            metadata: MetaData::default(),
            args_queue: VecDeque::new(),
        };
        assert(r@.consts =~= Map::<usize, ConstantView>::empty());
        r
    }
}

impl VM {
    /// A machine that holds the program `bytes`.
    pub fn new_from_bytes(bytes: Vec<u8>) -> (r: Result<Self, VmError>)
        ensures
            match spec_load(bytes@) {
                Some((metadata, consts, thunks)) => r matches Ok(vm) && vm@ == (VmModel {
                    metadata,
                    registers: spec_empty_registers(),
                    consts: spec_numbered(consts),
                    thunks: spec_numbered(thunks),
                    bytes: bytes@,
                    args: Seq::empty(),
                }),
                None => r matches Err(e) && e.spec_kind() == VmErrorKind::UnexpectedError,
            },
    {
        let mut vm = VM::default();
        match vm.load(bytes) {
            Ok(_) => {
                assert(vm@.args =~= Seq::empty());
                Ok(vm)
            },
            Err(e) => Err(e),
        }
    }

    /// Loads the program `bytes`: checks the magic value, reads the header,
    /// the constants and the thunk table. The registers and the pending
    /// arguments stay as they are.
    pub fn load(&mut self, bytes: Vec<u8>) -> (r: Result<(), VmError>)
        ensures
            match spec_load(bytes@) {
                Some((metadata, consts, thunks)) => r is Ok && final(self)@ == (VmModel {
                    metadata,
                    consts: spec_numbered(consts),
                    thunks: spec_numbered(thunks),
                    bytes: bytes@,
                    ..old(self)@
                }),
                None => r matches Err(e) && e.spec_kind() == VmErrorKind::UnexpectedError,
            },
    {
        self.bytes = bytes;
        self.const_pool = HashMap::new();
        self.thunk_table = HashMap::new();
        match self.load_metadata() {
            Ok(_) => {},
            Err(e) => {
                return Err(e);
            },
        }
        match self.load_const() {
            Ok(_) => {},
            Err(e) => {
                return Err(e);
            },
        }
        match self.load_thunk_table() {
            Ok(_) => {},
            Err(e) => {
                return Err(e);
            },
        }
        Ok(())
    }

    /// Reads the header of the program that the machine holds.
    fn load_metadata(&mut self) -> (r: Result<(), VmError>)
        ensures
            match spec_header(old(self)@.bytes) {
                Some(metadata) => r is Ok && final(self)@ == (VmModel { metadata, ..old(self)@ }),
                None => r matches Err(e) && e.spec_kind() == VmErrorKind::UnexpectedError
                    && final(self)@ == old(self)@,
            },
    {
        let mut cursor: usize = 0;
        let magic_code = match read_u32(self.bytes.as_slice(), &mut cursor) {
            Some(v) => v,
            None => {
                return Err(vm_error("Error in get magic code"));
            },
        };
        if magic_code != MAGIC_NUMBER {
            return Err(vm_error("Magic code not suitable"));
        }
        let version = match read_u32(self.bytes.as_slice(), &mut cursor) {
            Some(v) => v,
            None => {
                return Err(vm_error("Error in get version"));
            },
        };
        let const_offset = match read_u32(self.bytes.as_slice(), &mut cursor) {
            Some(v) => v,
            None => {
                return Err(vm_error("Error in get const_offset"));
            },
        };
        let const_size = match read_u32(self.bytes.as_slice(), &mut cursor) {
            Some(v) => v,
            None => {
                return Err(vm_error("Error in get const_size"));
            },
        };
        let thunk_offset = match read_u32(self.bytes.as_slice(), &mut cursor) {
            Some(v) => v,
            None => {
                return Err(vm_error("Error in get thunk_offset"));
            },
        };
        let thunk_size = match read_u32(self.bytes.as_slice(), &mut cursor) {
            Some(v) => v,
            None => {
                return Err(vm_error("Error in get thunk_size"));
            },
        };
        let function_offset = match read_u32(self.bytes.as_slice(), &mut cursor) {
            Some(v) => v,
            None => {
                return Err(vm_error("Error in get function_offset"));
            },
        };
        let function_size = match read_u32(self.bytes.as_slice(), &mut cursor) {
            Some(v) => v,
            None => {
                return Err(vm_error("Error in get function_size"));
            },
        };
        let global_function_offset = match read_u32(self.bytes.as_slice(), &mut cursor) {
            Some(v) => v,
            None => {
                return Err(vm_error("Error in get global_function_offset"));
            },
        };
        let global_function_size = match read_u32(self.bytes.as_slice(), &mut cursor) {
            Some(v) => v,
            None => {
                return Err(vm_error("Error in get global_function_size"));
            },
        };
        let code_offset = match read_u32(self.bytes.as_slice(), &mut cursor) {
            Some(v) => v,
            None => {
                return Err(vm_error("Error in get code_offset"));
            },
        };
        let code_size = match read_u32(self.bytes.as_slice(), &mut cursor) {
            Some(v) => v,
            None => {
                return Err(vm_error("Error in code_size"));
            },
        };
        self.metadata = MetaData {
            magic_code,
            version,
            const_offset,
            const_size,
            thunk_offset,
            thunk_size,
            function_offset,
            function_size,
            global_function_offset,
            global_function_size,
            code_offset,
            code_size,
        };
        Ok(())
    }

    /// Every machine has sixteen registers, whatever it has run.
    pub proof fn lemma_sixteen_registers(&self)
        ensures
            self@.registers.len() == 16,
    {
        self.registers.lemma_len();
    }

    pub fn get_metadata(&self) -> (r: MetaData)
        ensures
            r == self@.metadata,
    {
        self.metadata
    }

    /// Reads the constant that stands at the cursor.
    fn read_constant(&self, cursor: &mut usize) -> (r: Option<ConstantValue>)
        ensures
            match spec_constant(self@.bytes, *old(cursor) as int) {
                Some((c, next)) => r matches Some(constant) && constant@ == c && *final(cursor)
                    == next,
                None => r is None,
            },
    {
        let const_type = match read_u8(self.bytes.as_slice(), cursor) {
            Some(v) => v,
            None => {
                return None;
            },
        };
        if const_type == 0 {
            match read_i64(self.bytes.as_slice(), cursor) {
                Some(number) => Some(ConstantValue::Int(number)),
                None => None,
            }
        } else if const_type == 1 {
            let str_len = match read_u32(self.bytes.as_slice(), cursor) {
                Some(v) => v,
                None => {
                    return None;
                },
            };
            match read_str_with_len(self.bytes.as_slice(), cursor, str_len as usize) {
                Some(string) => Some(ConstantValue::String(string)),
                None => None,
            }
        } else {
            None
        }
    }

    /// Reads the constant section of the program that the machine holds, as
    /// its header describes it, and makes it the constant pool.
    pub fn load_const(&mut self) -> (r: Result<(), VmError>)
        ensures
            match spec_constants(
                old(self)@.bytes,
                old(self)@.metadata.const_offset as int,
                old(self)@.metadata.const_size as nat,
            ) {
                Some(consts) => r is Ok && final(self)@ == (VmModel {
                    consts: spec_numbered(consts),
                    ..old(self)@
                }),
                None => r matches Err(e) && e.spec_kind() == VmErrorKind::UnexpectedError,
            },
    {
        let const_size = self.metadata.const_size;
        let mut cursor: usize = self.metadata.const_offset as usize;
        let ghost start = cursor as int;
        let ghost bytes = self@.bytes;
        let mut pool: HashMap<usize, ConstantValue> = HashMap::new();
        let ghost mut read: Seq<ConstantView> = Seq::empty();
        assert(pool@.map_values(|c: ConstantValue| c@) =~= spec_numbered(read));
        let mut i: u32 = 0;
        while i < const_size
            invariant
                i <= const_size,
                *self == *old(self),
                bytes == self@.bytes,
                start == old(self)@.metadata.const_offset as int,
                const_size == old(self)@.metadata.const_size,
                read.len() == i,
                pool@.map_values(|c: ConstantValue| c@) == spec_numbered(read),
                spec_constants(bytes, start, const_size as nat) == (match spec_constants(
                    bytes,
                    cursor as int,
                    (const_size - i) as nat,
                ) {
                    Some(rest) => Some(read + rest),
                    None => None,
                }),
            decreases const_size - i,
        {
            let ghost before = read;
            match self.read_constant(&mut cursor) {
                Some(constant) => {
                    proof {
                        read = before.push(constant@);
                    }
                    let ghost held = pool@;
                    pool.insert(i as usize + 1, constant);
                    proof {
                        let was = held.map_values(|c: ConstantValue| c@);
                        let now = pool@.map_values(|c: ConstantValue| c@);
                        assert(was == spec_numbered(before));
                        assert forall|k: usize| now.contains_key(k) <==> 1 <= k <= read.len() by {
                            assert(was.contains_key(k) <==> 1 <= k <= before.len());
                        }
                        assert forall|k: usize| 1 <= k <= read.len() implies now[k] == read[k
                            - 1] by {
                            if k <= before.len() {
                                assert(was.contains_key(k));
                                assert(was[k] == before[k - 1]);
                            }
                        }
                        assert(now =~= spec_numbered(read));
                        match spec_constants(bytes, cursor as int, (const_size - i - 1) as nat) {
                            Some(rest) => {
                                assert(before + (seq![constant@] + rest) =~= read + rest);
                            },
                            None => {},
                        }
                    }
                },
                None => {
                    return Err(vm_error("Error in get value const"));
                },
            }
            i += 1;
        }
        proof {
            assert(read + Seq::<ConstantView>::empty() =~= read);
        }
        self.const_pool = pool;
        Ok(())
    }

    /// Reads the thunk table of the program that the machine holds, as its
    /// header describes it: for each thunk the byte at which its code
    /// starts.
    pub fn load_thunk_table(&mut self) -> (r: Result<(), VmError>)
        ensures
            match spec_thunks(
                old(self)@.bytes,
                old(self)@.metadata.thunk_offset as int,
                old(self)@.metadata.thunk_size as nat,
                old(self)@.metadata.code_offset,
            ) {
                Some(thunks) => r is Ok && final(self)@ == (VmModel {
                    thunks: spec_numbered(thunks),
                    ..old(self)@
                }),
                None => r matches Err(e) && e.spec_kind() == VmErrorKind::UnexpectedError,
            },
    {
        let thunk_size = self.metadata.thunk_size;
        let code_offset = self.metadata.code_offset;
        let mut cursor: usize = self.metadata.thunk_offset as usize;
        let ghost start = cursor as int;
        let ghost bytes = self@.bytes;
        let mut table: HashMap<usize, u32> = HashMap::new();
        let ghost mut read: Seq<u32> = Seq::empty();
        assert(table@ =~= spec_numbered(read));
        let mut i: u32 = 0;
        while i < thunk_size
            invariant
                i <= thunk_size,
                *self == *old(self),
                bytes == self@.bytes,
                code_offset == self@.metadata.code_offset,
                start == old(self)@.metadata.thunk_offset as int,
                thunk_size == old(self)@.metadata.thunk_size,
                read.len() == i,
                table@ == spec_numbered(read),
                spec_thunks(bytes, start, thunk_size as nat, code_offset) == (match spec_thunks(
                    bytes,
                    cursor as int,
                    (thunk_size - i) as nat,
                    code_offset,
                ) {
                    Some(rest) => Some(read + rest),
                    None => None,
                }),
            decreases thunk_size - i,
        {
            let ghost before = read;
            let stored = match read_u32(self.bytes.as_slice(), &mut cursor) {
                Some(v) => v,
                None => {
                    return Err(vm_error("Error in get thunk code offset"));
                },
            };
            let absolute: u64 = stored as u64 * 4 + code_offset as u64;
            if absolute > 0xFFFF_FFFF {
                return Err(vm_error("Error in thunk code offset"));
            }
            table.insert(i as usize + 1, absolute as u32);
            proof {
                read = before.push(absolute as u32);
                assert(table@ =~= spec_numbered(read));
                match spec_thunks(bytes, cursor as int, (thunk_size - i - 1) as nat, code_offset) {
                    Some(rest) => {
                        assert(before + (seq![absolute as u32] + rest) =~= read + rest);
                    },
                    None => {},
                }
            }
            i += 1;
        }
        proof {
            assert(read + Seq::<u32>::empty() =~= read);
        }
        self.thunk_table = table;
        Ok(())
    }

    /// The thunk table: for the number of each thunk the byte at which its
    /// code starts.
    pub fn get_thunk_table(&self) -> (r: HashMap<usize, u32>)
        ensures
            r@ == self@.thunks,
    {
        self.thunk_table.clone()
    }

    /// The constant with the number `idx`, if the pool holds one.
    pub fn get_const(&self, idx: usize) -> (r: Option<&ConstantValue>)
        ensures
            match r {
                Some(c) => self@.consts.contains_key(idx) && c@ == self@.consts[idx],
                None => !self@.consts.contains_key(idx),
            },
    {
        self.const_pool.get(&idx)
    }
}

} // verus!

verus! {

/// How a run of instructions ends: with the machine as the run left it and
/// the value that was yielded, or with an error.
pub enum RunResult {
    Done(VmModel, ValueView),
    Failed(VmErrorKind),
}

/// The byte at which the code of the function with the number `idx` starts,
/// as the function table says.
pub open spec fn spec_function_start(m: VmModel, idx: u32) -> Option<int> {
    if 1 <= idx <= m.metadata.function_size {
        match spec_word(m.bytes, m.metadata.function_offset + 8 * (idx - 1) + 4) {
            Some(offset) => Some(m.metadata.code_offset + 4 * offset),
            None => None,
        }
    } else {
        None
    }
}

/// The number of the function that the table of global functions gives for
/// a name, searching from entry `i` on.
pub open spec fn spec_find_global(m: VmModel, name: Seq<char>, i: nat) -> Option<u32>
    decreases m.metadata.global_function_size - i,
{
    if i >= m.metadata.global_function_size {
        None
    } else {
        let base = m.metadata.global_function_offset + 8 * i;
        match (spec_word(m.bytes, base), spec_word(m.bytes, base + 4)) {
            (Some(name_idx), Some(func_idx)) => if m.consts.contains_key(name_idx as usize)
                && m.consts[name_idx as usize] == ConstantView::String(name) {
                Some(func_idx)
            } else {
                spec_find_global(m, name, i + 1)
            },
            _ => None,
        }
    }
}

/// The result of an arithmetic instruction on two numbers; there is none
/// where the result does not fit or the divisor is zero. Division cuts
/// towards zero.
pub open spec fn spec_arith(op: OpCode, a: i64, b: i64) -> Option<i64> {
    match op {
        OpCode::ADD => a.checked_add(b),
        OpCode::SUB => a.checked_sub(b),
        OpCode::MUL => a.checked_mul(b),
        _ => a.checked_div(b),
    }
}

/// The machine after an instruction that neither calls nor returns.
pub open spec fn spec_apply(m: VmModel, op: OpCode, ops: Seq<u32>) -> Result<VmModel, VmErrorKind> {
    let regs = m.registers;
    match op {
        OpCode::MAKETABLE => Ok(
            VmModel {
                registers: regs.update(
                    ops[0] as int,
                    ValueView::Table(Box::new(TreeModel::Leaf(None))),
                ),
                ..m
            },
        ),
        OpCode::MAKELIST => Ok(
            VmModel { registers: regs.update(ops[0] as int, ValueView::List(Seq::empty())), ..m },
        ),
        OpCode::LOADCONST => if m.consts.contains_key(ops[1] as usize) {
            Ok(
                VmModel {
                    registers: regs.update(ops[0] as int, m.consts[ops[1] as usize].to_value()),
                    ..m
                },
            )
        } else {
            Err(VmErrorKind::UnexpectedError)
        },
        OpCode::SETATTR => match regs[ops[1] as int] {
            ValueView::String(key) => Ok(
                VmModel {
                    registers: spec_set_attr(regs, ops[0] as int, key, regs[ops[2] as int]),
                    ..m
                },
            ),
            _ => Err(VmErrorKind::ValueTypeMismatch),
        },
        OpCode::ADDLIST => Ok(
            VmModel { registers: spec_add_to_list(regs, ops[0] as int, regs[ops[1] as int]), ..m },
        ),
        OpCode::MAKEFUNC => Ok(
            VmModel { registers: regs.update(ops[0] as int, ValueView::Function(ops[1])), ..m },
        ),
        OpCode::MAKETHUNK => Ok(
            VmModel { registers: regs.update(ops[0] as int, ValueView::Thunk(ops[1])), ..m },
        ),
        OpCode::LOADARG => if m.args.len() > 0 {
            Ok(
                VmModel {
                    registers: regs.update(ops[0] as int, m.args[0]),
                    args: m.args.subrange(1, m.args.len() as int),
                    ..m
                },
            )
        } else {
            Err(VmErrorKind::InstructionExecution)
        },
        OpCode::PUSHARG => Ok(VmModel { args: m.args.push(regs[ops[0] as int]), ..m }),
        OpCode::ADD | OpCode::SUB | OpCode::MUL | OpCode::DIV => match (
            regs[ops[1] as int],
            regs[ops[2] as int],
        ) {
            (ValueView::Int(a), ValueView::Int(b)) => match spec_arith(op, a, b) {
                Some(v) => Ok(VmModel { registers: regs.update(ops[0] as int, ValueView::Int(v)), ..m }),
                None => Err(VmErrorKind::InstructionExecution),
            },
            _ => Err(VmErrorKind::ValueTypeMismatch),
        },
        _ => Err(VmErrorKind::UnexpectedError),
    }
}

/// The machine after a call, ready for the caller's next instruction: the
/// callee is the global function that the register `name_reg` names; it
/// runs on registers of its own, with the pending arguments, and what it
/// yields goes into the caller's register `dst`.
pub open spec fn spec_invoke(m: VmModel, dst: int, name_reg: int, depth: nat) -> Result<
    VmModel,
    VmErrorKind,
>
    decreases depth, 0nat, 0nat,
{
    match m.registers[name_reg] {
        ValueView::String(name) => match spec_find_global(m, name, 0) {
            Some(idx) => match spec_function_start(m, idx) {
                Some(target) => if depth == 0 {
                    Err(VmErrorKind::InstructionExecution)
                } else {
                    match spec_run(
                        VmModel { registers: spec_empty_registers(), ..m },
                        target,
                        (depth - 1) as nat,
                    ) {
                        RunResult::Done(m2, v) => Ok(
                            VmModel { registers: m.registers.update(dst, v), args: m2.args, ..m },
                        ),
                        RunResult::Failed(k) => Err(k),
                    }
                },
                None => Err(VmErrorKind::NotFoundFunction),
            },
            None => Err(VmErrorKind::NotFoundFunction),
        },
        _ => Err(VmErrorKind::ValueTypeMismatch),
    }
}

/// What running the instructions from `cursor` on gives, with at most
/// `depth` calls under way at once.
///
/// Each instruction is read, decoded and applied, and the next one follows,
/// until a RETURN yields the value of its register. Bytes that end before an
/// instruction, an unknown opcode, and an instruction that cannot be applied
/// end the run with an error.
pub open spec fn spec_run(m: VmModel, cursor: int, depth: nat) -> RunResult
    decreases depth, 1nat, m.bytes.len() - cursor,
{
    match spec_word(m.bytes, cursor) {
        None => RunResult::Failed(VmErrorKind::UnexpectedError),
        Some(word) => match spec_extract_opcode(word) {
            None => RunResult::Failed(VmErrorKind::UnexpectedError),
            Some(op) => {
                let ops = spec_decode(op, word);
                match op {
                    OpCode::RETURN => RunResult::Done(m, m.registers[ops[0] as int]),
                    OpCode::CALL => match spec_invoke(m, ops[0] as int, ops[1] as int, depth) {
                        Ok(m2) => spec_run(
                            VmModel { registers: m2.registers, args: m2.args, ..m },
                            cursor + 4,
                            depth,
                        ),
                        Err(k) => RunResult::Failed(k),
                    },
                    _ => match spec_apply(m, op, ops) {
                        Ok(m2) => spec_run(
                            VmModel { registers: m2.registers, args: m2.args, ..m },
                            cursor + 4,
                            depth,
                        ),
                        Err(k) => RunResult::Failed(k),
                    },
                }
            },
        },
    }
}

/// What forcing the thunk with the number `idx` gives: the value that its
/// code yields. A number that names no thunk gives the uninitialized value.
pub open spec fn spec_force_thunk(m: VmModel, idx: u32) -> RunResult {
    if m.thunks.contains_key(idx as usize) {
        spec_run(m, m.thunks[idx as usize] as int, MAX_CALL_DEPTH as nat)
    } else {
        RunResult::Done(m, ValueView::Uninitialized)
    }
}

/// What forcing a value gives: a thunk is run, any other value is itself.
pub open spec fn spec_force(m: VmModel, v: ValueView) -> RunResult {
    match v {
        ValueView::Thunk(idx) => spec_force_thunk(m, idx),
        _ => RunResult::Done(m, v),
    }
}

/// The walk along the keys of a path from key `i` on: the code at `cursor`
/// is run; where it yields a table, the key is looked up in it, and a thunk
/// found there moves the cursor to its code. `value` is what the walk holds
/// when the keys run out.
pub open spec fn spec_eval_from(
    m: VmModel,
    keys: Seq<Seq<char>>,
    i: int,
    cursor: int,
    value: ValueView,
) -> RunResult
    decreases keys.len() - i,
{
    if i < 0 || i >= keys.len() {
        RunResult::Done(m, value)
    } else {
        match spec_run(m, cursor, MAX_CALL_DEPTH as nat) {
            RunResult::Failed(k) => RunResult::Failed(k),
            RunResult::Done(m2, v) => match v {
                ValueView::Table(tree) => match tree.get(seq![keys[i]]) {
                    Some(ValueView::Thunk(idx)) => spec_eval_from(
                        m2,
                        keys,
                        i + 1,
                        if m2.thunks.contains_key(idx as usize) {
                            m2.thunks[idx as usize] as int
                        } else {
                            cursor
                        },
                        ValueView::Thunk(idx),
                    ),
                    Some(found) => spec_eval_from(m2, keys, i + 1, cursor, found),
                    None => RunResult::Failed(VmErrorKind::UnexpectedError),
                },
                _ => spec_eval_from(m2, keys, i + 1, cursor, v),
            },
        }
    }
}

/// What evaluating a dotted path gives: the walk along its keys from the
/// start of the code, and a thunk at its end forced.
pub open spec fn spec_eval(m: VmModel, path: Seq<char>) -> RunResult {
    match spec_eval_from(
        m,
        crate::vm::utils::spec_split_path(path),
        0,
        m.metadata.code_offset as int,
        ValueView::Uninitialized,
    ) {
        RunResult::Done(m2, v) => spec_force(m2, v),
        RunResult::Failed(k) => RunResult::Failed(k),
    }
}

/// What calling the function with the number `idx` gives: its code is run
/// with `args` as the pending arguments, after whatever was pending was
/// dropped.
pub open spec fn spec_call(m: VmModel, idx: u32, args: Seq<ValueView>) -> RunResult {
    match spec_function_start(m, idx) {
        Some(target) => spec_run(VmModel { args, ..m }, target, MAX_CALL_DEPTH as nat),
        None => RunResult::Failed(VmErrorKind::NotFoundFunction),
    }
}

/// Whether two machines hold the same program.
pub open spec fn same_program(a: VmModel, b: VmModel) -> bool {
    &&& a.metadata == b.metadata
    &&& a.consts == b.consts
    &&& a.thunks == b.thunks
    &&& a.bytes == b.bytes
}

/// Whether a result is what a run gave: the value and the machine after it,
/// or the class of the error.
pub open spec fn run_gives(expected: RunResult, after: VmModel, r: Result<Value, VmError>) -> bool {
    match expected {
        RunResult::Done(m, v) => r matches Ok(value) && value@ == v && after == m,
        RunResult::Failed(k) => r matches Err(e) && e.spec_kind() == k,
    }
}

/// Whether a result is what reading the outcome of a run as a `T` gave.
pub open spec fn read_gives<T: FromValue>(
    expected: RunResult,
    after: VmModel,
    r: Result<T, VmError>,
) -> bool {
    match expected {
        RunResult::Done(m, v) => {
            &&& after == m
            &&& r is Ok <==> T::spec_accepts(v)
            &&& r matches Ok(x) ==> T::spec_reads(v, x)
            &&& r matches Err(e) ==> e.spec_kind() == VmErrorKind::ValueTypeMismatch
        },
        RunResult::Failed(k) => r matches Err(e) && e.spec_kind() == k,
    }
}

} // verus!

verus! {

fn typed_error(kind: VmErrorKind, message: &str) -> (r: VmError)
    ensures
        r.spec_kind() == kind,
        r.spec_message() == message@,
{
    let message = String::from_str(message);
    match kind {
        VmErrorKind::ValueTypeMismatch => VmError::ValueTypeMismatch { message },
        VmErrorKind::UnexpectedError => VmError::UnexpectedError { message },
        VmErrorKind::InstructionExecution => VmError::InstructionExecution { message },
        VmErrorKind::NotFoundFunction => VmError::NotFoundFunction { message },
    }
}

impl VM {
    /// The number that the four bytes at `at` spell, if the program reaches
    /// that far.
    fn word_at(&self, at: u64) -> (r: Option<u32>)
        ensures
            r == spec_word(self@.bytes, at as int),
    {
        if at > self.bytes.len() as u64 {
            return None;
        }
        let mut cursor: usize = at as usize;
        read_u32(self.bytes.as_slice(), &mut cursor)
    }

    /// The byte at which the code of the function with the number `idx`
    /// starts.
    fn function_start(&self, idx: u32) -> (r: Option<u64>)
        ensures
            match spec_function_start(self@, idx) {
                Some(target) => r == Some(target as u64) && target <= u64::MAX,
                None => r is None,
            },
    {
        if idx < 1 || idx > self.metadata.function_size {
            return None;
        }
        let entry: u64 = self.metadata.function_offset as u64 + 8 * (idx as u64 - 1) + 4;
        match self.word_at(entry) {
            Some(offset) => Some(self.metadata.code_offset as u64 + 4 * offset as u64),
            None => None,
        }
    }

    /// The number of the global function with the given name.
    fn find_global(&self, name: &str) -> (r: Option<u32>)
        ensures
            r == spec_find_global(self@, name@, 0),
    {
        let size = self.metadata.global_function_size;
        let mut i: u32 = 0;
        while i < size
            invariant
                i <= size,
                size == self@.metadata.global_function_size,
                spec_find_global(self@, name@, 0) == spec_find_global(self@, name@, i as nat),
            decreases size - i,
        {
            let base: u64 = self.metadata.global_function_offset as u64 + 8 * i as u64;
            let name_idx = match self.word_at(base) {
                Some(v) => v,
                None => {
                    return None;
                },
            };
            let func_idx = match self.word_at(base + 4) {
                Some(v) => v,
                None => {
                    return None;
                },
            };
            match self.const_pool.get(&(name_idx as usize)) {
                Some(ConstantValue::String(text)) => {
                    if str_equal(text.as_str(), name) {
                        return Some(func_idx);
                    }
                },
                _ => {},
            }
            i += 1;
        }
        None
    }

    /// A copy of what a register holds.
    fn register(&self, idx: u32) -> (r: Value)
        requires
            idx < 16,
        ensures
            self@.registers.len() == 16,
            r@ == self@.registers[idx as int],
    {
        match self.registers.get(idx as usize) {
            Some(value) => value,
            None => Value::Uninitialized,
        }
    }

    /// Carries out an instruction that neither calls nor returns.
    fn apply(&mut self, opcode: OpCode, params: &Vec<u32>) -> (r: Result<(), VmError>)
        requires
            !(opcode is CALL) && !(opcode is RETURN),
            operands_in_range(opcode, params@),
        ensures
            match spec_apply(old(self)@, opcode, params@) {
                Ok(m) => r is Ok && final(self)@ == m,
                Err(k) => r matches Err(e) && e.spec_kind() == k,
            },
            same_program(final(self)@, old(self)@),
    {
        proof {
            self.registers.lemma_len();
            let layout = opcode.spec_layout();
            assert forall|i: int| 0 <= i < layout.len() implies params@[i] <= crate::instructions::operand_mask(layout[i]) by {}
        }
        match opcode {
            OpCode::MAKETABLE => {
                self.registers.set_new_table(params[0] as usize);
                Ok(())
            },
            OpCode::MAKELIST => {
                let empty = Value::List(Vec::new());
                assert(empty@->List_0 =~= Seq::<ValueView>::empty());
                self.registers.set(params[0] as usize, empty);
                Ok(())
            },
            OpCode::LOADCONST => {
                let idx = params[1] as usize;
                match self.const_pool.get(&idx) {
                    Some(constant) => {
                        let value = constant.to_value();
                        self.registers.set(params[0] as usize, value);
                        Ok(())
                    },
                    None => Err(vm_error("Error in get constant value")),
                }
            },
            OpCode::SETATTR => {
                let key = self.register(params[1]);
                let value = self.register(params[2]);
                match key.to_string() {
                    Ok(text) => {
                        self.registers.set_attr_table(params[0] as usize, text, value);
                        Ok(())
                    },
                    Err(e) => Err(e),
                }
            },
            OpCode::ADDLIST => {
                let value = self.register(params[1]);
                self.registers.add_to_list(params[0] as usize, value);
                Ok(())
            },
            OpCode::MAKEFUNC => {
                self.registers.set(params[0] as usize, Value::Function(params[1]));
                Ok(())
            },
            OpCode::MAKETHUNK => {
                self.registers.set(params[0] as usize, Value::Thunk(params[1]));
                Ok(())
            },
            OpCode::LOADARG => {
                let ghost queue = self.args_queue@;
                match self.args_queue.pop_front() {
                    Some(arg) => {
                        assert(values_view(self.args_queue@) =~= values_view(queue).subrange(
                            1,
                            queue.len() as int,
                        ));
                        self.registers.set(params[0] as usize, arg);
                        Ok(())
                    },
                    None => Err(
                        typed_error(VmErrorKind::InstructionExecution, "Error in pop args_queue"),
                    ),
                }
            },
            OpCode::PUSHARG => {
                let value = self.register(params[0]);
                let ghost queue = self.args_queue@;
                self.args_queue.push_back(value);
                assert(values_view(self.args_queue@) =~= values_view(queue).push(value@));
                Ok(())
            },
            OpCode::ADD | OpCode::SUB | OpCode::MUL | OpCode::DIV => {
                let lhs = self.register(params[1]);
                let rhs = self.register(params[2]);
                match (lhs, rhs) {
                    (Value::Int(a), Value::Int(b)) => {
                        let result = match opcode {
                            OpCode::ADD => a.checked_add(b),
                            OpCode::SUB => a.checked_sub(b),
                            OpCode::MUL => a.checked_mul(b),
                            _ => a.checked_div(b),
                        };
                        match result {
                            Some(v) => {
                                self.registers.set(params[0] as usize, Value::Int(v));
                                Ok(())
                            },
                            None => Err(
                                typed_error(
                                    VmErrorKind::InstructionExecution,
                                    "the result of the arithmetic is no number",
                                ),
                            ),
                        }
                    },
                    _ => Err(
                        typed_error(
                            VmErrorKind::ValueTypeMismatch,
                            "arithmetic on a value that is no number",
                        ),
                    ),
                }
            },
            _ => Err(vm_error("Unexpect opcode")),
        }
    }

    /// Carries out a call: runs the callee on registers of its own and puts
    /// what it yields into the caller's register.
    fn invoke(&mut self, dst: u32, name_reg: u32, depth: usize) -> (r: Result<(), VmError>)
        requires
            dst < 16,
            name_reg < 16,
        ensures
            match spec_invoke(old(self)@, dst as int, name_reg as int, depth as nat) {
                Ok(m) => r is Ok && final(self)@ == m,
                Err(k) => r matches Err(e) && e.spec_kind() == k,
            },
            same_program(final(self)@, old(self)@),
        decreases depth, 0nat,
    {
        let ghost m = self@;
        let name = match self.register(name_reg) {
            Value::String(name) => name,
            _ => {
                return Err(
                    typed_error(VmErrorKind::ValueTypeMismatch, "the callee's name is no string"),
                );
            },
        };
        let idx = match self.find_global(name.as_str()) {
            Some(idx) => idx,
            None => {
                return Err(typed_error(VmErrorKind::NotFoundFunction, "no function has the name"));
            },
        };
        let target = match self.function_start(idx) {
            Some(target) => target,
            None => {
                return Err(
                    typed_error(VmErrorKind::NotFoundFunction, "the function table is too short"),
                );
            },
        };
        if depth == 0 {
            return Err(
                typed_error(VmErrorKind::InstructionExecution, "too many calls are under way"),
            );
        }
        if target > self.bytes.len() as u64 {
            return Err(vm_error("Error in get ins value"));
        }
        let mut saved = Register::new();
        std::mem::swap(&mut saved, &mut self.registers);
        let value = match self.run(target as usize, depth - 1) {
            Ok(value) => value,
            Err(e) => {
                return Err(e);
            },
        };
        std::mem::swap(&mut saved, &mut self.registers);
        self.registers.set(dst as usize, value);
        Ok(())
    }

    /// Runs the instructions from `cursor` on until one yields a value, with
    /// at most `depth` calls under way at once.
    fn run(&mut self, from: usize, depth: usize) -> (r: Result<Value, VmError>)
        ensures
            run_gives(spec_run(old(self)@, from as int, depth as nat), final(self)@, r),
            same_program(final(self)@, old(self)@),
        decreases depth, 1nat,
    {
        let mut cursor = from;
        loop
            invariant
                same_program(self@, old(self)@),
                spec_run(old(self)@, from as int, depth as nat) == spec_run(
                    self@,
                    cursor as int,
                    depth as nat,
                ),
            decreases self.bytes@.len() - cursor,
        {
            let ghost m = self@;
            let ghost at = cursor;
            let ins = match read_u32(self.bytes.as_slice(), &mut cursor) {
                Some(v) => v,
                None => {
                    return Err(vm_error("Error in get ins value"));
                },
            };
            let opcode = match extract_opcode(ins) {
                Some(v) => v,
                None => {
                    return Err(vm_error("Error in get opcode"));
                },
            };
            let params = opcode.decode(ins);
            proof {
                lemma_decode_in_range(opcode, ins);
                let layout = opcode.spec_layout();
                assert forall|i: int| 0 <= i < layout.len() implies params@[i] <= crate::instructions::operand_mask(layout[i]) by {}
            }
            match opcode {
                OpCode::RETURN => {
                    return Ok(self.register(params[0]));
                },
                OpCode::CALL => {
                    match self.invoke(params[0], params[1], depth) {
                        Ok(_) => {},
                        Err(e) => {
                            return Err(e);
                        },
                    }
                },
                _ => {
                    match self.apply(opcode, &params) {
                        Ok(_) => {},
                        Err(e) => {
                            return Err(e);
                        },
                    }
                },
            }
            assert(self@ == (VmModel { registers: self@.registers, args: self@.args, ..m }));
        }
    }

    /// Runs the instructions from `cursor` on until one yields a value.
    ///
    /// There is no jump: the run goes from instruction to instruction, and
    /// ends at a RETURN with the value of its register, or with an error
    /// where the bytes end, an opcode is unknown or an instruction cannot be
    /// applied.
    pub fn handle_instruction(&mut self, cursor: usize) -> (r: Result<Value, VmError>)
        ensures
            run_gives(
                spec_run(old(self)@, cursor as int, MAX_CALL_DEPTH as nat),
                final(self)@,
                r,
            ),
            same_program(final(self)@, old(self)@),
    {
        self.run(cursor, MAX_CALL_DEPTH)
    }

    /// Runs the code of the thunk with the number `thunk_idx`.
    fn eval_thunk(&mut self, thunk_idx: u32) -> (r: Result<Value, VmError>)
        ensures
            run_gives(spec_force_thunk(old(self)@, thunk_idx), final(self)@, r),
            same_program(final(self)@, old(self)@),
    {
        let start = match self.thunk_table.get(&(thunk_idx as usize)) {
            Some(start) => Some(*start),
            None => None,
        };
        match start {
            Some(start) => self.handle_instruction(start as usize),
            None => Ok(Value::Uninitialized),
        }
    }

    /// Forces a value and reads it as a `T`: the code of a thunk is run to
    /// its end, any other value is taken as it is.
    pub fn force<T>(&mut self, v: Value) -> (r: Result<T, VmError>) where T: FromValue
        ensures
            read_gives::<T>(spec_force(old(self)@, v@), final(self)@, r),
            same_program(final(self)@, old(self)@),
    {
        let value = match v {
            Value::Thunk(thunk_idx) => match self.eval_thunk(thunk_idx) {
                Ok(value) => value,
                Err(e) => {
                    return Err(e);
                },
            },
            other => other,
        };
        T::from_value(value)
    }

    /// Calls the function with the number `idx` on `args` and gives what it
    /// yields. Arguments that were pending before are dropped.
    pub fn eval_function(&mut self, idx: u32, args: Vec<Value>) -> (r: Result<Value, VmError>)
        ensures
            run_gives(spec_call(old(self)@, idx, values_view(args@)), final(self)@, r),
            same_program(final(self)@, old(self)@),
    {
        let target = match self.function_start(idx) {
            Some(target) => target,
            None => {
                return Err(typed_error(VmErrorKind::NotFoundFunction, "no function has the number"));
            },
        };
        self.args_queue.clear();
        let mut args = args;
        let ghost all = args@;
        let mut i: usize = 0;
        let n = args.len();
        assert(self.args_queue@ =~= all.take(0));
        while i < n
            invariant
                i <= n,
                n == all.len(),
                args@.len() == n - i,
                args@ == all.skip(i as int),
                self.args_queue@ == all.take(i as int),
                self@ == (VmModel { args: self@.args, ..old(self)@ }),
            decreases n - i,
        {
            let value = args.remove(0);
            self.args_queue.push_back(value);
            i += 1;
            assert(args@ =~= all.skip(i as int));
            assert(self.args_queue@ =~= all.take(i as int));
        }
        assert(all.take(n as int) =~= all);
        if target > self.bytes.len() as u64 {
            return Err(vm_error("Error in get ins value"));
        }
        self.handle_instruction(target as usize)
    }

    /// Evaluates the dotted path `str_addr` and reads the value as a `T`.
    ///
    /// The walk starts at the start of the code. For each key the code at
    /// the cursor is run; where it yields a table, the key is looked up in
    /// it: a thunk found there moves the cursor to its code, so that a table
    /// within a table is built only when the walk passes through it. A key
    /// that the table lacks is an error. A thunk at the end of the walk is
    /// forced.
    pub fn eval<T>(&mut self, str_addr: &str) -> (r: Result<T, VmError>) where T: FromValue
        ensures
            read_gives::<T>(spec_eval(old(self)@, str_addr@), final(self)@, r),
            same_program(final(self)@, old(self)@),
    {
        let code_offset = self.metadata.code_offset;
        let mut cursor = code_offset as usize;
        let mut value: Value = Value::Uninitialized;
        let keys = crate::vm::utils::split_path(str_addr);
        let ghost path = crate::vm::utils::spec_split_path(str_addr@);
        let mut i: usize = 0;
        while i < keys.len()
            invariant
                i <= keys@.len(),
                keys@.len() == path.len(),
                path == crate::vm::utils::spec_split_path(str_addr@),
                forall|k: int| 0 <= k < keys@.len() ==> (#[trigger] keys@[k])@ == path[k],
                same_program(self@, old(self)@),
                spec_eval_from(
                    old(self)@,
                    path,
                    0,
                    old(self)@.metadata.code_offset as int,
                    ValueView::Uninitialized,
                ) == spec_eval_from(self@, path, i as int, cursor as int, value@),
            decreases keys@.len() - i,
        {
            value = match self.handle_instruction(cursor) {
                Ok(value) => value,
                Err(e) => {
                    return Err(e);
                },
            };
            let mut found: Option<Value> = None;
            let mut is_table = false;
            if let Value::Table(table) = &value {
                is_table = true;
                let mut key_path: Vec<&str> = Vec::new();
                key_path.push(keys[i].as_str());
                found = table.get(key_path);
                proof {
                    assert(path_model(key_path@) =~= seq![path[i as int]]);
                    lemma_tree_view_model(**table);
                    lemma_model_view_walk(table.model(), seq![path[i as int]]);
                }
            }
            if is_table {
                match found {
                    Some(Value::Thunk(thunk_idx)) => {
                        match self.thunk_table.get(&(thunk_idx as usize)) {
                            Some(start) => {
                                cursor = *start as usize;
                            },
                            None => {},
                        }
                        value = Value::Thunk(thunk_idx);
                    },
                    Some(n) => {
                        value = n;
                    },
                    None => {
                        return Err(
                            VmError::UnexpectedError {
                                message: String::from_str("property not found: ").concat(
                                    keys[i].as_str(),
                                ),
                            },
                        );
                    },
                }
            }
            i += 1;
        }
        self.force::<T>(value)
    }
}

} // verus!

//! The bytecode generator: it walks a syntax tree, allocates registers,
//! collects constants, thunks and functions, emits instructions, and lays
//! the result out as a binary program.

pub mod constant;
pub mod function;
pub mod load_global;
pub mod model;
pub mod thunk;

use vstd::prelude::*;
use vstd::utf8::encode_utf8;
use crate::compiler::ast::{exprs_view, fields_view, names_view, Expr, ExprView, Operator};
use crate::compiler::bytecode::constant::{Constant, ConstantModel};
use crate::compiler::bytecode::function::{Function, FunctionModel};
use crate::compiler::bytecode::thunk::{Thunk, ThunkModel};
use crate::compiler::bytecode::model::{
    kind_of,
    spec_args,
    spec_arithmetic_opcode,
    spec_call,
    spec_declare,
    spec_defer,
    spec_emit,
    spec_fields,
    spec_items,
    spec_list,
    spec_load,
    spec_release,
    spec_table,
    spec_take,
    spec_bind,
    spec_drain,
    spec_free_all,
    spec_functions,
    spec_get_binary,
    spec_intern_names,
    spec_params,
    spec_place_function,
    spec_place_thunk,
    spec_use_global,
    spec_visit,
    Outcome,
    Progress,
};
use crate::compiler::error::{BytecodeGenerationError, GenerationErrorKind};
use crate::instructions::{
    lemma_encode_decode_roundtrip,
    operands_in_range,
    spec_decode,
    spec_encode,
    spec_extract_opcode,
    spec_word_bytes,
    OpCode,
    CONST_MASK,
    MAGIC_NUMBER,
    METADATA_BYTES,
    VERSION,
};
use crate::vm::utils::{
    lemma_u32_roundtrip,
    spec_i64_be,
    spec_u32_be,
    spec_u32_from_be,
    str_equal,
    write_bytes,
    write_i64,
    write_u32,
    write_u8,
};

verus! {

/// The most instructions that a program can hold: their bytes and the rest of
/// the program must fit a 32-bit length.
pub const MAX_INSTRUCTIONS: u32 = 0x0FFF_FFFF;

/// The first place from `from` on at which `x` stands in `s`, or the length
/// of `s` where it stands at none.
pub open spec fn position<A>(s: Seq<A>, x: A, from: int) -> int
    decreases s.len() - from,
{
    if from < 0 || from >= s.len() {
        s.len() as int
    } else if s[from] == x {
        from
    } else {
        position(s, x, from + 1)
    }
}

/// The search gives a place that holds `x`, or the length; no earlier place
/// from `from` on holds `x`.
pub proof fn lemma_position<A>(s: Seq<A>, x: A, from: int)
    requires
        0 <= from <= s.len(),
    ensures
        from <= position(s, x, from) <= s.len(),
        position(s, x, from) < s.len() ==> s[position(s, x, from)] == x,
        forall|j: int| from <= j < position(s, x, from) ==> s[j] != x,
    decreases s.len() - from,
{
    if from < s.len() && s[from] != x {
        lemma_position(s, x, from + 1);
    }
}

/// A place that holds `x`, with no earlier place holding it, is what the
/// search gives.
pub proof fn lemma_position_is<A>(s: Seq<A>, x: A, at: int)
    requires
        0 <= at <= s.len(),
        at < s.len() ==> s[at] == x,
        forall|j: int| 0 <= j < at ==> s[j] != x,
    ensures
        position(s, x, 0) == at,
{
    lemma_position(s, x, 0);
}

/// The names of a run of named things.
pub open spec fn keys_of<V>(entries: Seq<(Seq<char>, V)>) -> Seq<Seq<char>> {
    Seq::new(entries.len(), |i: int| entries[i].0)
}

/// What the generator holds, as a mathematical value.
pub struct GenModel {
    /// The constant pool; the constant at place `i` has the number `i + 1`.
    pub constants: Seq<ConstantModel>,
    /// The thunks; the thunk at place `i` has the number `i + 1`.
    pub thunks: Seq<ThunkModel>,
    /// The functions; the function at place `i` has the number `i + 1`.
    pub functions: Seq<FunctionModel>,
    /// The functions that a program may call by name.
    pub global_functions: Seq<(Seq<char>, FunctionModel)>,
    /// The global functions that the program calls, each with the number of
    /// its entry among the functions.
    pub used: Seq<(Seq<char>, usize)>,
    pub ins_count: u32,
    /// For each register whether it is in use.
    pub registers: Seq<bool>,
    /// The instructions emitted so far, four bytes each.
    pub code: Seq<u8>,
    /// The register of each parameter of the function whose body is being
    /// compiled.
    pub context: Seq<(Seq<char>, u8)>,
}

/// The number of bytes that a constant takes in the constant section.
pub open spec fn constant_len(c: ConstantModel) -> int {
    match c {
        ConstantModel::Number(_) => 9,
        ConstantModel::String(text) => 5 + encode_utf8(text).len() as int,
    }
}

/// The bytes of a constant in the constant section: a tag, then for a number
/// its eight bytes, for a string the length of its text in bytes and the
/// text.
pub open spec fn constant_bytes(c: ConstantModel) -> Seq<u8> {
    match c {
        ConstantModel::Number(number) => seq![0u8] + spec_i64_be(number as i64),
        ConstantModel::String(text) => seq![1u8] + spec_u32_be(encode_utf8(text).len() as u32)
            + encode_utf8(text),
    }
}

/// The number of bytes of the constant section.
pub open spec fn constants_len(constants: Seq<ConstantModel>) -> int
    decreases constants.len(),
{
    if constants.len() == 0 {
        0
    } else {
        constants_len(constants.drop_last()) + constant_len(constants.last())
    }
}

/// The constant section: the constants in the order of their numbers.
pub open spec fn constants_bytes(constants: Seq<ConstantModel>) -> Seq<u8>
    decreases constants.len(),
{
    if constants.len() == 0 {
        Seq::empty()
    } else {
        constants_bytes(constants.drop_last()) + constant_bytes(constants.last())
    }
}

/// The thunk table: for each thunk the number of the instruction at which
/// its code starts.
pub open spec fn thunks_bytes(thunks: Seq<ThunkModel>) -> Seq<u8>
    decreases thunks.len(),
{
    if thunks.len() == 0 {
        Seq::empty()
    } else {
        thunks_bytes(thunks.drop_last()) + spec_u32_be(thunks.last().offset)
    }
}

/// The function table: for each function the number of its parameters and
/// the number of the instruction at which its code starts.
pub open spec fn functions_bytes(functions: Seq<FunctionModel>) -> Seq<u8>
    decreases functions.len(),
{
    if functions.len() == 0 {
        Seq::empty()
    } else {
        functions_bytes(functions.drop_last()) + spec_u32_be(
            functions.last().params.len() as u32,
        ) + spec_u32_be(functions.last().offset)
    }
}

/// The table of the global functions in use: for each the number of the
/// constant that holds its name and the number of its function.
pub open spec fn used_bytes(used: Seq<(Seq<char>, usize)>, constants: Seq<ConstantModel>) -> Seq<
    u8,
>
    decreases used.len(),
{
    if used.len() == 0 {
        Seq::empty()
    } else {
        used_bytes(used.drop_last(), constants) + spec_u32_be(
            (position(constants, ConstantModel::String(used.last().0), 0) + 1) as u32,
        ) + spec_u32_be(used.last().1 as u32)
    }
}

impl GenModel {
    /// The number of a constant in the pool, or the number it would get.
    pub open spec fn const_number(self, c: ConstantModel) -> int {
        position(self.constants, c, 0) + 1
    }

    /// The generator after a constant was looked up and, where the pool
    /// lacked it, added.
    pub open spec fn intern(self, c: ConstantModel) -> GenModel {
        if position(self.constants, c, 0) < self.constants.len() {
            self
        } else {
            GenModel { constants: self.constants.push(c), ..self }
        }
    }

    /// The first register that is not in use, or 16.
    pub open spec fn first_free(self) -> int {
        position(self.registers, false, 0)
    }

    /// The generator after four bytes of code were appended.
    pub open spec fn emit(self, bytes: Seq<u8>) -> GenModel {
        GenModel { code: self.code + bytes, ins_count: (self.ins_count + 1) as u32, ..self }
    }

    /// Where the thunk table starts in the program.
    pub open spec fn thunk_offset(self) -> int {
        METADATA_BYTES + constants_len(self.constants)
    }

    /// Where the function table starts in the program.
    pub open spec fn function_offset(self) -> int {
        self.thunk_offset() + 4 * self.thunks.len()
    }

    /// Where the table of the global functions in use starts.
    pub open spec fn global_function_offset(self) -> int {
        self.function_offset() + 8 * self.functions.len()
    }

    /// Where the instructions start in the program.
    pub open spec fn code_offset(self) -> int {
        self.global_function_offset() + 8 * self.used.len()
    }

    /// The length of the whole program, its footer included.
    pub open spec fn total_len(self) -> int {
        self.code_offset() + 4 * self.ins_count + 4
    }

    /// Whether every length and offset of the program fits 32 bits.
    pub open spec fn fits(self) -> bool {
        self.total_len() <= u32::MAX
    }

    /// Whether the constant pool holds the name of every global function in
    /// use.
    pub open spec fn names_interned(self) -> bool {
        forall|k: int|
            0 <= k < self.used.len() ==> position(
                self.constants,
                ConstantModel::String((#[trigger] self.used[k]).0),
                0,
            ) < self.constants.len()
    }

    /// The header: the magic value, the version, and for each section its
    /// offset in bytes and the number of its entries.
    pub open spec fn header_bytes(self) -> Seq<u8> {
        spec_u32_be(MAGIC_NUMBER) + spec_u32_be(VERSION) + spec_u32_be(METADATA_BYTES)
            + spec_u32_be(self.constants.len() as u32) + spec_u32_be(self.thunk_offset() as u32)
            + spec_u32_be(self.thunks.len() as u32) + spec_u32_be(self.function_offset() as u32)
            + spec_u32_be(self.functions.len() as u32) + spec_u32_be(
            self.global_function_offset() as u32,
        ) + spec_u32_be(self.used.len() as u32) + spec_u32_be(self.code_offset() as u32)
            + spec_u32_be(self.ins_count)
    }

    /// The footer: the length of the whole program.
    pub open spec fn footer_bytes(self) -> Seq<u8> {
        spec_u32_be(self.total_len() as u32)
    }

    /// The binary program: header, constants, thunk table, function table,
    /// table of the global functions in use, instructions, footer.
    pub open spec fn binary(self) -> Seq<u8> {
        self.header_bytes() + constants_bytes(self.constants) + thunks_bytes(self.thunks)
            + functions_bytes(self.functions) + used_bytes(self.used, self.constants) + self.code
            + self.footer_bytes()
    }

    /// Whether the generator's tables are consistent: sixteen registers,
    /// four bytes of code for each instruction, no constant twice, no more
    /// constants, thunks, functions or instructions than an instruction or
    /// the program's lengths can address, and no code that starts after the
    /// last instruction.
    pub open spec fn wf(self) -> bool {
        &&& self.registers.len() == 16
        &&& self.code.len() == 4 * self.ins_count
        &&& self.ins_count <= MAX_INSTRUCTIONS
        &&& self.constants.len() <= CONST_MASK
        &&& self.constants.no_duplicates()
        &&& self.thunks.len() <= CONST_MASK
        &&& forall|k: int|
            0 <= k < self.thunks.len() ==> (#[trigger] self.thunks[k]).offset <= self.ins_count
        &&& self.functions.len() <= CONST_MASK
        &&& forall|k: int|
            0 <= k < self.functions.len() ==> (#[trigger] self.functions[k]).offset
                <= self.ins_count
        &&& forall|k: int|
            0 <= k < self.functions.len() ==> (#[trigger] self.functions[k]).params.len()
                <= u32::MAX
        &&& self.used.len() <= self.functions.len()
        &&& forall|k: int|
            0 <= k < self.used.len() ==> 1 <= (#[trigger] self.used[k]).1 <= self.functions.len()
        &&& forall|k: int| 0 <= k < self.context.len() ==> (#[trigger] self.context[k]).1 < 16
    }
}

/// The generator of the bytecode of one program.
pub struct BytecodeGen {
    /// The constant pool; the constant at place `i` has the number `i + 1`.
    pub constants: Vec<Constant>,
    pub thunks: Vec<Thunk>,
    pub functions: Vec<Function>,
    pub global_functions: Vec<(String, Function)>,
    pub global_function_in_used: Vec<(String, usize)>,
    pub ins_count: u32,
    pub register_in_used: [bool; 16],
    pub ins_code: Vec<u8>,
    pub context_var: Vec<(String, u8)>,
}

impl View for BytecodeGen {
    type V = GenModel;

    open spec fn view(&self) -> GenModel {
        GenModel {
            constants: self.constants@.map_values(|c: Constant| c@),
            thunks: self.thunks@.map_values(|t: Thunk| t@),
            functions: self.functions@.map_values(|f: Function| f@),
            global_functions: self.global_functions@.map_values(
                |e: (String, Function)| (e.0@, e.1@),
            ),
            used: self.global_function_in_used@.map_values(|e: (String, usize)| (e.0@, e.1)),
            ins_count: self.ins_count,
            registers: self.register_in_used@,
            code: self.ins_code@,
            context: self.context_var@.map_values(|e: (String, u8)| (e.0@, e.1)),
        }
    }
}

impl Default for BytecodeGen {
    fn default() -> (r: Self)
        ensures
            r@ == BytecodeGen::new_model(),
            r@.wf(),
    {
        BytecodeGen::new()
    }
}

/// The length of the constant section grows with each constant.
pub proof fn lemma_constants_len_push(constants: Seq<ConstantModel>, c: ConstantModel)
    ensures
        constants_len(constants.push(c)) == constants_len(constants) + constant_len(c),
        constants_bytes(constants.push(c)) == constants_bytes(constants) + constant_bytes(c),
        constant_len(c) >= 5,
        constants_len(constants) >= 0,
    decreases constants.len(),
{
    assert(constants.push(c).drop_last() =~= constants);
    if constants.len() > 0 {
        lemma_constants_len_push(constants.drop_last(), constants.last());
        assert(constants.drop_last().push(constants.last()) =~= constants);
    }
}

/// The first constants of a pool take no more bytes than the whole pool.
pub proof fn lemma_constants_len_prefix(constants: Seq<ConstantModel>, n: int)
    requires
        0 <= n <= constants.len(),
    ensures
        0 <= constants_len(constants.take(n)) <= constants_len(constants),
        n < constants.len() ==> constants_len(constants.take(n + 1)) == constants_len(
            constants.take(n),
        ) + constant_len(constants[n]),
        n < constants.len() ==> constants_bytes(constants.take(n + 1)) == constants_bytes(
            constants.take(n),
        ) + constant_bytes(constants[n]),
    decreases constants.len() - n,
{
    if n < constants.len() {
        assert(constants.take(n + 1) =~= constants.take(n).push(constants[n]));
        lemma_constants_len_push(constants.take(n), constants[n]);
        lemma_constants_len_prefix(constants, n + 1);
    } else {
        assert(constants.take(n) =~= constants);
        if constants.len() > 0 {
            lemma_constants_len_push(constants.drop_last(), constants.last());
        }
    }
}

/// The constant section has the length that the header counts on.
pub proof fn lemma_constants_bytes_len(constants: Seq<ConstantModel>)
    requires
        constants_len(constants) <= u32::MAX,
    ensures
        constants_bytes(constants).len() == constants_len(constants),
    decreases constants.len(),
{
    if constants.len() > 0 {
        lemma_constants_len_push(constants.drop_last(), constants.last());
        assert(constants.drop_last().push(constants.last()) =~= constants);
        lemma_constants_bytes_len(constants.drop_last());
    }
}

/// The thunk table takes four bytes for each thunk.
pub proof fn lemma_thunks_bytes_len(thunks: Seq<ThunkModel>)
    ensures
        thunks_bytes(thunks).len() == 4 * thunks.len(),
    decreases thunks.len(),
{
    if thunks.len() > 0 {
        lemma_thunks_bytes_len(thunks.drop_last());
    }
}

/// The function table takes eight bytes for each function.
pub proof fn lemma_functions_bytes_len(functions: Seq<FunctionModel>)
    ensures
        functions_bytes(functions).len() == 8 * functions.len(),
    decreases functions.len(),
{
    if functions.len() > 0 {
        lemma_functions_bytes_len(functions.drop_last());
    }
}

/// The table of the global functions in use takes eight bytes for each.
pub proof fn lemma_used_bytes_len(used: Seq<(Seq<char>, usize)>, constants: Seq<ConstantModel>)
    ensures
        used_bytes(used, constants).len() == 8 * used.len(),
    decreases used.len(),
{
    if used.len() > 0 {
        lemma_used_bytes_len(used.drop_last(), constants);
    }
}

/// In a program whose lengths fit 32 bits, every section starts where the
/// header says, and the footer holds the length of the whole program.
pub proof fn lemma_binary_layout(g: GenModel)
    requires
        g.wf(),
        g.fits(),
    ensures
        g.binary().len() == g.total_len(),
        g.header_bytes().len() == METADATA_BYTES,
        g.binary().subrange(METADATA_BYTES as int, g.thunk_offset()) == constants_bytes(
            g.constants,
        ),
        g.binary().subrange(g.thunk_offset(), g.function_offset()) == thunks_bytes(g.thunks),
        g.binary().subrange(g.function_offset(), g.global_function_offset()) == functions_bytes(
            g.functions,
        ),
        g.binary().subrange(g.global_function_offset(), g.code_offset()) == used_bytes(
            g.used,
            g.constants,
        ),
        g.binary().subrange(g.code_offset(), g.total_len() - 4) == g.code,
        g.binary().subrange(g.total_len() - 4, g.total_len()) == spec_u32_be(
            g.binary().len() as u32,
        ),
{
    lemma_constants_len_prefix(g.constants, 0);
    lemma_constants_bytes_len(g.constants);
    lemma_thunks_bytes_len(g.thunks);
    lemma_functions_bytes_len(g.functions);
    lemma_used_bytes_len(g.used, g.constants);
    let h = g.header_bytes();
    let c = constants_bytes(g.constants);
    let t = thunks_bytes(g.thunks);
    let f = functions_bytes(g.functions);
    let u = used_bytes(g.used, g.constants);
    let foot = g.footer_bytes();
    let b = g.binary();
    assert(h.len() == 48);
    assert(b.len() == g.total_len());
    lemma_middle(h, c, t + f + u + g.code + foot);
    assert(b =~= h + c + (t + f + u + g.code + foot));
    lemma_middle(h + c, t, f + u + g.code + foot);
    assert(b =~= (h + c) + t + (f + u + g.code + foot));
    lemma_middle(h + c + t, f, u + g.code + foot);
    assert(b =~= (h + c + t) + f + (u + g.code + foot));
    lemma_middle(h + c + t + f, u, g.code + foot);
    assert(b =~= (h + c + t + f) + u + (g.code + foot));
    lemma_middle(h + c + t + f + u, g.code, foot);
    lemma_middle(h + c + t + f + u + g.code, foot, Seq::empty());
    assert(b =~= (h + c + t + f + u + g.code) + foot + Seq::empty());
}

/// The middle of three runs stands in their concatenation after the first.
pub proof fn lemma_middle<A>(pre: Seq<A>, mid: Seq<A>, post: Seq<A>)
    ensures
        (pre + mid + post).subrange(pre.len() as int, (pre.len() + mid.len()) as int) == mid,
{
    assert((pre + mid + post).subrange(pre.len() as int, (pre.len() + mid.len()) as int) =~= mid);
}

/// Looking a constant up twice gives the same number both times, and the
/// second time the pool stays as it is: a literal has one entry however often
/// it occurs.
pub proof fn lemma_intern_once(g: GenModel, c: ConstantModel)
    ensures
        g.intern(c).const_number(c) == g.const_number(c),
        g.intern(c).intern(c) == g.intern(c),
        g.intern(c).constants.len() <= g.constants.len() + 1,
        g.constants.no_duplicates() ==> g.intern(c).constants.no_duplicates(),
        1 <= g.const_number(c) <= g.intern(c).constants.len(),
        g.intern(c).constants[g.const_number(c) - 1] == c,
{
    lemma_position(g.constants, c, 0);
    let at = position(g.constants, c, 0);
    if at == g.constants.len() {
        let grown = g.constants.push(c);
        lemma_position_is(grown, c, at);
    }
}

/// Looking a constant up keeps the number of every constant that the pool
/// held.
pub proof fn lemma_intern_keeps(g: GenModel, c: ConstantModel, other: ConstantModel)
    requires
        position(g.constants, other, 0) < g.constants.len(),
    ensures
        g.intern(c).const_number(other) == g.const_number(other),
{
    lemma_position(g.constants, other, 0);
    lemma_position(g.constants, c, 0);
    let at = position(g.constants, other, 0);
    if position(g.constants, c, 0) == g.constants.len() {
        lemma_position_is(g.constants.push(c), other, at);
    }
}

} // verus!

verus! {

impl BytecodeGen {
    /// What a new generator holds: nothing.
    pub open spec fn new_model() -> GenModel {
        GenModel {
            constants: Seq::empty(),
            thunks: Seq::empty(),
            functions: Seq::empty(),
            global_functions: Seq::empty(),
            used: Seq::empty(),
            ins_count: 0,
            registers: Seq::new(16, |i: int| false),
            code: Seq::empty(),
            context: Seq::empty(),
        }
    }

    /// A generator that holds nothing: no constants, no code, every register
    /// free.
    pub fn new() -> (r: Self)
        ensures
            r@ == Self::new_model(),
            r@.wf(),
            r@.constants.len() == 0,
            r@.thunks.len() == 0,
            r@.functions.len() == 0,
            r@.global_functions.len() == 0,
            r@.used.len() == 0,
            r@.ins_count == 0,
            r@.code.len() == 0,
            r@.context.len() == 0,
            forall|i: int| 0 <= i < 16 ==> !r@.registers[i],
    {
        let r = BytecodeGen {
            constants: Vec::new(),
            thunks: Vec::new(),
            functions: Vec::new(),
            global_functions: Vec::new(),
            global_function_in_used: Vec::new(),
            ins_count: 0,
            register_in_used: [false;16],
            ins_code: Vec::new(),
            context_var: Vec::new(),
        };
        proof {
            let m = Self::new_model();
            assert(r@.constants =~= m.constants);
            assert(r@.thunks =~= m.thunks);
            assert(r@.functions =~= m.functions);
            assert(r@.global_functions =~= m.global_functions);
            assert(r@.used =~= m.used);
            assert(r@.registers =~= m.registers);
            assert(r@.code =~= m.code);
            assert(r@.context =~= m.context);
        }
        r
    }

    /// The generator with `global_func` as the functions that a program may
    /// call by name.
    pub fn with_global_func(self, global_func: Vec<(String, Function)>) -> (r: Self)
        ensures
            r@ == (GenModel {
                global_functions: global_func@.map_values(|e: (String, Function)| (e.0@, e.1@)),
                ..self@
            }),
    {
        let mut generator = self;
        generator.global_functions = global_func;
        generator
    }

    /// The number of a constant in the pool. A constant that the pool lacks
    /// is added at its end; one that it holds keeps its number.
    pub fn make_const(&mut self, constant: Constant) -> (r: usize)
        requires
            old(self)@.constants.len() < usize::MAX,
        ensures
            r == old(self)@.const_number(constant@),
            final(self)@ == old(self)@.intern(constant@),
    {
        let ghost pool = self@.constants;
        let mut i: usize = 0;
        while i < self.constants.len()
            invariant
                i <= self.constants@.len(),
                *self == *old(self),
                pool == self@.constants,
                position(pool, constant@, 0) == position(pool, constant@, i as int),
            decreases self.constants@.len() - i,
        {
            if self.constants[i].same(&constant) {
                return i + 1;
            }
            i += 1;
        }
        let idx = self.constants.len() + 1;
        self.constants.push(constant);
        assert(self@.constants =~= pool.push(constant@));
        idx
    }

    /// Takes the first register that is not in use, if there is one.
    pub fn get_register(&mut self) -> (r: Option<u8>)
        requires
            old(self)@.registers.len() == 16,
        ensures
            match r {
                Some(reg) => reg == old(self)@.first_free() && reg < 16 && final(self)@
                    == (GenModel {
                    registers: old(self)@.registers.update(reg as int, true),
                    ..old(self)@
                }),
                None => old(self)@.first_free() == 16 && final(self)@ == old(self)@,
            },
    {
        let ghost regs = self@.registers;
        let mut i: usize = 0;
        while i < 16
            invariant
                i <= 16,
                *self == *old(self),
                regs == self@.registers,
                regs.len() == 16,
                position(regs, false, 0) == position(regs, false, i as int),
            decreases 16 - i,
        {
            if !self.register_in_used[i] {
                self.register_in_used[i] = true;
                assert(self@.registers =~= regs.update(i as int, true));
                return Some(i as u8);
            }
            i += 1;
        }
        None
    }

    /// Marks a register as free.
    pub fn free_register(&mut self, idx: usize)
        requires
            idx < 16,
        ensures
            final(self)@ == (GenModel {
                registers: old(self)@.registers.update(idx as int, false),
                ..old(self)@
            }),
    {
        self.register_in_used[idx] = false;
        assert(self@.registers =~= old(self)@.registers.update(idx as int, false));
    }

    /// Marks each of the registers as free.
    pub fn free_registers(&mut self, idx_vec: Vec<usize>)
        requires
            forall|k: int| 0 <= k < idx_vec@.len() ==> idx_vec@[k] < 16,
        ensures
            final(self)@.registers.len() == 16,
            forall|reg: int|
                0 <= reg < 16 ==> final(self)@.registers[reg] == (old(self)@.registers[reg]
                    && !idx_vec@.contains(reg as usize)),
            final(self)@ == (GenModel { registers: final(self)@.registers, ..old(self)@ }),
    {
        let mut k: usize = 0;
        while k < idx_vec.len()
            invariant
                k <= idx_vec@.len(),
                forall|j: int| 0 <= j < idx_vec@.len() ==> idx_vec@[j] < 16,
                self@.registers.len() == 16,
                forall|reg: int|
                    0 <= reg < 16 ==> self@.registers[reg] == (old(self)@.registers[reg]
                        && !idx_vec@.take(k as int).contains(reg as usize)),
                self@ == (GenModel { registers: self@.registers, ..old(self)@ }),
            decreases idx_vec@.len() - k,
        {
            let idx = idx_vec[k];
            self.register_in_used[idx] = false;
            proof {
                let before = idx_vec@.take(k as int);
                let after = idx_vec@.take(k + 1);
                assert(after =~= before.push(idx));
                assert forall|reg: int| 0 <= reg < 16 implies self@.registers[reg] == (old(self)@.registers[reg] && !after.contains(reg as usize)) by {
                    if after.contains(reg as usize) {
                        let w = choose|w: int| 0 <= w < after.len() && after[w] == reg as usize;
                        if w < k {
                            assert(before[w] == reg as usize);
                        }
                    } else {
                        if before.contains(reg as usize) {
                            let w = choose|w: int|
                                0 <= w < before.len() && before[w] == reg as usize;
                            assert(after[w] == reg as usize);
                        }
                        assert(after[k as int] == idx);
                    }
                }
            }
            k += 1;
        }
        assert(idx_vec@.take(k as int) =~= idx_vec@);
    }

    /// Appends one instruction to the code and gives the number of
    /// instructions emitted so far.
    pub fn emit_ins(&mut self, bytes: [u8; 4]) -> (r: usize)
        requires
            old(self)@.ins_count < u32::MAX,
        ensures
            final(self)@ == old(self)@.emit(bytes@),
            r == old(self)@.ins_count + 1,
    {
        self.ins_code.push(bytes[0]);
        self.ins_code.push(bytes[1]);
        self.ins_code.push(bytes[2]);
        self.ins_code.push(bytes[3]);
        self.ins_count += 1;
        assert(self@.code =~= old(self)@.code + bytes@);
        self.ins_count as usize
    }

    /// Registers a thunk for `expr`, with its code not yet placed, and gives
    /// its number.
    pub fn make_thunk(&mut self, expr: Expr) -> (r: usize)
        requires
            old(self)@.thunks.len() < usize::MAX,
        ensures
            r == old(self)@.thunks.len() + 1,
            final(self)@ == (GenModel {
                thunks: old(self)@.thunks.push(ThunkModel { expr: expr@, offset: 0 }),
                ..old(self)@
            }),
    {
        let idx = self.thunks.len() + 1;
        self.thunks.push(Thunk { expr, offset: 0 });
        assert(self@.thunks =~= old(self)@.thunks.push(ThunkModel { expr: expr@, offset: 0 }));
        idx
    }

    /// Registers a function, with its code not yet placed, and gives its
    /// number.
    pub fn make_function(&mut self, body: Box<Expr>, params: Vec<String>) -> (r: usize)
        requires
            old(self)@.functions.len() < usize::MAX,
        ensures
            r == old(self)@.functions.len() + 1,
            final(self)@ == (GenModel {
                functions: old(self)@.functions.push(
                    FunctionModel { offset: 0, params: names_view(params@), body: body@ },
                ),
                ..old(self)@
            }),
    {
        let idx = self.functions.len() + 1;
        let ghost model = FunctionModel { offset: 0, params: names_view(params@), body: body@ };
        self.functions.push(Function { params, body, offset: 0 });
        assert(self@.functions =~= old(self)@.functions.push(model));
        idx
    }

    /// Records where the code of the thunk at place `idx` starts.
    pub fn set_offset_thunk(&mut self, idx: usize, offset: u32)
        requires
            idx < old(self)@.thunks.len(),
        ensures
            final(self)@ == (GenModel {
                thunks: old(self)@.thunks.update(
                    idx as int,
                    ThunkModel { offset, ..old(self)@.thunks[idx as int] },
                ),
                ..old(self)@
            }),
    {
        let thunk = &mut self.thunks[idx];
        thunk.offset = offset;
        assert(self@.thunks =~= old(self)@.thunks.update(
            idx as int,
            ThunkModel { offset, ..old(self)@.thunks[idx as int] },
        ));
    }

    /// Records where the code of the function at place `idx` starts.
    pub fn set_offset_func(&mut self, idx: usize, offset: u32)
        requires
            idx < old(self)@.functions.len(),
        ensures
            final(self)@ == (GenModel {
                functions: old(self)@.functions.update(
                    idx as int,
                    FunctionModel { offset, ..old(self)@.functions[idx as int] },
                ),
                ..old(self)@
            }),
    {
        let function = &mut self.functions[idx];
        function.offset = offset;
        assert(self@.functions =~= old(self)@.functions.update(
            idx as int,
            FunctionModel { offset, ..old(self)@.functions[idx as int] },
        ));
    }

    /// The number of bytes of the constant section.
    pub fn get_constant_len_in_bytes(&self) -> (r: u32)
        requires
            constants_len(self@.constants) <= u32::MAX,
        ensures
            r == constants_len(self@.constants),
    {
        let ghost pool = self@.constants;
        let mut const_len: u32 = 0;
        let mut i: usize = 0;
        proof {
            assert(pool.take(0) =~= Seq::<ConstantModel>::empty());
        }
        while i < self.constants.len()
            invariant
                i <= self.constants@.len(),
                pool == self@.constants,
                constants_len(pool) <= u32::MAX,
                const_len == constants_len(pool.take(i as int)),
            decreases self.constants@.len() - i,
        {
            proof {
                lemma_constants_len_prefix(pool, i as int);
                lemma_constants_len_prefix(pool, i + 1);
            }
            match &self.constants[i] {
                Constant::Number(_) => {
                    const_len += 9;
                },
                Constant::String(text) => {
                    const_len += 5 + text.as_str().len() as u32;
                },
            }
            i += 1;
        }
        assert(pool.take(i as int) =~= pool);
        const_len
    }

    /// Appends the constant section: the constants in the order of their
    /// numbers.
    pub fn add_const_to_binary(&mut self, bytes: &mut Vec<u8>)
        requires
            constants_len(old(self)@.constants) <= u32::MAX,
        ensures
            *final(self) == *old(self),
            final(bytes)@ == old(bytes)@ + constants_bytes(old(self)@.constants),
    {
        let ghost pool = self@.constants;
        let mut i: usize = 0;
        proof {
            assert(pool.take(0) =~= Seq::<ConstantModel>::empty());
            assert(bytes@ =~= old(bytes)@ + constants_bytes(pool.take(0)));
        }
        while i < self.constants.len()
            invariant
                i <= self.constants@.len(),
                *self == *old(self),
                pool == self@.constants,
                constants_len(pool) <= u32::MAX,
                bytes@ == old(bytes)@ + constants_bytes(pool.take(i as int)),
            decreases self.constants@.len() - i,
        {
            proof {
                lemma_constants_len_prefix(pool, i as int);
                lemma_constants_len_prefix(pool, i + 1);
            }
            let ghost before = bytes@;
            match &self.constants[i] {
                Constant::Number(num) => {
                    write_u8(bytes, 0);
                    write_i64(bytes, *num as i64);
                },
                Constant::String(text) => {
                    write_u8(bytes, 1);
                    write_u32(bytes, text.as_str().len() as u32);
                    write_bytes(bytes, text.as_str().as_bytes());
                },
            }
            assert(bytes@ =~= before + constant_bytes(pool[i as int]));
            assert(bytes@ =~= old(bytes)@ + constants_bytes(pool.take(i + 1)));
            i += 1;
        }
        assert(pool.take(i as int) =~= pool);
    }

    /// Appends the header: the magic value, the version, and for each
    /// section its offset in bytes and the number of its entries.
    pub fn add_header_to_binary(&self, bytes: &mut Vec<u8>)
        requires
            self@.wf(),
            self@.fits(),
        ensures
            final(bytes)@ == old(bytes)@ + self@.header_bytes(),
    {
        proof {
            lemma_constants_len_prefix(self@.constants, 0);
        }
        let const_len_in_bytes = self.get_constant_len_in_bytes();
        let thunk_offset = const_len_in_bytes + METADATA_BYTES;
        let function_offset = thunk_offset + (self.thunks.len() as u32 * 4);
        let global_func_table_offset = function_offset + (self.functions.len() as u32 * 8);
        let code_offset = global_func_table_offset + (self.global_function_in_used.len() as u32
            * 8);
        write_u32(bytes, MAGIC_NUMBER);
        write_u32(bytes, VERSION);
        write_u32(bytes, METADATA_BYTES);
        write_u32(bytes, self.constants.len() as u32);
        write_u32(bytes, thunk_offset);
        write_u32(bytes, self.thunks.len() as u32);
        write_u32(bytes, function_offset);
        write_u32(bytes, self.functions.len() as u32);
        write_u32(bytes, global_func_table_offset);
        write_u32(bytes, self.global_function_in_used.len() as u32);
        write_u32(bytes, code_offset);
        write_u32(bytes, self.ins_count);
        assert(bytes@ =~= old(bytes)@ + self@.header_bytes());
    }

    /// Appends the instructions.
    pub fn add_ins_code_to_binary(&self, bytes: &mut Vec<u8>)
        ensures
            final(bytes)@ == old(bytes)@ + self@.code,
    {
        write_bytes(bytes, self.ins_code.as_slice());
    }

    /// Appends the thunk table: for each thunk, in the order of their
    /// numbers, where its code starts.
    pub fn add_thunk_table_to_binary(&mut self, bytes: &mut Vec<u8>)
        ensures
            *final(self) == *old(self),
            final(bytes)@ == old(bytes)@ + thunks_bytes(old(self)@.thunks),
    {
        let ghost thunks = self@.thunks;
        let mut i: usize = 0;
        proof {
            assert(thunks.take(0) =~= Seq::<ThunkModel>::empty());
            assert(bytes@ =~= old(bytes)@ + thunks_bytes(thunks.take(0)));
        }
        while i < self.thunks.len()
            invariant
                i <= self.thunks@.len(),
                *self == *old(self),
                thunks == self@.thunks,
                bytes@ == old(bytes)@ + thunks_bytes(thunks.take(i as int)),
            decreases self.thunks@.len() - i,
        {
            write_u32(bytes, self.thunks[i].offset);
            proof {
                assert(thunks.take(i + 1).drop_last() =~= thunks.take(i as int));
                assert(bytes@ =~= old(bytes)@ + thunks_bytes(thunks.take(i + 1)));
            }
            i += 1;
        }
        assert(thunks.take(i as int) =~= thunks);
    }

    /// Appends the function table: for each function, in the order of their
    /// numbers, the number of its parameters and where its code starts.
    pub fn add_function_table_to_binary(&mut self, bytes: &mut Vec<u8>)
        requires
            forall|k: int|
                0 <= k < old(self)@.functions.len() ==> (#[trigger] old(self)@.functions[k]).params.len() <= u32::MAX,
        ensures
            *final(self) == *old(self),
            final(bytes)@ == old(bytes)@ + functions_bytes(old(self)@.functions),
    {
        let ghost functions = self@.functions;
        let mut i: usize = 0;
        proof {
            assert(functions.take(0) =~= Seq::<FunctionModel>::empty());
            assert(bytes@ =~= old(bytes)@ + functions_bytes(functions.take(0)));
        }
        while i < self.functions.len()
            invariant
                i <= self.functions@.len(),
                *self == *old(self),
                functions == self@.functions,
                forall|k: int|
                    0 <= k < functions.len() ==> (#[trigger] functions[k]).params.len()
                        <= u32::MAX,
                bytes@ == old(bytes)@ + functions_bytes(functions.take(i as int)),
            decreases self.functions@.len() - i,
        {
            let function = &self.functions[i];
            assert(function@ == functions[i as int]);
            let nargs = function.params.len() as u32;
            write_u32(bytes, nargs);
            write_u32(bytes, function.offset);
            proof {
                assert(functions.take(i + 1).drop_last() =~= functions.take(i as int));
                assert(bytes@ =~= old(bytes)@ + functions_bytes(functions.take(i + 1)));
            }
            i += 1;
        }
        assert(functions.take(i as int) =~= functions);
    }

    /// Appends the table of the global functions in use: for each, in the
    /// order of their first calls, the number of the constant that holds its
    /// name and the number of its function.
    pub fn add_global_function_table_to_binary(&mut self, bytes: &mut Vec<u8>)
        requires
            old(self)@.wf(),
            old(self)@.names_interned(),
        ensures
            *final(self) == *old(self),
            final(bytes)@ == old(bytes)@ + used_bytes(old(self)@.used, old(self)@.constants),
    {
        let ghost used = self@.used;
        let ghost pool = self@.constants;
        let mut i: usize = 0;
        proof {
            assert(used.take(0) =~= Seq::<(Seq<char>, usize)>::empty());
            assert(bytes@ =~= old(bytes)@ + used_bytes(used.take(0), pool));
        }
        while i < self.global_function_in_used.len()
            invariant
                i <= self.global_function_in_used@.len(),
                *self == *old(self),
                used == self@.used,
                pool == self@.constants,
                self@.wf(),
                self@.names_interned(),
                bytes@ == old(bytes)@ + used_bytes(used.take(i as int), pool),
            decreases self.global_function_in_used@.len() - i,
        {
            let name = &self.global_function_in_used[i].0;
            let idx = self.global_function_in_used[i].1;
            assert(used[i as int] == (name@, idx));
            let function_name_const_idx = self.find_constant(
                &Constant::String(name.clone()),
            ) + 1;
            write_u32(bytes, function_name_const_idx as u32);
            write_u32(bytes, idx as u32);
            proof {
                assert(used.take(i + 1).drop_last() =~= used.take(i as int));
                assert(bytes@ =~= old(bytes)@ + used_bytes(used.take(i + 1), pool));
            }
            i += 1;
        }
        assert(used.take(i as int) =~= used);
    }

    /// Appends the footer: the length of the whole program, the footer
    /// included.
    pub fn add_footer_to_binary(&mut self, bytes: &mut Vec<u8>)
        requires
            old(self)@.wf(),
            old(self)@.fits(),
        ensures
            *final(self) == *old(self),
            final(bytes)@ == old(bytes)@ + old(self)@.footer_bytes(),
    {
        proof {
            lemma_constants_len_prefix(self@.constants, 0);
        }
        let const_len_in_bytes = self.get_constant_len_in_bytes();
        let mut total_byte: u32 = 0;
        total_byte += METADATA_BYTES;
        total_byte += const_len_in_bytes;
        total_byte += self.thunks.len() as u32 * 4;
        total_byte += self.functions.len() as u32 * 8;
        total_byte += self.global_function_in_used.len() as u32 * 8;
        total_byte += self.ins_count * 4;
        total_byte += 4;
        write_u32(bytes, total_byte);
    }

    /// The place of a constant in the pool, or the size of the pool where it
    /// is not in it.
    pub fn find_constant(&self, constant: &Constant) -> (r: usize)
        ensures
            r == position(self@.constants, constant@, 0),
            r <= self@.constants.len(),
    {
        let ghost pool = self@.constants;
        let mut i: usize = 0;
        while i < self.constants.len()
            invariant
                i <= self.constants@.len(),
                pool == self@.constants,
                position(pool, constant@, 0) == position(pool, constant@, i as int),
            decreases self.constants@.len() - i,
        {
            if self.constants[i].same(constant) {
                return i;
            }
            i += 1;
        }
        i
    }
}

} // verus!

verus! {

/// Whether `b` starts with `a`.
pub open spec fn starts_with<A>(b: Seq<A>, a: Seq<A>) -> bool {
    &&& a.len() <= b.len()
    &&& forall|i: int| 0 <= i < a.len() ==> a[i] == #[trigger] b[i]
}

/// The instruction word that stands at place `k` of the code.
pub open spec fn word_at(code: Seq<u8>, k: int) -> u32 {
    spec_u32_from_be(code.subrange(4 * k, 4 * k + 4))
}

impl GenModel {
    /// Whether an instruction with these operands names only a constant, a
    /// thunk or a function that the generator holds.
    pub open spec fn refs_ok(self, op: OpCode, operands: Seq<u32>) -> bool {
        match op {
            OpCode::LOADCONST => 1 <= operands[1] <= self.constants.len(),
            OpCode::MAKETHUNK => 1 <= operands[1] <= self.thunks.len(),
            OpCode::MAKEFUNC => 1 <= operands[1] <= self.functions.len(),
            _ => true,
        }
    }

    /// Whether a word is an instruction of a known opcode that names only
    /// what the generator holds.
    pub open spec fn valid_ins(self, word: u32) -> bool {
        match spec_extract_opcode(word) {
            Some(op) => self.refs_ok(op, spec_decode(op, word)),
            None => false,
        }
    }

    /// Whether every instruction emitted so far is valid.
    pub open spec fn valid_code(self) -> bool {
        forall|k: int| 0 <= k < self.ins_count ==> self.valid_ins(#[trigger] word_at(self.code, k))
    }

    /// Whether the generator is consistent and its code valid.
    pub open spec fn ok(self) -> bool {
        self.wf() && self.valid_code()
    }

    /// Whether the generator came from `old` by adding to it: what `old`
    /// held keeps its place and its number, and the global functions and the
    /// bound parameters are the same.
    pub open spec fn extends(self, old: GenModel) -> bool {
        &&& starts_with(self.constants, old.constants)
        &&& starts_with(self.thunks, old.thunks)
        &&& starts_with(self.functions, old.functions)
        &&& starts_with(self.used, old.used)
        &&& starts_with(self.code, old.code)
        &&& old.ins_count <= self.ins_count
        &&& self.global_functions == old.global_functions
        &&& self.context == old.context
    }

    /// Whether the generator came from `old` by adding to it, where the
    /// places at which code starts may have been recorded meanwhile.
    pub open spec fn grows_from(self, old: GenModel) -> bool {
        &&& starts_with(self.constants, old.constants)
        &&& old.thunks.len() <= self.thunks.len()
        &&& forall|i: int|
            0 <= i < old.thunks.len() ==> (#[trigger] self.thunks[i]).expr == old.thunks[i].expr
        &&& old.functions.len() <= self.functions.len()
        &&& forall|i: int|
            0 <= i < old.functions.len() ==> (#[trigger] self.functions[i]).params
                == old.functions[i].params && self.functions[i].body == old.functions[i].body
        &&& starts_with(self.used, old.used)
        &&& starts_with(self.code, old.code)
        &&& old.ins_count <= self.ins_count
        &&& self.global_functions == old.global_functions
    }

    /// The register that a parameter is bound to, if it is bound.
    pub open spec fn bound(self, name: Seq<char>) -> Option<u8> {
        let at = position(keys_of(self.context), name, 0);
        if at < self.context.len() {
            Some(self.context[at].1)
        } else {
            None
        }
    }

    /// Whether a constant can be loaded: the pool holds it or has room for
    /// it, a register is free, and the code has room for an instruction.
    pub open spec fn can_load(self, c: ConstantModel) -> bool {
        &&& (position(self.constants, c, 0) < self.constants.len() || self.constants.len()
            < CONST_MASK)
        &&& self.first_free() < 16
        &&& self.ins_count < MAX_INSTRUCTIONS
    }

    /// The generator after a constant was loaded into the first free
    /// register.
    pub open spec fn loaded(self, c: ConstantModel) -> GenModel {
        let g = self.intern(c);
        let reg = self.first_free();
        (GenModel { registers: g.registers.update(reg, true), ..g }).emit(
            spec_word_bytes(
                spec_encode(OpCode::LOADCONST, seq![reg as u32, self.const_number(c) as u32]),
            ),
        )
    }

    /// Whether a table or a list can be deferred: there is room for a thunk,
    /// a register is free, and the code has room for an instruction.
    pub open spec fn can_defer(self) -> bool {
        &&& self.thunks.len() < CONST_MASK
        &&& self.first_free() < 16
        &&& self.ins_count < MAX_INSTRUCTIONS
    }

    /// The generator after a thunk for `expr` was registered and bound to the
    /// first free register.
    pub open spec fn deferred(self, expr: ExprView) -> GenModel {
        let reg = self.first_free();
        (GenModel {
            thunks: self.thunks.push(ThunkModel { expr, offset: 0 }),
            registers: self.registers.update(reg, true),
            ..self
        }).emit(
            spec_word_bytes(
                spec_encode(OpCode::MAKETHUNK, seq![reg as u32, (self.thunks.len() + 1) as u32]),
            ),
        )
    }

    /// Whether a function can be declared: there is room for a function, a
    /// register is free, and the code has room for an instruction.
    pub open spec fn can_declare(self, params: Seq<Seq<char>>) -> bool {
        &&& params.len() <= u32::MAX
        &&& self.functions.len() < CONST_MASK
        &&& self.first_free() < 16
        &&& self.ins_count < MAX_INSTRUCTIONS
    }

    /// The generator after a function was registered and bound to the first
    /// free register.
    pub open spec fn declared(self, params: Seq<Seq<char>>, body: ExprView) -> GenModel {
        let reg = self.first_free();
        (GenModel {
            functions: self.functions.push(FunctionModel { offset: 0, params, body }),
            registers: self.registers.update(reg, true),
            ..self
        }).emit(
            spec_word_bytes(
                spec_encode(
                    OpCode::MAKEFUNC,
                    seq![reg as u32, (self.functions.len() + 1) as u32],
                ),
            ),
        )
    }

}


/// What starts with a sequence that starts with a third starts with the
/// third.
pub proof fn lemma_extends_trans(a: GenModel, b: GenModel, c: GenModel)
    requires
        b.extends(a),
        c.extends(b),
    ensures
        c.extends(a),
{
    assert forall|i: int| 0 <= i < a.constants.len() implies a.constants[i]
        == #[trigger] c.constants[i] by {
        assert(b.constants[i] == c.constants[i]);
    }
    assert forall|i: int| 0 <= i < a.thunks.len() implies a.thunks[i] == #[trigger] c.thunks[i] by {
        assert(b.thunks[i] == c.thunks[i]);
    }
    assert forall|i: int| 0 <= i < a.functions.len() implies a.functions[i]
        == #[trigger] c.functions[i] by {
        assert(b.functions[i] == c.functions[i]);
    }
    assert forall|i: int| 0 <= i < a.used.len() implies a.used[i] == #[trigger] c.used[i] by {
        assert(b.used[i] == c.used[i]);
    }
    assert forall|i: int| 0 <= i < a.code.len() implies a.code[i] == #[trigger] c.code[i] by {
        assert(b.code[i] == c.code[i]);
    }
}

/// Valid code stays valid when the generator's tables grow.
pub proof fn lemma_tables_grow(old: GenModel, new: GenModel)
    requires
        old.valid_code(),
        new.code == old.code,
        new.ins_count == old.ins_count,
        old.constants.len() <= new.constants.len(),
        old.thunks.len() <= new.thunks.len(),
        old.functions.len() <= new.functions.len(),
    ensures
        new.valid_code(),
{
    assert forall|k: int| 0 <= k < new.ins_count implies new.valid_ins(
        #[trigger] word_at(new.code, k),
    ) by {
        assert(old.valid_ins(word_at(old.code, k)));
    }
}

/// Valid code stays valid when a valid instruction is appended.
pub proof fn lemma_emit_ok(g: GenModel, op: OpCode, operands: Seq<u32>)
    requires
        g.ok(),
        g.ins_count < MAX_INSTRUCTIONS,
        operands_in_range(op, operands),
        g.refs_ok(op, operands),
    ensures
        g.emit(spec_word_bytes(spec_encode(op, operands))).ok(),
        g.emit(spec_word_bytes(spec_encode(op, operands))).extends(g),
{
    let word = spec_encode(op, operands);
    let bytes = spec_word_bytes(word);
    let after = g.emit(bytes);
    lemma_encode_decode_roundtrip(op, operands);
    lemma_u32_roundtrip(word);
    assert(bytes =~= crate::vm::utils::spec_u32_be(word));
    assert forall|k: int| 0 <= k < after.ins_count implies after.valid_ins(
        #[trigger] word_at(after.code, k),
    ) by {
        if k < g.ins_count {
            assert(after.code.subrange(4 * k, 4 * k + 4) =~= g.code.subrange(4 * k, 4 * k + 4));
            assert(g.valid_ins(word_at(g.code, k)));
        } else {
            assert(after.code.subrange(4 * k, 4 * k + 4) =~= bytes);
        }
    }
}

} // verus!

verus! {

fn unexpected(message: &str) -> (r: BytecodeGenerationError)
    ensures
        r.spec_kind() == GenerationErrorKind::UnexpectExpr,
        r.spec_message() == message@,
{
    BytecodeGenerationError::UnexpectExpr { message: String::from_str(message) }
}

/// The opcode of an arithmetic operator.
pub fn arithmetic_opcode(op: Operator) -> (r: OpCode)
    ensures
        r == spec_arithmetic_opcode(op),
{
    match op {
        Operator::Add => OpCode::ADD,
        Operator::Sub => OpCode::SUB,
        Operator::Div => OpCode::DIV,
        Operator::Mul => OpCode::MUL,
    }
}

impl BytecodeGen {
    /// The first register that is not in use, or 16.
    pub fn first_free_register(&self) -> (r: usize)
        requires
            self@.registers.len() == 16,
        ensures
            r == self@.first_free(),
            r <= 16,
    {
        let ghost regs = self@.registers;
        let mut i: usize = 0;
        while i < 16
            invariant
                i <= 16,
                regs == self@.registers,
                regs.len() == 16,
                position(regs, false, 0) == position(regs, false, i as int),
            decreases 16 - i,
        {
            if !self.register_in_used[i] {
                return i;
            }
            i += 1;
        }
        i
    }

    /// The place of a global function among the global functions, or their
    /// number where no function has the name.
    pub fn find_global(&self, name: &str) -> (r: usize)
        ensures
            r == position(keys_of(self@.global_functions), name@, 0),
            r <= self@.global_functions.len(),
    {
        let ghost keys = keys_of(self@.global_functions);
        let mut i: usize = 0;
        while i < self.global_functions.len()
            invariant
                i <= self.global_functions@.len(),
                keys == keys_of(self@.global_functions),
                position(keys, name@, 0) == position(keys, name@, i as int),
            decreases self.global_functions@.len() - i,
        {
            if str_equal(self.global_functions[i].0.as_str(), name) {
                return i;
            }
            i += 1;
        }
        i
    }

    /// The place of a global function among those in use, or their number
    /// where it is not in use.
    pub fn find_used(&self, name: &str) -> (r: usize)
        ensures
            r == position(keys_of(self@.used), name@, 0),
            r <= self@.used.len(),
    {
        let ghost keys = keys_of(self@.used);
        let mut i: usize = 0;
        while i < self.global_function_in_used.len()
            invariant
                i <= self.global_function_in_used@.len(),
                keys == keys_of(self@.used),
                position(keys, name@, 0) == position(keys, name@, i as int),
            decreases self.global_function_in_used@.len() - i,
        {
            if str_equal(self.global_function_in_used[i].0.as_str(), name) {
                return i;
            }
            i += 1;
        }
        i
    }

    /// The register that a parameter is bound to, if it is bound.
    pub fn lookup_variable(&self, name: &str) -> (r: Option<u8>)
        ensures
            r == self@.bound(name@),
    {
        let ghost keys = keys_of(self@.context);
        let mut i: usize = 0;
        while i < self.context_var.len()
            invariant
                i <= self.context_var@.len(),
                keys == keys_of(self@.context),
                position(keys, name@, 0) == position(keys, name@, i as int),
            decreases self.context_var@.len() - i,
        {
            if str_equal(self.context_var[i].0.as_str(), name) {
                return Some(self.context_var[i].1);
            }
            i += 1;
        }
        None
    }

    /// Binds a parameter to a register. A name that is bound already is bound
    /// anew.
    fn bind_variable(&mut self, name: String, reg: u8)
        requires
            old(self)@.ok(),
            reg < 16,
        ensures
            final(self)@.ok(),
            final(self)@ == spec_bind(old(self)@, name@, reg),
    {
        let ghost keys = keys_of(self@.context);
        let mut i: usize = 0;
        while i < self.context_var.len()
            invariant
                i <= self.context_var@.len(),
                *self == *old(self),
                keys == keys_of(self@.context),
                position(keys, name@, 0) == position(keys, name@, i as int),
            ensures
                i <= self.context_var@.len(),
                *self == *old(self),
                i == position(keys, name@, 0),
            decreases self.context_var@.len() - i,
        {
            if str_equal(self.context_var[i].0.as_str(), name.as_str()) {
                break ;
            }
            i += 1;
        }
        if i < self.context_var.len() {
            let slot = &mut self.context_var[i];
            slot.1 = reg;
            assert(self@.context =~= old(self)@.context.update(
                i as int,
                (old(self)@.context[i as int].0, reg),
            ));
        } else {
            self.context_var.push((name, reg));
            assert(self@.context =~= old(self)@.context.push((name@, reg)));
        }
        proof {
            assert forall|k: int| 0 <= k < self@.context.len() implies (#[trigger] self@.context[k]).1
                < 16 by {
                if k != i {
                    assert(self@.context[k] == old(self)@.context[k]);
                }
            }
            lemma_tables_grow(old(self)@, self@);
        }
    }

    fn take_register(&mut self) -> (r: Result<u8, BytecodeGenerationError>)
        requires
            old(self)@.ok(),
        ensures
            final(self)@.ok(),
            final(self)@.extends(old(self)@),
            match r {
                Ok(reg) => reg == old(self)@.first_free() && reg < 16 && final(self)@
                    == (GenModel {
                    registers: old(self)@.registers.update(reg as int, true),
                    ..old(self)@
                }),
                Err(e) => old(self)@.first_free() == 16 && final(self)@ == old(self)@
                    && e.spec_kind() == GenerationErrorKind::UnexpectExpr,
            },
            (final(self)@, kind_of(r)) == spec_take(old(self)@),
    {
        proof {
            lemma_position(self@.registers, false, 0);
        }
        match self.get_register() {
            Some(reg) => {
                proof {
                    lemma_tables_grow(old(self)@, self@);
                }
                Ok(reg)
            },
            None => Err(unexpected("no register is free")),
        }
    }

    fn release(&mut self, reg: u8)
        requires
            old(self)@.ok(),
            reg < 16,
        ensures
            final(self)@.ok(),
            final(self)@.extends(old(self)@),
            final(self)@ == spec_release(old(self)@, reg),
    {
        self.free_register(reg as usize);
        proof {
            lemma_tables_grow(old(self)@, self@);
        }
    }

    fn emit(&mut self, op: OpCode, operands: Vec<u32>) -> (r: Result<
        (),
        BytecodeGenerationError,
    >)
        requires
            old(self)@.ok(),
            operands_in_range(op, operands@),
            old(self)@.refs_ok(op, operands@),
        ensures
            final(self)@.ok(),
            final(self)@.extends(old(self)@),
            match r {
                Ok(_) => old(self)@.ins_count < MAX_INSTRUCTIONS && final(self)@ == old(self)@.emit(spec_word_bytes(spec_encode(op, operands@))),
                Err(e) => old(self)@.ins_count >= MAX_INSTRUCTIONS && final(self)@ == old(self)@
                    && e.spec_kind() == GenerationErrorKind::UnexpectExpr,
            },
            (final(self)@, kind_of(r)) == spec_emit(old(self)@, op, operands@),
    {
        if self.ins_count >= MAX_INSTRUCTIONS {
            return Err(unexpected("the program has too many instructions"));
        }
        proof {
            lemma_emit_ok(self@, op, operands@);
        }
        let bytes = op.encode(operands);
        self.emit_ins(bytes);
        Ok(())
    }

    /// Appends an instruction with one register as its operand.
    fn emit_register(&mut self, op: OpCode, reg: u8) -> (r: Result<(), BytecodeGenerationError>)
        requires
            old(self)@.ok(),
            reg < 16,
            op.spec_layout() == seq![crate::instructions::Operand::RegAddr],
        ensures
            final(self)@.ok(),
            final(self)@.extends(old(self)@),
            (final(self)@, kind_of(r)) == spec_emit(old(self)@, op, seq![reg as u32]),
    {
        let operands = vec![reg as u32];
        assert(operands@ =~= seq![reg as u32]);
        self.emit(op, operands)
    }

    fn intern(&mut self, constant: Constant) -> (r: Result<u32, BytecodeGenerationError>)
        requires
            old(self)@.ok(),
        ensures
            final(self)@.ok(),
            final(self)@.extends(old(self)@),
            match r {
                Ok(number) => (position(old(self)@.constants, constant@, 0) < old(self)@.constants.len() || old(self)@.constants.len() < CONST_MASK) && number == old(self)@.const_number(constant@) && 1 <= number <= final(self)@.constants.len()
                    && final(self)@ == old(self)@.intern(constant@),
                Err(e) => !(position(old(self)@.constants, constant@, 0) < old(self)@.constants.len() || old(self)@.constants.len() < CONST_MASK) && final(self)@
                    == old(self)@ && e.spec_kind() == GenerationErrorKind::UnexpectExpr,
            },
    {
        let at = self.find_constant(&constant);
        if at == self.constants.len() && self.constants.len() >= CONST_MASK as usize {
            return Err(unexpected("the program has too many constants"));
        }
        proof {
            lemma_intern_once(self@, constant@);
            lemma_position(self@.constants, constant@, 0);
        }
        let number = self.make_const(constant);
        proof {
            lemma_tables_grow(old(self)@, self@);
        }
        Ok(number as u32)
    }

    /// Loads a constant into the first free register.
    fn load_const(&mut self, constant: Constant) -> (r: Result<u8, BytecodeGenerationError>)
        requires
            old(self)@.ok(),
        ensures
            final(self)@.ok(),
            final(self)@.extends(old(self)@),
            r is Ok <==> old(self)@.can_load(constant@),
            r matches Ok(reg) ==> reg < 16 && reg == old(self)@.first_free() && final(self)@
                == old(self)@.loaded(constant@),
            r matches Err(e) ==> e.spec_kind() == GenerationErrorKind::UnexpectExpr,
            (final(self)@, kind_of(r)) == spec_load(old(self)@, constant@),
    {
        let idx_const = match self.intern(constant) {
            Ok(number) => number,
            Err(e) => {
                return Err(e);
            },
        };
        let reg_value = match self.take_register() {
            Ok(reg) => reg,
            Err(e) => {
                return Err(e);
            },
        };
        match self.emit(OpCode::LOADCONST, vec![reg_value as u32, idx_const]) {
            Ok(_) => {},
            Err(e) => {
                return Err(e);
            },
        }
        Ok(reg_value)
    }

    /// Registers a thunk for a table or a list and binds it to the first free
    /// register.
    fn defer(&mut self, expr: &Expr) -> (r: Result<u8, BytecodeGenerationError>)
        requires
            old(self)@.ok(),
        ensures
            final(self)@.ok(),
            final(self)@.extends(old(self)@),
            r is Ok <==> old(self)@.can_defer(),
            r matches Ok(reg) ==> reg < 16 && reg == old(self)@.first_free() && final(self)@
                == old(self)@.deferred(expr@),
            r matches Err(e) ==> e.spec_kind() == GenerationErrorKind::UnexpectExpr && final(self)@ == old(self)@,
            (final(self)@, kind_of(r)) == spec_defer(old(self)@, expr@),
    {
        if self.thunks.len() >= CONST_MASK as usize || self.first_free_register() >= 16
            || self.ins_count >= MAX_INSTRUCTIONS {
            return Err(unexpected("the program is too large for a thunk"));
        }
        let idx_thunk = self.make_thunk(expr.clone());
        proof {
            lemma_tables_grow(old(self)@, self@);
        }
        let reg_value = match self.take_register() {
            Ok(reg) => reg,
            Err(e) => {
                return Err(e);
            },
        };
        match self.emit(OpCode::MAKETHUNK, vec![reg_value as u32, idx_thunk as u32]) {
            Ok(_) => {},
            Err(e) => {
                return Err(e);
            },
        }
        Ok(reg_value)
    }

    /// Registers a function and binds it to the first free register.
    fn declare(&mut self, body: &Expr, params: &Vec<String>) -> (r: Result<
        u8,
        BytecodeGenerationError,
    >)
        requires
            old(self)@.ok(),
        ensures
            final(self)@.ok(),
            final(self)@.extends(old(self)@),
            r is Ok <==> old(self)@.can_declare(names_view(params@)),
            r matches Ok(reg) ==> reg < 16 && reg == old(self)@.first_free() && final(self)@
                == old(self)@.declared(names_view(params@), body@),
            r matches Err(e) ==> e.spec_kind() == GenerationErrorKind::UnexpectExpr && final(self)@ == old(self)@,
            (final(self)@, kind_of(r)) == spec_declare(old(self)@, names_view(params@), body@),
    {
        if params.len() > u32::MAX as usize || self.functions.len() >= CONST_MASK as usize
            || self.first_free_register() >= 16 || self.ins_count >= MAX_INSTRUCTIONS {
            return Err(unexpected("the program is too large for a function"));
        }
        let idx_func = self.make_function(
            Box::new(body.clone()),
            crate::compiler::ast::copy_names(params),
        );
        proof {
            lemma_tables_grow(old(self)@, self@);
        }
        let reg_value = match self.take_register() {
            Ok(reg) => reg,
            Err(e) => {
                return Err(e);
            },
        };
        match self.emit(OpCode::MAKEFUNC, vec![reg_value as u32, idx_func as u32]) {
            Ok(_) => {},
            Err(e) => {
                return Err(e);
            },
        }
        Ok(reg_value)
    }
}

} // verus!

verus! {

/// What the code of a table gives once its fields are done.
pub open spec fn finish_block(filled: Progress, reg: u8) -> Outcome {
    match filled.1 {
        Err(k) => (filled.0, Err(k)),
        Ok(_) => (spec_release(filled.0, reg), Ok(reg)),
    }
}

/// What a call gives once its arguments are pushed.
pub open spec fn finish_call(pushed: Progress, name: Seq<char>) -> Outcome {
    match pushed.1 {
        Err(k) => (pushed.0, Err(k)),
        Ok(_) => {
            let callee = spec_load(pushed.0, ConstantModel::String(name));
            match callee.1 {
                Err(k) => (callee.0, Err(k)),
                Ok(reg_name) => {
                    let result = spec_take(callee.0);
                    match result.1 {
                        Err(k) => (result.0, Err(k)),
                        Ok(reg) => {
                            let called = spec_emit(
                                result.0,
                                OpCode::CALL,
                                seq![reg as u32, reg_name as u32],
                            );
                            match called.1 {
                                Err(k) => (called.0, Err(k)),
                                Ok(_) => (
                                    spec_release(spec_release(called.0, reg_name), reg),
                                    Ok(reg),
                                ),
                            }
                        },
                    }
                },
            }
        },
    }
}

impl BytecodeGen {
    /// Emits the code that computes `expr` and gives the register that holds
    /// its value.
    ///
    /// A literal is loaded from the constant pool; a variable is the register
    /// of its parameter; an arithmetic expression computes both sides and
    /// frees all three registers at once, so that the value must be used
    /// before the next register is taken; a table or a list is built on the
    /// spot, or deferred to a thunk where `is_make_thunk` is set; a lambda is
    /// registered as a function; a call pushes its arguments from left to
    /// right, loads the callee's name and calls it.
    pub fn visit_expr(&mut self, expr: &Expr, is_make_thunk: bool) -> (r: Result<
        u8,
        BytecodeGenerationError,
    >)
        requires
            old(self)@.ok(),
        ensures
            final(self)@.ok(),
            final(self)@.extends(old(self)@),
            r matches Ok(reg) ==> reg < 16,
            (final(self)@, kind_of(r)) == spec_visit(old(self)@, expr@, is_make_thunk),
        decreases expr, 1nat,
    {
        match expr {
            Expr::Number(num) => {
                assert(expr@ == ExprView::Number(*num));
                self.load_const(Constant::Number(*num))
            },
            Expr::LiteralString(text) => {
                assert(expr@ == ExprView::LiteralString(text@));
                self.load_const(Constant::String(text.clone()))
            },
            Expr::Binary { op, lhs, rhs } => {
                assert(expr@ == ExprView::Binary {
                    op: *op,
                    lhs: Box::new(lhs@),
                    rhs: Box::new(rhs@),
                });
                self.visit_binary(expr)
            },
            Expr::Var(name) => {
                assert(expr@ == ExprView::Var(name@));
                match self.lookup_variable(name.as_str()) {
                    Some(reg) => {
                        assert(reg < 16) by {
                            let at = position(keys_of(self@.context), name@, 0);
                            lemma_position(keys_of(self@.context), name@, 0);
                            assert(self@.context[at].1 < 16);
                        }
                        Ok(reg)
                    },
                    None => Err(BytecodeGenerationError::NotFoundVariable {  }),
                }
            },
            Expr::Table { fields } => {
                assert(expr@ == ExprView::Table { fields: fields_view(fields@) });
                if is_make_thunk {
                    self.defer(expr)
                } else {
                    self.visit_table(expr)
                }
            },
            Expr::List { items } => {
                assert(expr@ == ExprView::List { items: exprs_view(items@) });
                if is_make_thunk {
                    self.defer(expr)
                } else {
                    self.visit_list(expr)
                }
            },
            Expr::FunctionDeclare { body, params } => {
                assert(expr@ == ExprView::FunctionDeclare {
                    params: names_view(params@),
                    body: Box::new(body@),
                });
                self.declare(body, params)
            },
            Expr::FunctionCall { name, args } => {
                assert(expr@ == ExprView::FunctionCall { name: name@, args: exprs_view(args@) });
                self.visit_call(expr)
            },
            Expr::Unary { .. } => Err(unexpected("no code is generated for a sign")),
            Expr::Boolean(_) => Err(unexpected("no code is generated for a boolean")),
            Expr::LetIn { .. } => Err(unexpected("no code is generated for let")),
        }
    }

    /// Emits the code of an arithmetic expression: the left side, the right
    /// side, and the operation on a register of its own; all three registers
    /// are free afterwards.
    fn visit_binary(&mut self, expr: &Expr) -> (r: Result<u8, BytecodeGenerationError>)
        requires
            old(self)@.ok(),
            *expr is Binary,
        ensures
            final(self)@.ok(),
            final(self)@.extends(old(self)@),
            r matches Ok(reg) ==> reg < 16,
            (final(self)@, kind_of(r)) == spec_visit(old(self)@, expr@, false),
        decreases expr, 0nat,
    {
        if let Expr::Binary { op, lhs, rhs } = expr {
            assert(*expr == Expr::Binary { op: *op, lhs: *lhs, rhs: *rhs });
            assert(expr@ == ExprView::Binary {
                op: *op,
                lhs: Box::new(lhs@),
                rhs: Box::new(rhs@),
            });
            let lhs_reg = match self.visit_expr(lhs, false) {
                Ok(reg) => reg,
                Err(e) => {
                    return Err(e);
                },
            };
            let ghost first = self@;
            let rhs_reg = match self.visit_expr(rhs, false) {
                Ok(reg) => reg,
                Err(e) => {
                    proof {
                        lemma_extends_trans(old(self)@, first, self@);
                    }
                    return Err(e);
                },
            };
            proof {
                lemma_extends_trans(old(self)@, first, self@);
            }
            let reg_value = match self.take_register() {
                Ok(reg) => reg,
                Err(e) => {
                    return Err(e);
                },
            };
            let opcode = arithmetic_opcode(*op);
            match self.emit(opcode, vec![reg_value as u32, lhs_reg as u32, rhs_reg as u32]) {
                Ok(_) => {},
                Err(e) => {
                    return Err(e);
                },
            }
            self.release(reg_value);
            self.release(lhs_reg);
            self.release(rhs_reg);
            Ok(reg_value)
        } else {
            Err(unexpected("Expect Binary"))
        }
    }

    /// Registers a global function as in use, on its first call.
    fn use_global(&mut self, name: &String, function: &Function) -> (r: Result<
        (),
        BytecodeGenerationError,
    >)
        requires
            old(self)@.ok(),
        ensures
            final(self)@.ok(),
            final(self)@.extends(old(self)@),
            (final(self)@, kind_of(r)) == spec_use_global(old(self)@, name@, function@),
    {
        if self.find_used(name.as_str()) == self.global_function_in_used.len() {
            if function.params.len() > u32::MAX as usize || self.functions.len()
                >= CONST_MASK as usize {
                return Err(unexpected("the program has too many functions"));
            }
            let idx_func = self.make_function(
                Box::new((*function.body).clone()),
                crate::compiler::ast::copy_names(&function.params),
            );
            self.global_function_in_used.push((name.clone(), idx_func));
            proof {
                assert(self@.used =~= old(self)@.used.push((name@, idx_func)));
                assert forall|k: int| 0 <= k < self@.used.len() implies 1 <= (
                #[trigger] self@.used[k]).1 <= self@.functions.len() by {
                    if k < old(self)@.used.len() {
                        assert(self@.used[k] == old(self)@.used[k]);
                    }
                }
                assert forall|k: int| 0 <= k < self@.functions.len() implies (
                #[trigger] self@.functions[k]).params.len() <= u32::MAX by {
                    if k < old(self)@.functions.len() {
                        assert(self@.functions[k] == old(self)@.functions[k]);
                    }
                }
                lemma_tables_grow(old(self)@, self@);
            }
        }
        Ok(())
    }

    /// Emits the code of a call: the callee is looked up among the global
    /// functions, the number of arguments is checked, the callee is
    /// registered on its first use, the arguments are pushed from left to
    /// right, the callee's name is loaded, and the call is made.
    fn visit_call(&mut self, expr: &Expr) -> (r: Result<u8, BytecodeGenerationError>)
        requires
            old(self)@.ok(),
            *expr is FunctionCall,
        ensures
            final(self)@.ok(),
            final(self)@.extends(old(self)@),
            r matches Ok(reg) ==> reg < 16,
            (final(self)@, kind_of(r)) == spec_visit(old(self)@, expr@, false),
        decreases expr, 0nat,
    {
        if let Expr::FunctionCall { name, args } = expr {
            let ghost views = exprs_view(args@);
            assert(*expr == Expr::FunctionCall { name: *name, args: *args });
            assert(expr@ == ExprView::FunctionCall { name: name@, args: views });
            assert(views.len() == args@.len());
            assert(spec_visit(old(self)@, expr@, false) == spec_call(old(self)@, name@, views));
            let at = self.find_global(name.as_str());
            if at == self.global_functions.len() {
                return Err(BytecodeGenerationError::NotFoundFunction {  });
            }
            let function = self.global_functions[at].1.clone();
            assert(function@ == self@.global_functions[at as int].1);
            if args.len() != function.params.len() {
                return Err(unexpected("a function is called with the wrong number of arguments"));
            }
            match self.use_global(name, &function) {
                Ok(_) => {},
                Err(e) => {
                    return Err(e);
                },
            }
            let ghost start = self@;
            assert(spec_use_global(old(self)@, name@, function@) == (start, Ok::<(), GenerationErrorKind>(())));
            assert(spec_call(old(self)@, name@, views) == finish_call(
                spec_args(start, views, 0),
                name@,
            ));
            let mut i: usize = 0;
            while i < args.len()
                invariant
                    i <= args@.len(),
                    *expr is FunctionCall,
                    expr->FunctionCall_args == *args,
                    views == exprs_view(args@),
                    self@.ok(),
                    self@.extends(old(self)@),
                    spec_args(start, views, 0) == spec_args(self@, views, i as int),
                    spec_visit(old(self)@, expr@, false) == finish_call(
                        spec_args(start, views, 0),
                        name@,
                    ),
                decreases args@.len() - i,
            {
                proof {
                    vstd::std_specs::vec::axiom_vec_index_decreases(*args, i as int);
                    assert(decreases_to!(*expr => expr->FunctionCall_args));
                    assert(views[i as int] == args@[i as int]@);
                }
                let ghost before = self@;
                let reg_arg = match self.visit_expr(&args[i], false) {
                    Ok(reg) => reg,
                    Err(e) => {
                        proof {
                            lemma_extends_trans(old(self)@, before, self@);
                        }
                        return Err(e);
                    },
                };
                proof {
                    lemma_extends_trans(old(self)@, before, self@);
                }
                match self.emit_register(OpCode::PUSHARG, reg_arg) {
                    Ok(_) => {},
                    Err(e) => {
                        return Err(e);
                    },
                }
                self.release(reg_arg);
                assert(spec_args(before, views, i as int) == spec_args(self@, views, i + 1));
                i += 1;
            }
            let reg_func_name = match self.load_const(Constant::String(name.clone())) {
                Ok(reg) => reg,
                Err(e) => {
                    return Err(e);
                },
            };
            let reg_dist_result = match self.take_register() {
                Ok(reg) => reg,
                Err(e) => {
                    return Err(e);
                },
            };
            match self.emit(OpCode::CALL, vec![reg_dist_result as u32, reg_func_name as u32]) {
                Ok(_) => {},
                Err(e) => {
                    return Err(e);
                },
            }
            self.release(reg_func_name);
            self.release(reg_dist_result);
            Ok(reg_dist_result)
        } else {
            Err(unexpected("Expect FunctionCall"))
        }
    }

    /// Emits the code that builds a table on the spot: an empty table, then
    /// for each field its name, its value and the instruction that sets it.
    /// A field that is itself a table or a list is deferred to a thunk.
    pub fn visit_table(&mut self, expr: &Expr) -> (r: Result<u8, BytecodeGenerationError>)
        requires
            old(self)@.ok(),
        ensures
            final(self)@.ok(),
            final(self)@.extends(old(self)@),
            r matches Ok(reg) ==> reg < 16,
            match expr@ {
                ExprView::Table { fields } => (final(self)@, kind_of(r)) == spec_table(
                    old(self)@,
                    fields,
                ),
                _ => final(self)@ == old(self)@ && (r matches Err(e) && e.spec_kind()
                    == GenerationErrorKind::UnexpectExpr),
            },
        decreases expr, 0nat,
    {
        if let Expr::Table { fields } = expr {
            let ghost views = fields_view(fields@);
            assert(*expr == Expr::Table { fields: *fields });
            assert(expr@ == ExprView::Table { fields: views });
            let reg_table = match self.take_register() {
                Ok(reg) => reg,
                Err(e) => {
                    return Err(e);
                },
            };
            match self.emit_register(OpCode::MAKETABLE, reg_table) {
                Ok(_) => {},
                Err(e) => {
                    return Err(e);
                },
            }
            let ghost start = self@;
            assert(spec_table(old(self)@, views) == finish_block(
                spec_fields(start, views, 0, reg_table),
                reg_table,
            ));
            let mut i: usize = 0;
            while i < fields.len()
                invariant
                    i <= fields@.len(),
                    *expr is Table,
                    expr->Table_fields == *fields,
                    views == fields_view(fields@),
                    reg_table < 16,
                    self@.ok(),
                    self@.extends(old(self)@),
                    spec_table(old(self)@, views) == finish_block(
                        spec_fields(start, views, 0, reg_table),
                        reg_table,
                    ),
                    spec_fields(start, views, 0, reg_table) == spec_fields(
                        self@,
                        views,
                        i as int,
                        reg_table,
                    ),
                decreases fields@.len() - i,
            {
                proof {
                    vstd::std_specs::vec::axiom_vec_index_decreases(*fields, i as int);
                    assert(decreases_to!(*expr => expr->Table_fields));
                    assert(decreases_to!(fields[i as int] => fields[i as int].1));
                    assert(views[i as int] == (fields@[i as int].0@, fields@[i as int].1@));
                }
                let ghost entry = self@;
                let reg_key = match self.load_const(Constant::String(fields[i].0.clone())) {
                    Ok(reg) => reg,
                    Err(e) => {
                        return Err(e);
                    },
                };
                let ghost before = self@;
                let reg_value = match self.visit_expr(&fields[i].1, true) {
                    Ok(reg) => reg,
                    Err(e) => {
                        proof {
                            lemma_extends_trans(old(self)@, before, self@);
                        }
                        return Err(e);
                    },
                };
                proof {
                    lemma_extends_trans(old(self)@, before, self@);
                }
                match self.emit(
                    OpCode::SETATTR,
                    vec![reg_table as u32, reg_key as u32, reg_value as u32],
                ) {
                    Ok(_) => {},
                    Err(e) => {
                        return Err(e);
                    },
                }
                self.release(reg_key);
                self.release(reg_value);
                assert(spec_fields(entry, views, i as int, reg_table) == spec_fields(
                    self@,
                    views,
                    i + 1,
                    reg_table,
                ));
                i += 1;
            }
            self.release(reg_table);
            Ok(reg_table)
        } else {
            Err(unexpected("Expect Table"))
        }
    }

    /// Emits the code that builds a list on the spot: an empty list, then
    /// for each item its value and the instruction that appends it. An item
    /// that is itself a table or a list is deferred to a thunk.
    pub fn visit_list(&mut self, expr: &Expr) -> (r: Result<u8, BytecodeGenerationError>)
        requires
            old(self)@.ok(),
        ensures
            final(self)@.ok(),
            final(self)@.extends(old(self)@),
            r matches Ok(reg) ==> reg < 16,
            match expr@ {
                ExprView::List { items } => (final(self)@, kind_of(r)) == spec_list(
                    old(self)@,
                    items,
                ),
                _ => final(self)@ == old(self)@ && (r matches Err(e) && e.spec_kind()
                    == GenerationErrorKind::UnexpectExpr),
            },
        decreases expr, 0nat,
    {
        if let Expr::List { items } = expr {
            let ghost views = exprs_view(items@);
            assert(*expr == Expr::List { items: *items });
            assert(expr@ == ExprView::List { items: views });
            let reg_list = match self.take_register() {
                Ok(reg) => reg,
                Err(e) => {
                    return Err(e);
                },
            };
            match self.emit_register(OpCode::MAKELIST, reg_list) {
                Ok(_) => {},
                Err(e) => {
                    return Err(e);
                },
            }
            let ghost start = self@;
            assert(spec_list(old(self)@, views) == finish_block(
                spec_items(start, views, 0, reg_list),
                reg_list,
            ));
            let mut i: usize = 0;
            while i < items.len()
                invariant
                    i <= items@.len(),
                    *expr is List,
                    expr->List_items == *items,
                    views == exprs_view(items@),
                    reg_list < 16,
                    self@.ok(),
                    self@.extends(old(self)@),
                    spec_list(old(self)@, views) == finish_block(
                        spec_items(start, views, 0, reg_list),
                        reg_list,
                    ),
                    spec_items(start, views, 0, reg_list) == spec_items(
                        self@,
                        views,
                        i as int,
                        reg_list,
                    ),
                decreases items@.len() - i,
            {
                proof {
                    vstd::std_specs::vec::axiom_vec_index_decreases(*items, i as int);
                    assert(decreases_to!(*expr => expr->List_items));
                    assert(views[i as int] == items@[i as int]@);
                }
                let ghost before = self@;
                let reg_value = match self.visit_expr(&items[i], true) {
                    Ok(reg) => reg,
                    Err(e) => {
                        proof {
                            lemma_extends_trans(old(self)@, before, self@);
                        }
                        return Err(e);
                    },
                };
                proof {
                    lemma_extends_trans(old(self)@, before, self@);
                }
                match self.emit(OpCode::ADDLIST, vec![reg_list as u32, reg_value as u32]) {
                    Ok(_) => {},
                    Err(e) => {
                        return Err(e);
                    },
                }
                self.release(reg_value);
                assert(spec_items(before, views, i as int, reg_list) == spec_items(
                    self@,
                    views,
                    i + 1,
                    reg_list,
                ));
                i += 1;
            }
            self.release(reg_list);
            Ok(reg_list)
        } else {
            Err(unexpected("Expect List"))
        }
    }
}

} // verus!

verus! {

/// A generator that was added to grew, in the weaker sense too.
pub proof fn lemma_extends_grows(old: GenModel, new: GenModel)
    requires
        new.extends(old),
    ensures
        new.grows_from(old),
{
    assert forall|i: int| 0 <= i < old.thunks.len() implies (#[trigger] new.thunks[i]).expr
        == old.thunks[i].expr by {
        assert(old.thunks[i] == new.thunks[i]);
    }
    assert forall|i: int| 0 <= i < old.functions.len() implies (#[trigger] new.functions[i]).params
        == old.functions[i].params && new.functions[i].body == old.functions[i].body by {
        assert(old.functions[i] == new.functions[i]);
    }
}

/// Growing twice is growing.
pub proof fn lemma_grows_trans(a: GenModel, b: GenModel, c: GenModel)
    requires
        b.grows_from(a),
        c.grows_from(b),
    ensures
        c.grows_from(a),
{
    assert forall|i: int| 0 <= i < a.constants.len() implies a.constants[i]
        == #[trigger] c.constants[i] by {
        assert(b.constants[i] == c.constants[i]);
    }
    assert forall|i: int| 0 <= i < a.thunks.len() implies (#[trigger] c.thunks[i]).expr
        == a.thunks[i].expr by {
        assert(b.thunks[i].expr == a.thunks[i].expr);
    }
    assert forall|i: int| 0 <= i < a.functions.len() implies (#[trigger] c.functions[i]).params
        == a.functions[i].params && c.functions[i].body == a.functions[i].body by {
        assert(b.functions[i].params == a.functions[i].params);
    }
    assert forall|i: int| 0 <= i < a.used.len() implies a.used[i] == #[trigger] c.used[i] by {
        assert(b.used[i] == c.used[i]);
    }
    assert forall|i: int| 0 <= i < a.code.len() implies a.code[i] == #[trigger] c.code[i] by {
        assert(b.code[i] == c.code[i]);
    }
}

impl GenModel {
    /// Whether the code of each of the first `n` thunks starts at an
    /// instruction that was emitted after the first `from`.
    pub open spec fn thunks_placed(self, n: int, from: int) -> bool {
        forall|k: int|
            0 <= k < n ==> from <= (#[trigger] self.thunks[k]).offset < self.ins_count
    }

    /// Whether the code of each of the first `n` functions starts at an
    /// instruction that was emitted after the first `from`.
    pub open spec fn functions_placed(self, n: int, from: int) -> bool {
        forall|k: int|
            0 <= k < n ==> from <= (#[trigger] self.functions[k]).offset < self.ins_count
    }
}

/// What the bytes of a program say: the bytes, or the class of the error.
pub open spec fn bytes_of(r: Result<Vec<u8>, BytecodeGenerationError>) -> Result<
    Seq<u8>,
    GenerationErrorKind,
> {
    match r {
        Ok(bytes) => Ok(bytes@),
        Err(e) => Err(e.spec_kind()),
    }
}

/// What the code of a thunk gives once its table or list is built.
pub open spec fn finish_thunk(body: Outcome, idx: int) -> Progress {
    match body.1 {
        Err(k) => (body.0, Err(k)),
        Ok(reg) => {
            let yielded = spec_emit(body.0, OpCode::RETURN, seq![reg as u32]);
            match yielded.1 {
                Err(k) => (yielded.0, Err(k)),
                Ok(_) => spec_drain(yielded.0, idx + 1),
            }
        },
    }
}

/// What the code of a function gives once its arguments are loaded.
pub open spec fn finish_function(
    bound: (GenModel, Result<Seq<usize>, GenerationErrorKind>),
    body: ExprView,
    idx: int,
) -> Progress {
    match bound.1 {
        Err(k) => (bound.0, Err(k)),
        Ok(regs) => {
            let value = spec_visit(bound.0, body, false);
            match value.1 {
                Err(k) => (value.0, Err(k)),
                Ok(reg) => {
                    let yielded = spec_emit(
                        spec_free_all(value.0, regs),
                        OpCode::RETURN,
                        seq![reg as u32],
                    );
                    match yielded.1 {
                        Err(k) => (yielded.0, Err(k)),
                        Ok(_) => spec_functions(
                            GenModel { context: Seq::empty(), ..spec_release(yielded.0, reg) },
                            idx + 1,
                        ),
                    }
                },
            }
        },
    }
}

impl BytecodeGen {
    /// Generates the code of every thunk, in the order of their numbers, the
    /// thunks that the code of a thunk registers included. The code of a
    /// thunk starts at the instruction whose number is recorded for it, and
    /// ends with the instruction that yields the table or the list.
    pub fn visit_remain_thunk(&mut self) -> (r: Result<(), BytecodeGenerationError>)
        requires
            old(self)@.ok(),
        ensures
            final(self)@.ok(),
            final(self)@.grows_from(old(self)@),
            final(self)@.context == old(self)@.context,
            r is Ok ==> final(self)@.thunks_placed(
                final(self)@.thunks.len() as int,
                old(self)@.ins_count as int,
            ),
            (final(self)@, kind_of(r)) == spec_drain(old(self)@, 0),
    {
        let mut idx: usize = 0;
        proof {
            lemma_extends_grows(old(self)@, self@);
        }
        while idx < self.thunks.len()
            invariant
                idx <= self.thunks@.len(),
                self@.ok(),
                self@.grows_from(old(self)@),
                self@.context == old(self)@.context,
                self@.thunks_placed(idx as int, old(self)@.ins_count as int),
                spec_drain(old(self)@, 0) == spec_drain(self@, idx as int),
            decreases CONST_MASK - idx,
        {
            let ghost start = self@;
            let expr = self.thunks[idx].expr.clone();
            assert(expr@ == start.thunks[idx as int].expr);
            let is_table = match &expr {
                Expr::Table { .. } => true,
                Expr::List { .. } => false,
                _ => {
                    return Err(unexpected("a thunk holds neither a table nor a list"));
                },
            };
            let offset = self.ins_count;
            self.set_offset_thunk(idx, offset);
            let ghost placed = self@;
            proof {
                lemma_tables_grow(start, placed);
                assert(placed.grows_from(start)) by {
                    assert forall|i: int| 0 <= i < start.thunks.len() implies (
                    #[trigger] placed.thunks[i]).expr == start.thunks[i].expr by {}
                }
                lemma_grows_trans(old(self)@, start, placed);
                assert(placed == spec_place_thunk(start, idx as int, start.ins_count));
            }
            let body = if is_table {
                self.visit_table(&expr)
            } else {
                self.visit_list(&expr)
            };
            let ghost built = self@;
            proof {
                lemma_extends_grows(placed, built);
                lemma_grows_trans(old(self)@, placed, built);
                assert(spec_drain(start, idx as int) == finish_thunk(
                    (built, kind_of(body)),
                    idx as int,
                ));
            }
            let reg = match body {
                Ok(reg) => reg,
                Err(e) => {
                    return Err(e);
                },
            };
            match self.emit_register(OpCode::RETURN, reg) {
                Ok(_) => {},
                Err(e) => {
                    return Err(e);
                },
            }
            proof {
                lemma_extends_grows(built, self@);
                lemma_grows_trans(old(self)@, built, self@);
                assert forall|k: int| 0 <= k < idx + 1 implies old(self)@.ins_count <= (
                #[trigger] self@.thunks[k]).offset < self@.ins_count by {
                    assert(self@.thunks[k] == built.thunks[k]);
                    assert(built.thunks[k] == placed.thunks[k]);
                    if k < idx {
                        assert(placed.thunks[k] == start.thunks[k]);
                    }
                }
            }
            idx += 1;
        }
        Ok(())
    }

    /// Generates the code of every function, in the order of their numbers,
    /// the functions that the code of a function registers included. The
    /// code of a function starts at the instruction whose number is recorded
    /// for it: it loads each argument into a register of its own, computes
    /// the body with the parameters bound to these registers, and yields the
    /// body's value.
    pub fn visit_function(&mut self) -> (r: Result<(), BytecodeGenerationError>)
        requires
            old(self)@.ok(),
        ensures
            final(self)@.ok(),
            final(self)@.grows_from(old(self)@),
            r is Ok ==> final(self)@.functions_placed(
                final(self)@.functions.len() as int,
                old(self)@.ins_count as int,
            ),
            (final(self)@, kind_of(r)) == spec_functions(old(self)@, 0),
    {
        let mut idx: usize = 0;
        proof {
            lemma_extends_grows(old(self)@, self@);
        }
        while idx < self.functions.len()
            invariant
                idx <= self.functions@.len(),
                self@.ok(),
                self@.grows_from(old(self)@),
                self@.functions_placed(idx as int, old(self)@.ins_count as int),
                spec_functions(old(self)@, 0) == spec_functions(self@, idx as int),
            decreases CONST_MASK - idx,
        {
            let ghost start = self@;
            let offset = self.ins_count;
            self.set_offset_func(idx, offset);
            let ghost placed = self@;
            proof {
                lemma_tables_grow(start, placed);
                assert(placed.wf()) by {
                    assert forall|k: int| 0 <= k < placed.functions.len() implies (
                    #[trigger] placed.functions[k]).params.len() <= u32::MAX by {
                        assert(start.functions[k].params.len() <= u32::MAX);
                    }
                }
                assert(placed.grows_from(start)) by {
                    assert forall|i: int| 0 <= i < start.functions.len() implies (
                    #[trigger] placed.functions[i]).params == start.functions[i].params
                        && placed.functions[i].body == start.functions[i].body by {}
                }
                lemma_grows_trans(old(self)@, start, placed);
                assert(placed == spec_place_function(start, idx as int, start.ins_count));
            }
            let function = self.functions[idx].clone();
            assert(function@ == placed.functions[idx as int]);
            if self.context_var.len() != 0 {
                return Err(unexpected("Context var not empty"));
            }
            let ghost names = names_view(function.params@);
            assert(spec_functions(start, idx as int) == finish_function(
                spec_params(placed, names, 0, Seq::empty()),
                function.body@,
                idx as int,
            ));
            let mut reg_params: Vec<usize> = Vec::new();
            let mut p: usize = 0;
            while p < function.params.len()
                invariant
                    p <= function.params@.len(),
                    names == names_view(function.params@),
                    self@.ok(),
                    self@.grows_from(old(self)@),
                    self@.functions.len() == placed.functions.len(),
                    starts_with(self@.functions, placed.functions),
                    placed.ins_count <= self@.ins_count,
                    forall|k: int| 0 <= k < reg_params@.len() ==> reg_params@[k] < 16,
                    spec_params(placed, names, 0, Seq::empty()) == spec_params(
                        self@,
                        names,
                        p as int,
                        reg_params@,
                    ),
                    spec_functions(start, idx as int) == finish_function(
                        spec_params(placed, names, 0, Seq::empty()),
                        function.body@,
                        idx as int,
                    ),
                    spec_functions(old(self)@, 0) == spec_functions(start, idx as int),
                decreases function.params@.len() - p,
            {
                let ghost before = self@;
                let ghost taken_before = reg_params@;
                assert(names[p as int] == function.params@[p as int]@);
                let reg_param = match self.take_register() {
                    Ok(reg) => reg,
                    Err(e) => {
                        return Err(e);
                    },
                };
                self.bind_variable(function.params[p].clone(), reg_param);
                let ghost bound = self@;
                match self.emit_register(OpCode::LOADARG, reg_param) {
                    Ok(_) => {},
                    Err(e) => {
                        proof {
                            lemma_grows_trans(old(self)@, before, self@);
                        }
                        return Err(e);
                    },
                }
                proof {
                    lemma_extends_grows(bound, self@);
                    lemma_grows_trans(old(self)@, before, self@);
                }
                reg_params.push(reg_param as usize);
                assert(spec_params(before, names, p as int, taken_before) == spec_params(
                    self@,
                    names,
                    p + 1,
                    reg_params@,
                ));
                p += 1;
            }
            let ghost bound = self@;
            let ghost regs = reg_params@;
            let body = self.visit_expr(&function.body, false);
            let ghost built = self@;
            proof {
                lemma_extends_grows(bound, built);
                lemma_grows_trans(old(self)@, bound, built);
            }
            let reg_value = match body {
                Ok(reg) => reg,
                Err(e) => {
                    return Err(e);
                },
            };
            self.free_registers(reg_params);
            proof {
                lemma_tables_grow(built, self@);
                assert(self@.registers =~= spec_free_all(built, regs).registers);
                assert(self@ == spec_free_all(built, regs));
            }
            let ghost freed = self@;
            match self.emit_register(OpCode::RETURN, reg_value) {
                Ok(_) => {},
                Err(e) => {
                    proof {
                        lemma_grows_trans(old(self)@, built, self@);
                    }
                    return Err(e);
                },
            }
            self.release(reg_value);
            let ghost released = self@;
            self.context_var = Vec::new();
            proof {
                lemma_tables_grow(released, self@);
                lemma_extends_grows(freed, released);
                assert(self@.context =~= Seq::empty());
                assert(self@.grows_from(built));
                lemma_grows_trans(old(self)@, built, self@);
                assert forall|k: int| 0 <= k < idx + 1 implies old(self)@.ins_count <= (
                #[trigger] self@.functions[k]).offset < self@.ins_count by {
                    assert(self@.functions[k] == built.functions[k]);
                    assert(built.functions[k] == bound.functions[k]);
                    assert(bound.functions[k] == placed.functions[k]);
                    if k < idx {
                        assert(placed.functions[k] == start.functions[k]);
                    }
                }
                assert(spec_functions(start, idx as int) == spec_functions(self@, idx + 1));
            }
            idx += 1;
        }
        Ok(())
    }

    /// Makes sure that the constant pool holds the name of every global
    /// function in use.
    fn intern_used_names(&mut self) -> (r: Result<(), BytecodeGenerationError>)
        requires
            old(self)@.ok(),
        ensures
            final(self)@.ok(),
            final(self)@.extends(old(self)@),
            final(self)@.registers == old(self)@.registers,
            final(self)@.thunks == old(self)@.thunks,
            final(self)@.functions == old(self)@.functions,
            final(self)@.ins_count == old(self)@.ins_count,
            r is Ok ==> final(self)@.names_interned(),
            (final(self)@, kind_of(r)) == spec_intern_names(
                old(self)@,
                0,
                old(self)@.used.len() as int,
            ),
    {
        let ghost n = self@.used.len() as int;
        let mut i: usize = 0;
        while i < self.global_function_in_used.len()
            invariant
                i <= self.global_function_in_used@.len(),
                n == self@.used.len(),
                self@.ok(),
                self@.extends(old(self)@),
                self@ == (GenModel { constants: self@.constants, ..old(self)@ }),
                forall|k: int|
                    0 <= k < i ==> position(
                        self@.constants,
                        ConstantModel::String((#[trigger] self@.used[k]).0),
                        0,
                    ) < self@.constants.len(),
                spec_intern_names(old(self)@, 0, n) == spec_intern_names(self@, i as int, n),
            decreases self.global_function_in_used@.len() - i,
        {
            let ghost before = self@;
            let name = self.global_function_in_used[i].0.clone();
            match self.intern(Constant::String(name)) {
                Ok(_) => {},
                Err(e) => {
                    return Err(e);
                },
            }
            proof {
                lemma_intern_once(before, ConstantModel::String(before.used[i as int].0));
                lemma_position(self@.constants, ConstantModel::String(before.used[i as int].0), 0);
                assert forall|k: int| 0 <= k < i + 1 implies position(
                    self@.constants,
                    ConstantModel::String((#[trigger] self@.used[k]).0),
                    0,
                ) < self@.constants.len() by {
                    if k < i {
                        lemma_intern_keeps(
                            before,
                            ConstantModel::String(before.used[i as int].0),
                            ConstantModel::String(before.used[k].0),
                        );
                    }
                }
            }
            i += 1;
        }
        Ok(())
    }

    /// The number of bytes of the constant section, where it fits 32 bits.
    fn checked_constant_len(&self) -> (r: Option<u32>)
        ensures
            match r {
                Some(n) => n == constants_len(self@.constants),
                None => constants_len(self@.constants) > u32::MAX,
            },
    {
        let ghost pool = self@.constants;
        let mut total: u64 = 0;
        let mut i: usize = 0;
        proof {
            assert(pool.take(0) =~= Seq::<ConstantModel>::empty());
        }
        while i < self.constants.len()
            invariant
                i <= self.constants@.len(),
                pool == self@.constants,
                total == constants_len(pool.take(i as int)),
                total <= u32::MAX,
            decreases self.constants@.len() - i,
        {
            proof {
                lemma_constants_len_prefix(pool, i as int);
                lemma_constants_len_prefix(pool, i + 1);
            }
            let size: u64 = match &self.constants[i] {
                Constant::Number(_) => 9,
                Constant::String(text) => {
                    let len = text.as_str().as_bytes().len();
                    if len > 0xFFFF_FFFF {
                        return None;
                    }
                    5 + len as u64
                },
            };
            total = total + size;
            if total > 0xFFFF_FFFF {
                return None;
            }
            i += 1;
        }
        assert(pool.take(i as int) =~= pool);
        Some(total as u32)
    }

    /// Whether every length and offset of the program fits 32 bits.
    pub fn check_fits(&self) -> (r: bool)
        requires
            self@.wf(),
        ensures
            r == self@.fits(),
    {
        proof {
            lemma_constants_len_prefix(self@.constants, 0);
        }
        match self.checked_constant_len() {
            None => false,
            Some(const_len) => {
                let total: u64 = METADATA_BYTES as u64 + const_len as u64 + 4
                    * self.thunks.len() as u64 + 8 * self.functions.len() as u64 + 8
                    * self.global_function_in_used.len() as u64 + 4 * self.ins_count as u64 + 4;
                total <= 0xFFFF_FFFF
            },
        }
    }

    /// Compiles an expression to a binary program.
    ///
    /// The code of the expression comes first and ends with the instruction
    /// that yields its value; the code of the thunks follows, then the code of
    /// the functions. The program is the header, the constants, the thunk
    /// table, the function table, the table of the global functions in use,
    /// the code, and the footer with the length of the whole.
    pub fn get_binary(&mut self, expr: Expr) -> (r: Result<Vec<u8>, BytecodeGenerationError>)
        requires
            old(self)@.ok(),
        ensures
            final(self)@.ok(),
            final(self)@.grows_from(old(self)@),
            (final(self)@, bytes_of(r)) == spec_get_binary(old(self)@, expr@),
            r matches Ok(bytes) ==> {
                &&& final(self)@.fits()
                &&& final(self)@.names_interned()
                &&& final(self)@.ins_count > old(self)@.ins_count
                &&& final(self)@.functions_placed(
                    final(self)@.functions.len() as int,
                    old(self)@.ins_count as int,
                )
                &&& bytes@ == final(self)@.binary()
                &&& bytes@.len() == final(self)@.total_len()
                &&& bytes@.subrange(bytes@.len() - 4, bytes@.len() as int) == spec_u32_be(
                    bytes@.len() as u32,
                )
            },
    {
        let main = self.visit_expr(&expr, false);
        let ghost visited = self@;
        proof {
            lemma_extends_grows(old(self)@, visited);
        }
        let reg = match main {
            Ok(reg) => reg,
            Err(e) => {
                return Err(e);
            },
        };
        self.release(reg);
        let ghost released = self@;
        match self.emit_register(OpCode::RETURN, reg) {
            Ok(_) => {},
            Err(e) => {
                proof {
                    lemma_extends_grows(visited, self@);
                    lemma_grows_trans(old(self)@, visited, self@);
                }
                return Err(e);
            },
        }
        let ghost returned = self@;
        proof {
            lemma_extends_grows(released, returned);
            lemma_extends_grows(visited, released);
            lemma_grows_trans(old(self)@, visited, released);
            lemma_grows_trans(old(self)@, released, returned);
        }
        let thunks = self.visit_remain_thunk();
        let ghost drained = self@;
        proof {
            lemma_grows_trans(old(self)@, returned, drained);
        }
        match thunks {
            Ok(_) => {},
            Err(e) => {
                return Err(e);
            },
        }
        let functions = self.visit_function();
        let ghost compiled = self@;
        proof {
            lemma_grows_trans(old(self)@, drained, compiled);
        }
        match functions {
            Ok(_) => {},
            Err(e) => {
                return Err(e);
            },
        }
        let names = self.intern_used_names();
        proof {
            lemma_extends_grows(compiled, self@);
            lemma_grows_trans(old(self)@, compiled, self@);
        }
        match names {
            Ok(_) => {},
            Err(e) => {
                return Err(e);
            },
        }
        if !self.check_fits() {
            return Err(unexpected("the program is too large"));
        }
        proof {
            lemma_constants_len_prefix(self@.constants, 0);
            lemma_binary_layout(self@);
        }
        let mut bytes: Vec<u8> = Vec::new();
        self.add_header_to_binary(&mut bytes);
        self.add_const_to_binary(&mut bytes);
        self.add_thunk_table_to_binary(&mut bytes);
        self.add_function_table_to_binary(&mut bytes);
        self.add_global_function_table_to_binary(&mut bytes);
        self.add_ins_code_to_binary(&mut bytes);
        self.add_footer_to_binary(&mut bytes);
        assert(bytes@ =~= self@.binary());
        Ok(bytes)
    }
}

} // verus!

//! The binary format between the generator and the machine: what the
//! generator writes is what the machine reads.

use vstd::prelude::*;
use vstd::utf8::{encode_utf8, encode_utf8_decode_utf8, encode_utf8_valid_utf8};
use crate::compiler::bytecode::constant::ConstantModel;
use crate::compiler::bytecode::thunk::ThunkModel;
use crate::compiler::bytecode::{
    constant_bytes,
    constant_len,
    constants_bytes,
    constants_len,
    lemma_binary_layout,
    lemma_constants_len_prefix,
    lemma_thunks_bytes_len,
    thunks_bytes,
    GenModel,
};
use crate::instructions::{MAGIC_NUMBER, METADATA_BYTES, VERSION};
use crate::vm::constant::ConstantView;
use crate::vm::metadata::MetaData;
use crate::vm::utils::{
    lemma_i64_roundtrip,
    lemma_u32_roundtrip,
    spec_i64_be,
    spec_window,
    spec_u32_be,
};
use crate::vm::vm::{
    spec_constant,
    spec_constants,
    spec_header,
    spec_load,
    spec_numbered,
    spec_thunk_start,
    spec_thunks,
    spec_word,
};

verus! {

/// The header that the generator writes for its program.
pub open spec fn written_metadata(g: GenModel) -> MetaData {
    MetaData {
        magic_code: MAGIC_NUMBER,
        version: VERSION,
        const_offset: METADATA_BYTES,
        const_size: g.constants.len() as u32,
        thunk_offset: g.thunk_offset() as u32,
        thunk_size: g.thunks.len() as u32,
        function_offset: g.function_offset() as u32,
        function_size: g.functions.len() as u32,
        global_function_offset: g.global_function_offset() as u32,
        global_function_size: g.used.len() as u32,
        code_offset: g.code_offset() as u32,
        code_size: g.ins_count,
    }
}

/// The constant of the machine that a constant of the generator becomes.
pub open spec fn loaded_constant(c: ConstantModel) -> ConstantView {
    match c {
        ConstantModel::Number(number) => ConstantView::Int(number as i64),
        ConstantModel::String(text) => ConstantView::String(text),
    }
}

/// The constants of the machine that the constants of the generator become.
pub open spec fn loaded_constants(constants: Seq<ConstantModel>) -> Seq<ConstantView> {
    Seq::new(constants.len(), |i: int| loaded_constant(constants[i]))
}

/// The bytes at which the code of the thunks starts.
pub open spec fn thunk_starts(thunks: Seq<ThunkModel>, code_offset: u32) -> Seq<u32> {
    Seq::new(thunks.len(), |i: int| (thunks[i].offset * 4 + code_offset) as u32)
}

/// Four bytes that were written for a number are read as the number.
pub proof fn lemma_word_reads(bytes: Seq<u8>, at: int, value: u32)
    requires
        0 <= at,
        at + 4 <= bytes.len(),
        bytes.subrange(at, at + 4) == spec_u32_be(value),
    ensures
        spec_word(bytes, at) == Some(value),
{
    lemma_u32_roundtrip(value);
}

/// Whether the four bytes at `at` spell `value`.
#[verifier::opaque]
pub open spec fn word_is(bytes: Seq<u8>, at: int, value: u32) -> bool {
    spec_word(bytes, at) == Some(value)
}

/// A number that was written between two runs of bytes is read where the
/// first run ends.
pub proof fn lemma_word_between(pre: Seq<u8>, value: u32, post: Seq<u8>)
    ensures
        word_is(pre + spec_u32_be(value) + post, pre.len() as int, value),
        (pre + spec_u32_be(value)).len() == pre.len() + 4,
{
    reveal(word_is);
    let bytes = pre + spec_u32_be(value) + post;
    assert(bytes.subrange(pre.len() as int, pre.len() as int + 4) =~= spec_u32_be(value));
    lemma_word_reads(bytes, pre.len() as int, value);
}

/// Runs of bytes can be put together in any grouping.
pub proof fn lemma_concat_assoc(a: Seq<u8>, b: Seq<u8>, c: Seq<u8>)
    ensures
        (a + b) + c == a + (b + c),
{
    assert((a + b) + c =~= a + (b + c));
}

/// The bytes of twelve numbers, one after the other.
pub open spec fn twelve_words(f: Seq<u32>) -> Seq<u8> {
    spec_u32_be(f[0]) + spec_u32_be(f[1]) + spec_u32_be(f[2]) + spec_u32_be(f[3]) + spec_u32_be(
        f[4],
    ) + spec_u32_be(f[5]) + spec_u32_be(f[6]) + spec_u32_be(f[7]) + spec_u32_be(f[8])
        + spec_u32_be(f[9]) + spec_u32_be(f[10]) + spec_u32_be(f[11])
}

/// The twelve numbers of a header are read where they were written, whatever
/// follows the header.
pub proof fn lemma_twelve_words(f: Seq<u32>, rest: Seq<u8>)
    requires
        f.len() == 12,
    ensures
        forall|k: int| 0 <= k < 12 ==> word_is(twelve_words(f) + rest, 4 * k, #[trigger] f[k]),
        twelve_words(f).len() == 48,
{
    let w0 = spec_u32_be(f[0]);
    let w1 = spec_u32_be(f[1]);
    let w2 = spec_u32_be(f[2]);
    let w3 = spec_u32_be(f[3]);
    let w4 = spec_u32_be(f[4]);
    let w5 = spec_u32_be(f[5]);
    let w6 = spec_u32_be(f[6]);
    let w7 = spec_u32_be(f[7]);
    let w8 = spec_u32_be(f[8]);
    let w9 = spec_u32_be(f[9]);
    let w10 = spec_u32_be(f[10]);
    let w11 = spec_u32_be(f[11]);
    let head0 = Seq::<u8>::empty();
    let head1 = w0;
    let head2 = head1 + w1;
    let head3 = head2 + w2;
    let head4 = head3 + w3;
    let head5 = head4 + w4;
    let head6 = head5 + w5;
    let head7 = head6 + w6;
    let head8 = head7 + w7;
    let head9 = head8 + w8;
    let head10 = head9 + w9;
    let head11 = head10 + w10;
    let head12 = head11 + w11;
    let bytes = head12 + rest;
    let tail11 = rest;
    let tail10 = w11 + tail11;
    let tail9 = w10 + tail10;
    let tail8 = w9 + tail9;
    let tail7 = w8 + tail8;
    let tail6 = w7 + tail7;
    let tail5 = w6 + tail6;
    let tail4 = w5 + tail5;
    let tail3 = w4 + tail4;
    let tail2 = w3 + tail3;
    let tail1 = w2 + tail2;
    let tail0 = w1 + tail1;
    assert(head0 + w0 == head1) by {
        assert(head0 + w0 =~= w0);
    }
    lemma_word_between(head0, f[0], tail0);
    lemma_word_between(head1, f[1], tail1);
    lemma_word_between(head2, f[2], tail2);
    lemma_word_between(head3, f[3], tail3);
    lemma_word_between(head4, f[4], tail4);
    lemma_word_between(head5, f[5], tail5);
    lemma_word_between(head6, f[6], tail6);
    lemma_word_between(head7, f[7], tail7);
    lemma_word_between(head8, f[8], tail8);
    lemma_word_between(head9, f[9], tail9);
    lemma_word_between(head10, f[10], tail10);
    lemma_word_between(head11, f[11], tail11);
    lemma_concat_assoc(head11, w11, tail11);
    lemma_concat_assoc(head10, w10, tail10);
    lemma_concat_assoc(head9, w9, tail9);
    lemma_concat_assoc(head8, w8, tail8);
    lemma_concat_assoc(head7, w7, tail7);
    lemma_concat_assoc(head6, w6, tail6);
    lemma_concat_assoc(head5, w5, tail5);
    lemma_concat_assoc(head4, w4, tail4);
    lemma_concat_assoc(head3, w3, tail3);
    lemma_concat_assoc(head2, w2, tail2);
    lemma_concat_assoc(head1, w1, tail1);
    assert(head0.len() == 0);
}

/// The twelve numbers of the header that the generator writes.
pub open spec fn header_fields(g: GenModel) -> Seq<u32> {
    seq![
        MAGIC_NUMBER,
        VERSION,
        METADATA_BYTES,
        g.constants.len() as u32,
        g.thunk_offset() as u32,
        g.thunks.len() as u32,
        g.function_offset() as u32,
        g.functions.len() as u32,
        g.global_function_offset() as u32,
        g.used.len() as u32,
        g.code_offset() as u32,
        g.ins_count,
    ]
}

/// What follows the header in the program that the generator writes.
pub open spec fn after_header(g: GenModel) -> Seq<u8> {
    constants_bytes(g.constants) + thunks_bytes(g.thunks)
        + crate::compiler::bytecode::functions_bytes(g.functions)
        + crate::compiler::bytecode::used_bytes(g.used, g.constants) + g.code + g.footer_bytes()
}

/// A program is its header and what follows it.
pub proof fn lemma_binary_split(g: GenModel)
    ensures
        g.binary() == twelve_words(header_fields(g)) + after_header(g),
{
    let h = g.header_bytes();
    assert(h == twelve_words(header_fields(g)));
    let c = constants_bytes(g.constants);
    let t = thunks_bytes(g.thunks);
    let fs = crate::compiler::bytecode::functions_bytes(g.functions);
    let u = crate::compiler::bytecode::used_bytes(g.used, g.constants);
    let r1 = c;
    let r2 = r1 + t;
    let r3 = r2 + fs;
    let r4 = r3 + u;
    let r5 = r4 + g.code;
    lemma_concat_assoc(h, r1, t);
    lemma_concat_assoc(h, r2, fs);
    lemma_concat_assoc(h, r3, u);
    lemma_concat_assoc(h, r4, g.code);
    lemma_concat_assoc(h, r5, g.footer_bytes());
}

/// A program that holds the twelve numbers of a header, the magic value
/// first, has that header.
pub proof fn lemma_header_from_words(bytes: Seq<u8>, f: Seq<u32>)
    requires
        bytes.len() >= 48,
        f.len() == 12,
        f[0] == MAGIC_NUMBER,
        forall|k: int| 0 <= k < 12 ==> word_is(bytes, 4 * k, #[trigger] f[k]),
    ensures
        spec_header(bytes) == Some(
            MetaData {
                magic_code: f[0],
                version: f[1],
                const_offset: f[2],
                const_size: f[3],
                thunk_offset: f[4],
                thunk_size: f[5],
                function_offset: f[6],
                function_size: f[7],
                global_function_offset: f[8],
                global_function_size: f[9],
                code_offset: f[10],
                code_size: f[11],
            },
        ),
{
    reveal(word_is);
    assert(word_is(bytes, 4 * 0int, f[0]));
    assert(word_is(bytes, 4 * 1int, f[1]));
    assert(word_is(bytes, 4 * 2int, f[2]));
    assert(word_is(bytes, 4 * 3int, f[3]));
    assert(word_is(bytes, 4 * 4int, f[4]));
    assert(word_is(bytes, 4 * 5int, f[5]));
    assert(word_is(bytes, 4 * 6int, f[6]));
    assert(word_is(bytes, 4 * 7int, f[7]));
    assert(word_is(bytes, 4 * 8int, f[8]));
    assert(word_is(bytes, 4 * 9int, f[9]));
    assert(word_is(bytes, 4 * 10int, f[10]));
    assert(word_is(bytes, 4 * 11int, f[11]));
}

/// The machine reads the header that the generator wrote.
pub proof fn lemma_header_reads(g: GenModel)
    ensures
        spec_header(g.binary()) == Some(written_metadata(g)),
{
    let f = header_fields(g);
    lemma_binary_split(g);
    lemma_twelve_words(f, after_header(g));
    lemma_header_from_words(twelve_words(f) + after_header(g), f);
}

/// The bytes of a constant section are the bytes of its first constant and
/// then the bytes of the others.
pub proof fn lemma_constants_front(constants: Seq<ConstantModel>)
    requires
        constants.len() > 0,
    ensures
        constants_bytes(constants) == constant_bytes(constants[0]) + constants_bytes(
            constants.drop_first(),
        ),
        constants_len(constants) == constant_len(constants[0]) + constants_len(
            constants.drop_first(),
        ),
        constants_len(constants.drop_first()) >= 0,
    decreases constants.len(),
{
    lemma_constants_len_prefix(constants.drop_first(), 0);
    if constants.len() == 1 {
        assert(constants.drop_last() =~= Seq::<ConstantModel>::empty());
        assert(constants.drop_first() =~= Seq::<ConstantModel>::empty());
        assert(constants_bytes(constants) =~= constant_bytes(constants[0]) + constants_bytes(
            constants.drop_first(),
        ));
    } else {
        lemma_constants_front(constants.drop_last());
        assert(constants.drop_last().drop_first() =~= constants.drop_first().drop_last());
        assert(constants.drop_last()[0] == constants[0]);
        assert(constants.drop_first().last() == constants.last());
        assert(constants_bytes(constants) =~= constant_bytes(constants[0]) + constants_bytes(
            constants.drop_first(),
        ));
    }
}

/// The machine reads a constant that the generator wrote.
pub proof fn lemma_constant_reads(bytes: Seq<u8>, at: int, c: ConstantModel)
    requires
        0 <= at,
        at + constant_len(c) <= bytes.len(),
        constant_len(c) <= u32::MAX,
        bytes.subrange(at, at + constant_len(c)) == constant_bytes(c),
    ensures
        spec_constant(bytes, at) == Some((loaded_constant(c), at + constant_len(c))),
{
    let region = bytes.subrange(at, at + constant_len(c));
    assert(bytes[at] == region[0]);
    match c {
        ConstantModel::Number(number) => {
            lemma_i64_roundtrip(number as i64);
            assert(bytes.subrange(at + 1, at + 9) =~= region.subrange(1, 9));
            assert(region.subrange(1, 9) =~= spec_i64_be(number as i64));
        },
        ConstantModel::String(text) => {
            let encoded = encode_utf8(text);
            let len = encoded.len() as u32;
            assert(bytes.subrange(at + 1, at + 5) =~= region.subrange(1, 5));
            assert(region.subrange(1, 5) =~= spec_u32_be(len));
            lemma_word_reads(bytes, at + 1, len);
            assert(spec_window(bytes, at + 5, len as nat) =~= encoded) by {
                assert(bytes.subrange(at + 5, at + 5 + len) =~= region.subrange(5, 5 + len));
                assert(region.subrange(5, 5 + len) =~= encoded);
            }
            encode_utf8_valid_utf8(text);
            encode_utf8_decode_utf8(text);
        },
    }
}

/// The machine reads the constants that the generator wrote.
pub proof fn lemma_constants_read(bytes: Seq<u8>, at: int, constants: Seq<ConstantModel>)
    requires
        0 <= at,
        at + constants_len(constants) <= bytes.len(),
        constants_len(constants) <= u32::MAX,
        bytes.subrange(at, at + constants_len(constants)) == constants_bytes(constants),
    ensures
        spec_constants(bytes, at, constants.len()) == Some(loaded_constants(constants)),
    decreases constants.len(),
{
    if constants.len() == 0 {
        assert(loaded_constants(constants) =~= Seq::<ConstantView>::empty());
    } else {
        lemma_constants_front(constants);
        let first = constants[0];
        let rest = constants.drop_first();
        let region = bytes.subrange(at, at + constants_len(constants));
        assert(bytes.subrange(at, at + constant_len(first)) =~= region.subrange(
            0,
            constant_len(first),
        ));
        assert(region.subrange(0, constant_len(first)) =~= constant_bytes(first)) by {
            lemma_constant_bytes_len(first);
        }
        lemma_constant_bytes_len(first);
        lemma_constant_reads(bytes, at, first);
        let next = at + constant_len(first);
        assert(bytes.subrange(next, next + constants_len(rest)) =~= region.subrange(
            constant_len(first),
            constants_len(constants),
        ));
        assert(region.subrange(constant_len(first), constants_len(constants)) =~= constants_bytes(
            rest,
        )) by {
            crate::compiler::bytecode::lemma_constants_bytes_len(rest);
        }
        lemma_constants_read(bytes, next, rest);
        assert(seq![loaded_constant(first)] + loaded_constants(rest) =~= loaded_constants(
            constants,
        ));
    }
}

/// A constant takes as many bytes as its length says.
pub proof fn lemma_constant_bytes_len(c: ConstantModel)
    ensures
        constant_bytes(c).len() == constant_len(c),
        constant_len(c) >= 5,
{
}

/// The bytes of a thunk table are the bytes of its first entry and then the
/// bytes of the others.
pub proof fn lemma_thunks_front(thunks: Seq<ThunkModel>)
    requires
        thunks.len() > 0,
    ensures
        thunks_bytes(thunks) == spec_u32_be(thunks[0].offset) + thunks_bytes(thunks.drop_first()),
    decreases thunks.len(),
{
    if thunks.len() == 1 {
        assert(thunks.drop_last() =~= Seq::<ThunkModel>::empty());
        assert(thunks.drop_first() =~= Seq::<ThunkModel>::empty());
        assert(thunks_bytes(thunks) =~= spec_u32_be(thunks[0].offset) + thunks_bytes(
            thunks.drop_first(),
        ));
    } else {
        lemma_thunks_front(thunks.drop_last());
        assert(thunks.drop_last().drop_first() =~= thunks.drop_first().drop_last());
        assert(thunks.drop_last()[0] == thunks[0]);
        assert(thunks.drop_first().last() == thunks.last());
        assert(thunks_bytes(thunks) =~= spec_u32_be(thunks[0].offset) + thunks_bytes(
            thunks.drop_first(),
        ));
    }
}

/// The machine reads the thunk table that the generator wrote, and turns
/// each number of an instruction into the byte at which the instruction
/// stands.
pub proof fn lemma_thunks_read(bytes: Seq<u8>, at: int, thunks: Seq<ThunkModel>, code_offset: u32)
    requires
        0 <= at,
        at + 4 * thunks.len() <= bytes.len(),
        bytes.subrange(at, at + 4 * thunks.len()) == thunks_bytes(thunks),
        forall|i: int|
            0 <= i < thunks.len() ==> (#[trigger] thunks[i]).offset * 4 + code_offset <= u32::MAX,
    ensures
        spec_thunks(bytes, at, thunks.len(), code_offset) == Some(
            thunk_starts(thunks, code_offset),
        ),
    decreases thunks.len(),
{
    if thunks.len() == 0 {
        assert(thunk_starts(thunks, code_offset) =~= Seq::<u32>::empty());
    } else {
        lemma_thunks_front(thunks);
        lemma_thunks_bytes_len(thunks);
        lemma_thunks_bytes_len(thunks.drop_first());
        let rest = thunks.drop_first();
        let region = bytes.subrange(at, at + 4 * thunks.len());
        assert(bytes.subrange(at, at + 4) =~= region.subrange(0, 4));
        assert(region.subrange(0, 4) =~= spec_u32_be(thunks[0].offset));
        lemma_word_reads(bytes, at, thunks[0].offset);
        assert(bytes.subrange(at + 4, at + 4 + 4 * rest.len()) =~= region.subrange(
            4,
            4 * thunks.len() as int,
        ));
        assert(region.subrange(4, 4 * thunks.len() as int) =~= thunks_bytes(rest));
        assert forall|i: int| 0 <= i < rest.len() implies (#[trigger] rest[i]).offset * 4
            + code_offset <= u32::MAX by {
            assert(rest[i] == thunks[i + 1]);
        }
        lemma_thunks_read(bytes, at + 4, rest, code_offset);
        assert(spec_thunk_start(thunks[0].offset, code_offset) == Some(
            (thunks[0].offset * 4 + code_offset) as u32,
        ));
        assert(seq![(thunks[0].offset * 4 + code_offset) as u32] + thunk_starts(rest, code_offset)
            =~= thunk_starts(thunks, code_offset));
    }
}

/// The machine loads every program of the generator: it reads the header as
/// it was written, the constants in the order of their numbers, each as the
/// value that was interned, and for each thunk the byte at which its code
/// starts.
pub proof fn lemma_program_loads(g: GenModel)
    requires
        g.wf(),
        g.fits(),
    ensures
        spec_load(g.binary()) == Some(
            (
                written_metadata(g),
                loaded_constants(g.constants),
                thunk_starts(g.thunks, g.code_offset() as u32),
            ),
        ),
{
    lemma_constants_len_prefix(g.constants, 0);
    lemma_binary_layout(g);
    lemma_header_reads(g);
    lemma_thunks_bytes_len(g.thunks);
    let b = g.binary();
    lemma_constants_read(b, METADATA_BYTES as int, g.constants);
    lemma_thunks_read(b, g.thunk_offset(), g.thunks, g.code_offset() as u32);
}

/// In the machine that has loaded a program of the generator, every
/// constant of the generator stands under its number, as the value that was
/// interned; the numbers below the first and above the last name none.
pub proof fn lemma_constants_keep_their_numbers(g: GenModel, number: usize)
    requires
        g.wf(),
        g.fits(),
    ensures
        spec_load(g.binary()) matches Some((_, consts, _)) && (spec_numbered(consts).contains_key(
            number,
        ) <==> 1 <= number <= g.constants.len()) && (1 <= number <= g.constants.len()
            ==> spec_numbered(consts)[number] == loaded_constant(g.constants[number - 1])),
{
    lemma_program_loads(g);
}

} // verus!

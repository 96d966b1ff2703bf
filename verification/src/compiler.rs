//! The compiler: from source text to tokens, from tokens to a syntax tree,
//! and from the tree to a binary program.

pub mod ast;
pub mod bytecode;
pub mod error;
pub mod grammar;
pub mod lexer;
pub mod optimization;
pub mod parser;
pub mod token;

use vstd::prelude::*;
use crate::compiler::bytecode::load_global::{
    native_globals,
    spec_lexer,
    spec_native_globals,
};
use crate::compiler::bytecode::model::spec_get_binary;
use crate::compiler::bytecode::{BytecodeGen, GenModel};
use crate::compiler::error::{CompilationError, GenerationErrorKind};
use crate::compiler::grammar::spec_parse;
use crate::compiler::lexer::Lexer;
use crate::compiler::optimization::{optimization, spec_optimize};
use crate::compiler::parser::parse;
use crate::vm::utils::spec_u32_be;

verus! {

/// Whether `bytes` is the binary program of a generator that is consistent,
/// whose code is valid, and whose lengths fit 32 bits.
pub open spec fn is_program(bytes: Seq<u8>) -> bool {
    exists|g: GenModel|
        g.ok() && g.fits() && g.names_interned() && g.ins_count > 0 && #[trigger] g.binary()
            == bytes
}

/// Why a source text did not compile, without the message.
pub enum CompilationErrorKind {
    ParseError,
    BytecodeGenerationError(GenerationErrorKind),
}

/// The generator that a compilation starts with: it holds the native
/// functions and nothing else.
pub open spec fn spec_first_generator() -> GenModel {
    GenModel {
        global_functions: spec_native_globals(),
        ..BytecodeGen::new_model()
    }
}

/// The binary program of a source text: the text is split into tokens, the
/// tokens are parsed, the arithmetic on numbers is folded, and the code is
/// generated, with the native functions as the functions that the program
/// may call.
pub open spec fn spec_compile(src: Seq<char>) -> Result<Seq<u8>, CompilationErrorKind> {
    match spec_parse(spec_lexer(src).tokens()) {
        Err(_) => Err(CompilationErrorKind::ParseError),
        Ok(ast) => match spec_get_binary(spec_first_generator(), spec_optimize(ast)).1 {
            Ok(bytes) => Ok(bytes),
            Err(k) => Err(CompilationErrorKind::BytecodeGenerationError(k)),
        },
    }
}

/// What a compilation gave, without the message of an error.
pub open spec fn compiled_view(r: Result<Vec<u8>, CompilationError>) -> Result<
    Seq<u8>,
    CompilationErrorKind,
> {
    match r {
        Ok(bytes) => Ok(bytes@),
        Err(CompilationError::ParseError(_)) => Err(CompilationErrorKind::ParseError),
        Err(CompilationError::BytecodeGenerationError(e)) => Err(
            CompilationErrorKind::BytecodeGenerationError(e.spec_kind()),
        ),
        Err(CompilationError::IOError { .. }) => Err(CompilationErrorKind::ParseError),
    }
}

/// Compiles a source text to a binary program. The program may call the
/// native functions. A text that cannot be parsed, and a syntax tree that no
/// code can be generated for, give an error and no program.
pub fn compile(src: String) -> (r: Result<Vec<u8>, CompilationError>)
    ensures
        compiled_view(r) == spec_compile(src@),
        !(r matches Err(CompilationError::IOError { .. })),
        r matches Ok(bytes) ==> is_program(bytes@) && bytes@.len() >= 52 && bytes@.subrange(
            bytes@.len() - 4,
            bytes@.len() as int,
        ) == spec_u32_be(bytes@.len() as u32),
{
    let mut lexer = Lexer::new_from_str(src.as_str());
    let mut ast = match parse(&mut lexer) {
        Ok(ast) => ast,
        Err(err) => {
            return Err(CompilationError::ParseError(err));
        },
    };
    let mut bytecode_genaration = BytecodeGen::new().with_global_func(native_globals());
    optimization(&mut ast);
    proof {
        crate::compiler::bytecode::lemma_tables_grow(
            BytecodeGen::new_model(),
            bytecode_genaration@,
        );
        assert(bytecode_genaration@ == spec_first_generator());
    }
    match bytecode_genaration.get_binary(ast) {
        Ok(bytes) => {
            proof {
                crate::compiler::bytecode::lemma_constants_len_prefix(
                    bytecode_genaration@.constants,
                    0,
                );
                assert(bytecode_genaration@.binary() == bytes@);
            }
            Ok(bytes)
        },
        Err(err) => Err(CompilationError::BytecodeGenerationError(err)),
    }
}

} // verus!

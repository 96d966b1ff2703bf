use vstd::prelude::*;

verus! {

/// Where an error was found: the line and the column.
pub type LocationError = (u32, u32);

#[derive(Debug, PartialEq)]
pub struct ParseError {
    pub error: String,
    pub location: LocationError,
}

#[derive(Debug, PartialEq)]
pub struct LexicalError {
    pub error: String,
    pub location: (i32, i32),
}

/// Why a source text did not compile.
#[derive(Debug)]
pub enum CompilationError {
    IOError { message: String },
    ParseError(ParseError),
    BytecodeGenerationError(BytecodeGenerationError),
}

/// Why no bytecode could be generated for a syntax tree. Each of these ends
/// the compilation.
#[derive(Debug)]
pub enum BytecodeGenerationError {
    /// The tree has a shape that the generator has no code for, or the
    /// program needs more than the instruction format can address.
    UnexpectExpr { message: String },
    /// A variable is used that no parameter binds.
    NotFoundVariable {  },
    /// A function is called that the global functions do not hold.
    NotFoundFunction {  },
}

/// The class of a generation error, without its message.
#[derive(Debug, Clone, Copy, PartialEq, Eq)]
pub enum GenerationErrorKind {
    UnexpectExpr,
    NotFoundVariable,
    NotFoundFunction,
}

impl BytecodeGenerationError {
    pub open spec fn spec_kind(self) -> GenerationErrorKind {
        match self {
            BytecodeGenerationError::UnexpectExpr { .. } => GenerationErrorKind::UnexpectExpr,
            BytecodeGenerationError::NotFoundVariable {  } => GenerationErrorKind::NotFoundVariable,
            BytecodeGenerationError::NotFoundFunction {  } => GenerationErrorKind::NotFoundFunction,
        }
    }

    /// The message of the error; the classes without one have the empty
    /// text.
    pub open spec fn spec_message(self) -> Seq<char> {
        match self {
            BytecodeGenerationError::UnexpectExpr { message } => message@,
            BytecodeGenerationError::NotFoundVariable {  } => Seq::empty(),
            BytecodeGenerationError::NotFoundFunction {  } => Seq::empty(),
        }
    }

    pub fn kind(&self) -> (r: GenerationErrorKind)
        ensures
            r == self.spec_kind(),
    {
        match self {
            BytecodeGenerationError::UnexpectExpr { .. } => GenerationErrorKind::UnexpectExpr,
            BytecodeGenerationError::NotFoundVariable {  } => GenerationErrorKind::NotFoundVariable,
            BytecodeGenerationError::NotFoundFunction {  } => GenerationErrorKind::NotFoundFunction,
        }
    }
}

} // verus!

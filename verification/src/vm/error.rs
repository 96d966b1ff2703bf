use vstd::prelude::*;

verus! {

/// What can go wrong while a program is loaded or run. Each failure ends the
/// operation that met it.
#[derive(Debug)]
pub enum VmError {
    /// A value did not have the type that was asked for.
    ValueTypeMismatch { message: String },
    /// A read, a decode or a lookup failed.
    UnexpectedError { message: String },
    /// An instruction could not be carried out on its operands.
    InstructionExecution { message: String },
    /// A call named a function that the program does not hold.
    NotFoundFunction { message: String },
}

/// The class of an error, without its message.
#[derive(Debug, Clone, Copy, PartialEq, Eq)]
pub enum VmErrorKind {
    ValueTypeMismatch,
    UnexpectedError,
    InstructionExecution,
    NotFoundFunction,
}

impl VmError {
    pub open spec fn spec_kind(self) -> VmErrorKind {
        match self {
            VmError::ValueTypeMismatch { .. } => VmErrorKind::ValueTypeMismatch,
            VmError::UnexpectedError { .. } => VmErrorKind::UnexpectedError,
            VmError::InstructionExecution { .. } => VmErrorKind::InstructionExecution,
            VmError::NotFoundFunction { .. } => VmErrorKind::NotFoundFunction,
        }
    }

    pub open spec fn spec_message(self) -> Seq<char> {
        match self {
            VmError::ValueTypeMismatch { message } => message@,
            VmError::UnexpectedError { message } => message@,
            VmError::InstructionExecution { message } => message@,
            VmError::NotFoundFunction { message } => message@,
        }
    }

    pub fn kind(&self) -> (r: VmErrorKind)
        ensures
            r == self.spec_kind(),
    {
        match self {
            VmError::ValueTypeMismatch { .. } => VmErrorKind::ValueTypeMismatch,
            VmError::UnexpectedError { .. } => VmErrorKind::UnexpectedError,
            VmError::InstructionExecution { .. } => VmErrorKind::InstructionExecution,
            VmError::NotFoundFunction { .. } => VmErrorKind::NotFoundFunction,
        }
    }

    /// The error as text: its class in square brackets, then its message.
    pub fn to_string(&self) -> (r: String)
        ensures
            r@ == match *self {
                VmError::ValueTypeMismatch { message } => "[ValueTypeMismatch] "@ + message@,
                VmError::UnexpectedError { message } => "[UnexpectedError] "@ + message@,
                VmError::InstructionExecution { message } => "[InstructionExecution] "@
                    + message@,
                VmError::NotFoundFunction { message } => "[NotFoundFunction] "@ + message@,
            },
    {
        match self {
            VmError::ValueTypeMismatch { message } => String::from_str(
                "[ValueTypeMismatch] ",
            ).concat(message.as_str()),
            VmError::UnexpectedError { message } => String::from_str("[UnexpectedError] ").concat(
                message.as_str(),
            ),
            VmError::InstructionExecution { message } => String::from_str(
                "[InstructionExecution] ",
            ).concat(message.as_str()),
            VmError::NotFoundFunction { message } => String::from_str(
                "[NotFoundFunction] ",
            ).concat(message.as_str()),
        }
    }
}

} // verus!

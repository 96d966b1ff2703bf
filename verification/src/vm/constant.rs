use vstd::prelude::*;
use crate::vm::error::{VmError, VmErrorKind};
use crate::vm::utils::i64_to_text;
use crate::vm::utils::spec_i64_text;
use crate::vm::value::{Value, ValueView};

verus! {

/// An entry of the constant pool.
#[derive(Debug)]
pub enum ConstantValue {
    Int(i64),
    String(String),
}

/// What a constant holds, as a mathematical value.
pub enum ConstantView {
    Int(i64),
    String(Seq<char>),
}

impl View for ConstantValue {
    type V = ConstantView;

    open spec fn view(&self) -> ConstantView {
        match *self {
            ConstantValue::Int(number) => ConstantView::Int(number),
            ConstantValue::String(text) => ConstantView::String(text@),
        }
    }
}

impl ConstantView {
    /// The value that loading the constant puts into a register.
    pub open spec fn to_value(self) -> ValueView {
        match self {
            ConstantView::Int(number) => ValueView::Int(number),
            ConstantView::String(text) => ValueView::String(text),
        }
    }
}

impl ConstantValue {
    /// The value that loading the constant puts into a register.
    pub fn to_value(&self) -> (r: Value)
        ensures
            r@ == self@.to_value(),
    {
        match self {
            ConstantValue::Int(number) => Value::Int(*number),
            ConstantValue::String(text) => Value::String(text.clone()),
        }
    }

    /// The text of a string constant; a number is an error.
    pub fn to_string(&self) -> (r: Result<String, VmError>)
        ensures
            match *self {
                ConstantValue::String(text) => r matches Ok(copy) && copy@ == text@,
                ConstantValue::Int(_) => r matches Err(e) && e.spec_kind()
                    == VmErrorKind::UnexpectedError && e.spec_message() == "constant not string"@,
            },
    {
        match self {
            ConstantValue::String(text) => Ok(text.clone()),
            _ => Err(
                VmError::UnexpectedError { message: String::from_str("constant not string") },
            ),
        }
    }

    /// The constant as text: a number in decimal, a string as it is.
    pub fn fmt(&self) -> (r: String)
        ensures
            r@ == match self@ {
                ConstantView::Int(number) => spec_i64_text(number),
                ConstantView::String(text) => text,
            },
    {
        match self {
            ConstantValue::Int(number) => i64_to_text(*number),
            ConstantValue::String(text) => text.clone(),
        }
    }
}

impl Clone for ConstantValue {
    fn clone(&self) -> (r: Self)
        ensures
            r@ == self@,
    {
        match self {
            ConstantValue::Int(number) => ConstantValue::Int(*number),
            ConstantValue::String(text) => ConstantValue::String(text.clone()),
        }
    }
}

} // verus!

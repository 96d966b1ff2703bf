use vstd::prelude::*;
use crate::vm::utils::str_equal;

verus! {

/// A literal of the program, kept once in the constant pool.
#[derive(Debug, PartialEq, Eq)]
pub enum Constant {
    Number(i32),
    String(String),
}

/// What a constant holds, as a mathematical value.
pub enum ConstantModel {
    Number(i32),
    String(Seq<char>),
}

impl View for Constant {
    type V = ConstantModel;

    open spec fn view(&self) -> ConstantModel {
        match *self {
            Constant::Number(number) => ConstantModel::Number(number),
            Constant::String(text) => ConstantModel::String(text@),
        }
    }
}

impl Constant {
    /// Whether two constants hold the same literal.
    pub fn same(&self, other: &Constant) -> (r: bool)
        ensures
            r == (self@ == other@),
    {
        match (self, other) {
            (Constant::Number(a), Constant::Number(b)) => *a == *b,
            (Constant::String(a), Constant::String(b)) => str_equal(a.as_str(), b.as_str()),
            _ => false,
        }
    }
}

impl Clone for Constant {
    fn clone(&self) -> (r: Self)
        ensures
            r@ == self@,
    {
        match self {
            Constant::Number(number) => Constant::Number(*number),
            Constant::String(text) => Constant::String(text.clone()),
        }
    }
}

} // verus!

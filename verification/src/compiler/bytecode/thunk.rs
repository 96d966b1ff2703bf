use vstd::prelude::*;
use crate::compiler::ast::{Expr, ExprView};

verus! {

/// A table or a list whose code is generated after the expression that holds
/// it: the expression, and the number of the instruction at which its code
/// starts (0 until the code is generated).
pub struct Thunk {
    pub expr: Expr,
    pub offset: u32,
}

/// What a thunk holds, as a mathematical value.
pub struct ThunkModel {
    pub expr: ExprView,
    pub offset: u32,
}

impl View for Thunk {
    type V = ThunkModel;

    open spec fn view(&self) -> ThunkModel {
        ThunkModel { expr: self.expr@, offset: self.offset }
    }
}

impl Clone for Thunk {
    fn clone(&self) -> (r: Self)
        ensures
            r@ == self@,
    {
        Thunk { expr: self.expr.clone(), offset: self.offset }
    }
}

} // verus!

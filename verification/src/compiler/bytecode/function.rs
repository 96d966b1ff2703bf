use vstd::prelude::*;
use crate::compiler::ast::{copy_names, names_view, Expr, ExprView};

verus! {

/// A function of the program: its parameters, its body, and the number of
/// the instruction at which its code starts (0 until the code is generated).
#[derive(Debug)]
pub struct Function {
    pub offset: u32,
    pub params: Vec<String>,
    pub body: Box<Expr>,
}

/// What a function holds, as a mathematical value.
pub struct FunctionModel {
    pub offset: u32,
    pub params: Seq<Seq<char>>,
    pub body: ExprView,
}

impl View for Function {
    type V = FunctionModel;

    open spec fn view(&self) -> FunctionModel {
        FunctionModel { offset: self.offset, params: names_view(self.params@), body: self.body@ }
    }
}

impl Function {
    /// The function that a lambda expression declares, with its code not yet
    /// placed. Any other expression declares none.
    pub fn from_epxr(expr: Expr) -> (r: Option<Self>)
        ensures
            match expr@ {
                ExprView::FunctionDeclare { params, body } => r matches Some(f) && f@
                    == (FunctionModel { offset: 0, params, body: *body }),
                _ => r is None,
            },
    {
        if let Expr::FunctionDeclare { params, body } = expr {
            Some(Function { offset: 0, params, body })
        } else {
            None
        }
    }
}

impl Clone for Function {
    fn clone(&self) -> (r: Self)
        ensures
            r@ == self@,
    {
        Function {
            offset: self.offset,
            params: copy_names(&self.params),
            body: Box::new((*self.body).clone()),
        }
    }
}

} // verus!

//! Constant folding: arithmetic on numbers is computed at compile time.

use vstd::prelude::*;
use crate::compiler::ast::{fields_view, Expr, ExprView, Operator};

verus! {

/// The result of an arithmetic operator on two numbers; there is none where
/// it does not fit 32 bits or the divisor is zero. Division cuts towards
/// zero.
pub open spec fn spec_fold_binary(op: Operator, lhs: i32, rhs: i32) -> Option<i32> {
    match op {
        Operator::Add => lhs.checked_add(rhs),
        Operator::Sub => lhs.checked_sub(rhs),
        Operator::Mul => lhs.checked_mul(rhs),
        Operator::Div => lhs.checked_div(rhs),
    }
}

/// The value of an expression that is made of numbers, signs and arithmetic
/// alone. Any other expression has none, and so has one whose value does not
/// fit 32 bits or that divides by zero.
pub open spec fn spec_calculate(expr: ExprView) -> Option<i32>
    decreases expr,
{
    match expr {
        ExprView::Number(number) => Some(number),
        ExprView::Unary { op, rhs } => match spec_calculate(*rhs) {
            Some(value) => match op {
                Operator::Sub => 0i32.checked_sub(value),
                _ => Some(value),
            },
            None => None,
        },
        ExprView::Binary { op, lhs, rhs } => match (spec_calculate(*lhs), spec_calculate(*rhs)) {
            (Some(a), Some(b)) => spec_fold_binary(op, a, b),
            _ => None,
        },
        _ => None,
    }
}

/// The fields of a table with each value folded.
pub open spec fn spec_optimize_fields(fields: Seq<(Seq<char>, ExprView)>) -> Seq<
    (Seq<char>, ExprView),
>
    decreases fields, 1nat,
{
    Seq::new(
        fields.len(),
        |i: int|
            if 0 <= i < fields.len() {
                (fields[i].0, spec_optimize(fields[i].1))
            } else {
                (Seq::empty(), ExprView::Boolean(false))
            },
    )
}

/// An expression after folding: an arithmetic expression that has a value
/// is the number; the values of the fields of a table are folded, and so on
/// through tables within tables; anything else stays as it is.
pub open spec fn spec_optimize(expr: ExprView) -> ExprView
    decreases expr, 0nat,
{
    match expr {
        ExprView::Table { fields } => ExprView::Table { fields: spec_optimize_fields(fields) },
        ExprView::Binary { .. } => match spec_calculate(expr) {
            Some(value) => ExprView::Number(value),
            None => expr,
        },
        _ => expr,
    }
}

/// Folds the arithmetic of an expression and of the fields of its tables.
pub fn optimization(ast: &mut Expr)
    ensures
        final(ast)@ == spec_optimize(old(ast)@),
    decreases *old(ast),
{
    let folded = match ast {
        Expr::Binary { .. } => calculate_expr(ast),
        _ => None,
    };
    match folded {
        Some(value) => {
            *ast = Expr::Number(value);
        },
        None => {
            match ast {
                Expr::Table { fields } => {
                    let ghost before = *fields;
                    let mut i: usize = 0;
                    while i < fields.len()
                        invariant
                            i <= fields@.len(),
                            fields@.len() == before@.len(),
                            *old(ast) == (Expr::Table { fields: before }),
                            forall|j: int|
                                0 <= j < i ==> (#[trigger] fields@[j]).0@ == before@[j].0@
                                    && fields@[j].1@ == spec_optimize(before@[j].1@),
                            forall|j: int| i <= j < fields@.len() ==> fields@[j] == before@[j],
                        decreases fields@.len() - i,
                    {
                        proof {
                            vstd::std_specs::vec::axiom_vec_index_decreases(before, i as int);
                            assert(decreases_to!(*old(ast) => old(ast)->Table_fields));
                            assert(decreases_to!(before[i as int] => before[i as int].1));
                        }
                        let ghost current = *fields;
                        let slot = &mut fields[i];
                        optimization(&mut slot.1);
                        i += 1;
                    }
                    proof {
                        assert(fields_view(fields@) =~= spec_optimize_fields(fields_view(before@)));
                    }
                },
                _ => {},
            }
        },
    }
}

/// The value of an expression that is made of numbers, signs and arithmetic
/// alone.
pub fn calculate_expr(ast: &Expr) -> (r: Option<i32>)
    ensures
        r == spec_calculate(ast@),
    decreases ast,
{
    match ast {
        Expr::Number(num) => Some(*num),
        Expr::Unary { op, rhs } => {
            match calculate_expr(rhs) {
                Some(rhs_num) => match op {
                    Operator::Sub => 0i32.checked_sub(rhs_num),
                    _ => Some(rhs_num),
                },
                None => None,
            }
        },
        Expr::Binary { op, lhs, rhs } => {
            let lhs_num = calculate_expr(lhs);
            let rhs_num = calculate_expr(rhs);
            match (lhs_num, rhs_num) {
                (Some(a), Some(b)) => match op {
                    Operator::Add => a.checked_add(b),
                    Operator::Sub => a.checked_sub(b),
                    Operator::Mul => a.checked_mul(b),
                    Operator::Div => a.checked_div(b),
                },
                _ => None,
            }
        },
        _ => None,
    }
}

} // verus!

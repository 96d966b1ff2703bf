use vstd::prelude::*;

verus! {

/// A name in the source.
pub type Indentifier = String;

/// An expression of the language. The fields of a table stand in the order in
/// which the source gives them, each name once.
#[derive(Debug, PartialEq)]
pub enum Expr {
    Unary { op: Operator, rhs: Box<Expr> },
    Binary { op: Operator, lhs: Box<Expr>, rhs: Box<Expr> },
    Number(i32),
    LiteralString(String),
    Boolean(bool),
    Table { fields: Vec<(Indentifier, Expr)> },
    List { items: Vec<Expr> },
    LetIn { let_part: Vec<(Indentifier, Expr)>, in_part: Vec<(Indentifier, Expr)> },
    FunctionDeclare { params: Vec<String>, body: Box<Expr> },
    FunctionCall { name: String, args: Vec<Expr> },
    Var(String),
}

#[derive(Debug, Clone, Copy, PartialEq, Eq)]
pub enum Operator {
    Add,
    Sub,
    Div,
    Mul,
}

/// What an expression says, as a mathematical value.
pub enum ExprView {
    Unary { op: Operator, rhs: Box<ExprView> },
    Binary { op: Operator, lhs: Box<ExprView>, rhs: Box<ExprView> },
    Number(i32),
    LiteralString(Seq<char>),
    Boolean(bool),
    Table { fields: Seq<(Seq<char>, ExprView)> },
    List { items: Seq<ExprView> },
    LetIn { let_part: Seq<(Seq<char>, ExprView)>, in_part: Seq<(Seq<char>, ExprView)> },
    FunctionDeclare { params: Seq<Seq<char>>, body: Box<ExprView> },
    FunctionCall { name: Seq<char>, args: Seq<ExprView> },
    Var(Seq<char>),
}

/// What each of a run of names says.
pub open spec fn names_view(names: Seq<String>) -> Seq<Seq<char>> {
    Seq::new(names.len(), |i: int| names[i]@)
}

/// What each of a run of expressions says.
pub open spec fn exprs_view(items: Seq<Expr>) -> Seq<ExprView>
    decreases items, 1nat,
{
    Seq::new(
        items.len(),
        |i: int|
            if 0 <= i < items.len() {
                expr_view(items[i])
            } else {
                ExprView::Boolean(false)
            },
    )
}

/// What each of a run of named expressions says.
pub open spec fn fields_view(fields: Seq<(Indentifier, Expr)>) -> Seq<(Seq<char>, ExprView)>
    decreases fields, 1nat,
{
    Seq::new(
        fields.len(),
        |i: int|
            if 0 <= i < fields.len() {
                (fields[i].0@, expr_view(fields[i].1))
            } else {
                (Seq::empty(), ExprView::Boolean(false))
            },
    )
}

/// What an expression says.
pub open spec fn expr_view(expr: Expr) -> ExprView
    decreases expr, 0nat,
{
    match expr {
        Expr::Unary { op, rhs } => ExprView::Unary { op, rhs: Box::new(expr_view(*rhs)) },
        Expr::Binary { op, lhs, rhs } => ExprView::Binary {
            op,
            lhs: Box::new(expr_view(*lhs)),
            rhs: Box::new(expr_view(*rhs)),
        },
        Expr::Number(number) => ExprView::Number(number),
        Expr::LiteralString(text) => ExprView::LiteralString(text@),
        Expr::Boolean(flag) => ExprView::Boolean(flag),
        Expr::Table { fields } => ExprView::Table { fields: fields_view(fields@) },
        Expr::List { items } => ExprView::List { items: exprs_view(items@) },
        Expr::LetIn { let_part, in_part } => ExprView::LetIn {
            let_part: fields_view(let_part@),
            in_part: fields_view(in_part@),
        },
        Expr::FunctionDeclare { params, body } => ExprView::FunctionDeclare {
            params: names_view(params@),
            body: Box::new(expr_view(*body)),
        },
        Expr::FunctionCall { name, args } => ExprView::FunctionCall {
            name: name@,
            args: exprs_view(args@),
        },
        Expr::Var(name) => ExprView::Var(name@),
    }
}

impl View for Expr {
    type V = ExprView;

    open spec fn view(&self) -> ExprView {
        expr_view(*self)
    }
}

/// A copy of a run of names.
pub fn copy_names(names: &Vec<String>) -> (r: Vec<String>)
    ensures
        names_view(r@) == names_view(names@),
{
    let mut out: Vec<String> = Vec::new();
    let mut i: usize = 0;
    while i < names.len()
        invariant
            i <= names@.len(),
            out@.len() == i,
            forall|j: int| 0 <= j < i ==> (#[trigger] out@[j])@ == names@[j]@,
        decreases names@.len() - i,
    {
        out.push(names[i].clone());
        i += 1;
    }
    assert(names_view(out@) =~= names_view(names@));
    out
}

/// A copy of a run of expressions.
pub fn copy_exprs(items: &Vec<Expr>) -> (r: Vec<Expr>)
    ensures
        exprs_view(r@) == exprs_view(items@),
    decreases items, 1nat,
{
    let mut out: Vec<Expr> = Vec::new();
    let mut i: usize = 0;
    while i < items.len()
        invariant
            i <= items@.len(),
            out@.len() == i,
            forall|j: int| 0 <= j < i ==> (#[trigger] out@[j])@ == items@[j]@,
        decreases items@.len() - i,
    {
        proof {
            vstd::std_specs::vec::axiom_vec_index_decreases(*items, i as int);
        }
        let item = copy_expr(&items[i]);
        out.push(item);
        i += 1;
    }
    assert(exprs_view(out@) =~= exprs_view(items@));
    out
}

/// A copy of a run of named expressions.
pub fn copy_fields(fields: &Vec<(Indentifier, Expr)>) -> (r: Vec<(Indentifier, Expr)>)
    ensures
        fields_view(r@) == fields_view(fields@),
    decreases fields, 1nat,
{
    let mut out: Vec<(Indentifier, Expr)> = Vec::new();
    let mut i: usize = 0;
    while i < fields.len()
        invariant
            i <= fields@.len(),
            out@.len() == i,
            forall|j: int|
                0 <= j < i ==> (#[trigger] out@[j]).0@ == fields@[j].0@ && out@[j].1@
                    == fields@[j].1@,
        decreases fields@.len() - i,
    {
        proof {
            vstd::std_specs::vec::axiom_vec_index_decreases(*fields, i as int);
            assert(decreases_to!(fields[i as int] => fields[i as int].1));
        }
        let key = fields[i].0.clone();
        let value = copy_expr(&fields[i].1);
        out.push((key, value));
        i += 1;
    }
    assert(fields_view(out@) =~= fields_view(fields@));
    out
}

/// A copy of an expression that shares nothing with it.
pub fn copy_expr(expr: &Expr) -> (r: Expr)
    ensures
        r@ == expr@,
    decreases expr, 0nat,
{
    match expr {
        Expr::Unary { op, rhs } => Expr::Unary { op: *op, rhs: Box::new(copy_expr(rhs)) },
        Expr::Binary { op, lhs, rhs } => Expr::Binary {
            op: *op,
            lhs: Box::new(copy_expr(lhs)),
            rhs: Box::new(copy_expr(rhs)),
        },
        Expr::Number(number) => Expr::Number(*number),
        Expr::LiteralString(text) => Expr::LiteralString(text.clone()),
        Expr::Boolean(flag) => Expr::Boolean(*flag),
        Expr::Table { fields } => Expr::Table { fields: copy_fields(fields) },
        Expr::List { items } => Expr::List { items: copy_exprs(items) },
        Expr::LetIn { let_part, in_part } => Expr::LetIn {
            let_part: copy_fields(let_part),
            in_part: copy_fields(in_part),
        },
        Expr::FunctionDeclare { params, body } => Expr::FunctionDeclare {
            params: copy_names(params),
            body: Box::new(copy_expr(body)),
        },
        Expr::FunctionCall { name, args } => Expr::FunctionCall {
            name: name.clone(),
            args: copy_exprs(args),
        },
        Expr::Var(name) => Expr::Var(name.clone()),
    }
}

impl Clone for Expr {
    /// A deep copy: the clone says what the expression says.
    fn clone(&self) -> (r: Self)
        ensures
            r@ == self@,
    {
        copy_expr(self)
    }
}

} // verus!

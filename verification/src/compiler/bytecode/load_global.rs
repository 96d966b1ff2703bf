use vstd::prelude::*;
use crate::compiler::ast::{fields_view, Expr, ExprView};
use crate::compiler::bytecode::function::{Function, FunctionModel};
use crate::compiler::bytecode::{keys_of, position};
use crate::compiler::grammar::spec_parse;
use crate::compiler::lexer::{LexModel, Lexer};
use crate::compiler::parser::parse;
use crate::vm::utils::str_equal;

verus! {

/// Named functions, as a mathematical value.
pub type FunctionsModel = Seq<(Seq<char>, FunctionModel)>;

/// What a run of named functions holds.
pub open spec fn functions_view(functions: Seq<(String, Function)>) -> FunctionsModel {
    functions.map_values(|e: (String, Function)| (e.0@, e.1@))
}

/// The functions after one was set: a name that is among them gets the new
/// function in its place, a new name comes after the others.
pub open spec fn spec_set_function(
    functions: FunctionsModel,
    name: Seq<char>,
    function: FunctionModel,
) -> FunctionsModel {
    let at = position(keys_of(functions), name, 0);
    if at < functions.len() {
        functions.update(at, (functions[at].0, function))
    } else {
        functions.push((name, function))
    }
}

/// The functions that the fields from place `i` on define, after those in
/// `found`: each field whose value is a lambda gives a function of the
/// field's name.
pub open spec fn spec_functions_of(
    fields: Seq<(Seq<char>, ExprView)>,
    i: int,
    found: FunctionsModel,
) -> FunctionsModel
    decreases fields.len() - i,
{
    if i < 0 || i >= fields.len() {
        found
    } else {
        match fields[i].1 {
            ExprView::FunctionDeclare { params, body } => spec_functions_of(
                fields,
                i + 1,
                spec_set_function(
                    found,
                    fields[i].0,
                    FunctionModel { offset: 0, params, body: *body },
                ),
            ),
            _ => spec_functions_of(fields, i + 1, found),
        }
    }
}

/// The functions that a table of lambdas defines. Any other expression
/// defines none.
pub open spec fn spec_global_functions(ast: ExprView) -> FunctionsModel {
    match ast {
        ExprView::Table { fields } => spec_functions_of(fields, 0, Seq::empty()),
        _ => Seq::empty(),
    }
}

/// The lexer at the start of a text.
pub open spec fn spec_lexer(text: Seq<char>) -> LexModel {
    LexModel { chars: text, cursor: 0, pos: 1, loc: 1, pending: Seq::empty() }
}

/// The functions that a source text defines, where the text can be parsed.
pub open spec fn spec_load_global(content: Seq<char>) -> Option<FunctionsModel> {
    match spec_parse(spec_lexer(content).tokens()) {
        Ok(ast) => Some(spec_global_functions(ast)),
        Err(_) => None,
    }
}

/// The text of the source of the functions that every program may call.
pub open spec fn spec_native_source() -> Seq<char> {
    "{\n    html = (content) => { type = \"html\"; html = content; };\n}\n"@
}

/// The functions that every program may call: those that the native source
/// defines.
pub open spec fn spec_native_globals() -> FunctionsModel {
    match spec_load_global(spec_native_source()) {
        Some(functions) => functions,
        None => Seq::empty(),
    }
}

/// The source of the functions that every program may call: `html` makes
/// the table that stands for a page.
pub fn native_source() -> (r: &'static str)
    ensures
        r@ == spec_native_source(),
{
    "{\n    html = (content) => { type = \"html\"; html = content; };\n}\n"
}

/// The functions that a table of lambdas defines: each field whose value is
/// a lambda gives a function of the field's name. Any other expression
/// defines none.
pub fn global_functions(ast: Expr) -> (r: Vec<(String, Function)>)
    ensures
        functions_view(r@) == spec_global_functions(ast@),
{
    let mut result: Vec<(String, Function)> = Vec::new();
    assert(functions_view(result@) =~= Seq::empty());
    if let Expr::Table { fields } = ast {
        let ghost all = fields_view(fields@);
        assert(ast@ == ExprView::Table { fields: all });
        let mut fields = fields;
        let ghost k: int = 0;
        assert(fields_view(fields@) =~= all.skip(0));
        while fields.len() > 0
            invariant
                0 <= k <= all.len(),
                fields_view(fields@) == all.skip(k),
                spec_functions_of(all, 0, Seq::empty()) == spec_functions_of(
                    all,
                    k,
                    functions_view(result@),
                ),
            decreases fields@.len(),
        {
            let ghost rest = fields_view(fields@);
            assert(rest.len() == fields@.len());
            assert(rest[0] == all[k]);
            assert(rest[0] == (fields@[0].0@, fields@[0].1@));
            let ghost before = fields@;
            let (key, value) = fields.remove(0);
            assert(fields_view(fields@) =~= all.skip(k + 1)) by {
                assert(fields@.len() == before.len() - 1);
                assert forall|j: int| 0 <= j < fields@.len() implies fields_view(fields@)[j]
                    == all.skip(k + 1)[j] by {
                    assert(fields@[j] == before[j + 1]);
                    assert(rest[j + 1] == (before[j + 1].0@, before[j + 1].1@));
                    assert(rest[j + 1] == all[k + j + 1]);
                }
            }
            let ghost found = functions_view(result@);
            if let Some(function) = Function::from_epxr(value) {
                let mut i: usize = 0;
                while i < result.len()
                    invariant
                        i <= result@.len(),
                        found == functions_view(result@),
                        position(keys_of(found), key@, 0) == position(
                            keys_of(found),
                            key@,
                            i as int,
                        ),
                    ensures
                        i <= result@.len(),
                        found == functions_view(result@),
                        i == position(keys_of(found), key@, 0),
                    decreases result@.len() - i,
                {
                    if str_equal(result[i].0.as_str(), key.as_str()) {
                        break ;
                    }
                    i += 1;
                }
                if i < result.len() {
                    let slot = &mut result[i];
                    slot.1 = function;
                    assert(functions_view(result@) =~= found.update(
                        i as int,
                        (found[i as int].0, function@),
                    ));
                } else {
                    result.push((key, function));
                    assert(functions_view(result@) =~= found.push((key@, function@)));
                }
            }
            proof {
                k = k + 1;
            }
        }
    }
    result
}

/// The functions that a source text defines. There are none to give where
/// the text cannot be parsed.
pub fn load_global_from(content: &str) -> (r: Option<Vec<(String, Function)>>)
    ensures
        match spec_load_global(content@) {
            Some(functions) => r matches Some(found) && functions_view(found@) == functions,
            None => r is None,
        },
{
    let mut lexer = Lexer::new_from_str(content);
    match parse(&mut lexer) {
        Ok(ast) => Some(global_functions(ast)),
        Err(_) => None,
    }
}

/// The functions that every program may call.
pub fn native_globals() -> (r: Vec<(String, Function)>)
    ensures
        functions_view(r@) == spec_native_globals(),
{
    match load_global_from(native_source()) {
        Some(functions) => functions,
        None => {
            let r: Vec<(String, Function)> = Vec::new();
            assert(functions_view(r@) =~= Seq::empty());
            r
        },
    }
}

} // verus!

//! What the generator does to its state for each kind of expression, as
//! mathematical functions from the state before to the state after and the
//! register of the result.

use vstd::prelude::*;
use crate::compiler::ast::{ExprView, Operator};
use crate::compiler::bytecode::constant::ConstantModel;
use crate::compiler::bytecode::function::FunctionModel;
use crate::compiler::bytecode::thunk::ThunkModel;
use crate::compiler::bytecode::{keys_of, position, GenModel, MAX_INSTRUCTIONS};
use crate::compiler::error::{BytecodeGenerationError, GenerationErrorKind};
use crate::instructions::{spec_encode, spec_word_bytes, OpCode, CONST_MASK};

verus! {

/// The state of the generator after a step, and the register of the step's
/// result or the class of the error that ended it.
pub type Outcome = (GenModel, Result<u8, GenerationErrorKind>);

/// The state of the generator after a step that gives no register, and
/// whether the step succeeded.
pub type Progress = (GenModel, Result<(), GenerationErrorKind>);

/// The result of a step without the message of its error.
pub open spec fn kind_of<T>(r: Result<T, BytecodeGenerationError>) -> Result<
    T,
    GenerationErrorKind,
> {
    match r {
        Ok(v) => Ok(v),
        Err(e) => Err(e.spec_kind()),
    }
}

/// The opcode of an arithmetic operator.
pub open spec fn spec_arithmetic_opcode(op: Operator) -> OpCode {
    match op {
        Operator::Add => OpCode::ADD,
        Operator::Sub => OpCode::SUB,
        Operator::Div => OpCode::DIV,
        Operator::Mul => OpCode::MUL,
    }
}

/// Takes the first free register; an error where none is free.
pub open spec fn spec_take(g: GenModel) -> Outcome {
    if g.first_free() < 16 {
        (
            GenModel { registers: g.registers.update(g.first_free(), true), ..g },
            Ok(g.first_free() as u8),
        )
    } else {
        (g, Err(GenerationErrorKind::UnexpectExpr))
    }
}

/// Frees a register.
pub open spec fn spec_release(g: GenModel, reg: u8) -> GenModel {
    GenModel { registers: g.registers.update(reg as int, false), ..g }
}

/// Appends an instruction; an error where the code is full.
pub open spec fn spec_emit(g: GenModel, op: OpCode, operands: Seq<u32>) -> Progress {
    if g.ins_count < MAX_INSTRUCTIONS {
        (g.emit(spec_word_bytes(spec_encode(op, operands))), Ok(()))
    } else {
        (g, Err(GenerationErrorKind::UnexpectExpr))
    }
}

/// Loads a constant into the first free register: the constant is looked up
/// or added, a register is taken, and the load is emitted.
pub open spec fn spec_load(g: GenModel, c: ConstantModel) -> Outcome {
    if !(position(g.constants, c, 0) < g.constants.len() || g.constants.len() < CONST_MASK) {
        (g, Err(GenerationErrorKind::UnexpectExpr))
    } else {
        let taken = spec_take(g.intern(c));
        match taken.1 {
            Ok(reg) => {
                let emitted = spec_emit(
                    taken.0,
                    OpCode::LOADCONST,
                    seq![reg as u32, g.const_number(c) as u32],
                );
                match emitted.1 {
                    Ok(_) => (emitted.0, Ok(reg)),
                    Err(k) => (emitted.0, Err(k)),
                }
            },
            Err(k) => (taken.0, Err(k)),
        }
    }
}

/// Defers a table or a list: a thunk is registered and bound to the first
/// free register.
pub open spec fn spec_defer(g: GenModel, expr: ExprView) -> Outcome {
    if g.can_defer() {
        (g.deferred(expr), Ok(g.first_free() as u8))
    } else {
        (g, Err(GenerationErrorKind::UnexpectExpr))
    }
}

/// Declares a lambda: a function is registered and bound to the first free
/// register.
pub open spec fn spec_declare(g: GenModel, params: Seq<Seq<char>>, body: ExprView) -> Outcome {
    if g.can_declare(params) {
        (g.declared(params, body), Ok(g.first_free() as u8))
    } else {
        (g, Err(GenerationErrorKind::UnexpectExpr))
    }
}

/// Registers a global function as in use, on its first call: it becomes a
/// function of the program, and its name is noted with the function's
/// number.
pub open spec fn spec_use_global(g: GenModel, name: Seq<char>, f: FunctionModel) -> Progress {
    if position(keys_of(g.used), name, 0) < g.used.len() {
        (g, Ok(()))
    } else if f.params.len() > u32::MAX || g.functions.len() >= CONST_MASK {
        (g, Err(GenerationErrorKind::UnexpectExpr))
    } else {
        (
            GenModel {
                functions: g.functions.push(
                    FunctionModel { offset: 0, params: f.params, body: f.body },
                ),
                used: g.used.push((name, (g.functions.len() + 1) as usize)),
                ..g
            },
            Ok(()),
        )
    }
}

/// The code of the arguments of a call from the argument at place `i` on:
/// each is computed and pushed, from left to right.
pub open spec fn spec_args(g: GenModel, args: Seq<ExprView>, i: int) -> Progress
    decreases args, args.len() - i,
{
    if i < 0 || i >= args.len() {
        (g, Ok(()))
    } else {
        let value = spec_visit(g, args[i], false);
        match value.1 {
            Ok(reg) => {
                let pushed = spec_emit(value.0, OpCode::PUSHARG, seq![reg as u32]);
                match pushed.1 {
                    Ok(_) => spec_args(spec_release(pushed.0, reg), args, i + 1),
                    Err(k) => (pushed.0, Err(k)),
                }
            },
            Err(k) => (value.0, Err(k)),
        }
    }
}

/// The code of a call: the callee is looked up among the global functions,
/// the number of arguments is checked, the callee is registered on its first
/// use, the arguments are pushed, the callee's name is loaded, and the call
/// is made.
pub open spec fn spec_call(g: GenModel, name: Seq<char>, args: Seq<ExprView>) -> Outcome
    decreases args, args.len() + 1,
{
    let at = position(keys_of(g.global_functions), name, 0);
    if at >= g.global_functions.len() {
        (g, Err(GenerationErrorKind::NotFoundFunction))
    } else {
        let function = g.global_functions[at].1;
        if args.len() != function.params.len() {
            (g, Err(GenerationErrorKind::UnexpectExpr))
        } else {
            let used = spec_use_global(g, name, function);
            match used.1 {
                Err(k) => (used.0, Err(k)),
                Ok(_) => {
                    let pushed = spec_args(used.0, args, 0);
                    match pushed.1 {
                        Err(k) => (pushed.0, Err(k)),
                        Ok(_) => {
                            let callee = spec_load(pushed.0, ConstantModel::String(name));
                            match callee.1 {
                                Err(k) => (callee.0, Err(k)),
                                Ok(reg_name) => {
                                    let result = spec_take(callee.0);
                                    match result.1 {
                                        Err(k) => (result.0, Err(k)),
                                        Ok(reg) => {
                                            let called = spec_emit(
                                                result.0,
                                                OpCode::CALL,
                                                seq![reg as u32, reg_name as u32],
                                            );
                                            match called.1 {
                                                Err(k) => (called.0, Err(k)),
                                                Ok(_) => (
                                                    spec_release(
                                                        spec_release(called.0, reg_name),
                                                        reg,
                                                    ),
                                                    Ok(reg),
                                                ),
                                            }
                                        },
                                    }
                                },
                            }
                        },
                    }
                },
            }
        }
    }
}

/// The code of the fields of a table from the field at place `i` on: for
/// each the name is loaded, the value computed (a table or a list within is
/// deferred), and the attribute of the table in `table` set.
pub open spec fn spec_fields(
    g: GenModel,
    fields: Seq<(Seq<char>, ExprView)>,
    i: int,
    table: u8,
) -> Progress
    decreases fields, fields.len() - i,
{
    if i < 0 || i >= fields.len() {
        (g, Ok(()))
    } else {
        let key = spec_load(g, ConstantModel::String(fields[i].0));
        match key.1 {
            Err(k) => (key.0, Err(k)),
            Ok(reg_key) => {
                let value = spec_visit(key.0, fields[i].1, true);
                match value.1 {
                    Err(k) => (value.0, Err(k)),
                    Ok(reg_value) => {
                        let set = spec_emit(
                            value.0,
                            OpCode::SETATTR,
                            seq![table as u32, reg_key as u32, reg_value as u32],
                        );
                        match set.1 {
                            Err(k) => (set.0, Err(k)),
                            Ok(_) => spec_fields(
                                spec_release(spec_release(set.0, reg_key), reg_value),
                                fields,
                                i + 1,
                                table,
                            ),
                        }
                    },
                }
            },
        }
    }
}

/// The code that builds a table on the spot.
pub open spec fn spec_table(g: GenModel, fields: Seq<(Seq<char>, ExprView)>) -> Outcome
    decreases fields, fields.len() + 1,
{
    let taken = spec_take(g);
    match taken.1 {
        Err(k) => (taken.0, Err(k)),
        Ok(table) => {
            let made = spec_emit(taken.0, OpCode::MAKETABLE, seq![table as u32]);
            match made.1 {
                Err(k) => (made.0, Err(k)),
                Ok(_) => {
                    let filled = spec_fields(made.0, fields, 0, table);
                    match filled.1 {
                        Err(k) => (filled.0, Err(k)),
                        Ok(_) => (spec_release(filled.0, table), Ok(table)),
                    }
                },
            }
        },
    }
}

/// The code of the items of a list from the item at place `i` on: each is
/// computed (a table or a list within is deferred) and appended to the list
/// in `list`.
pub open spec fn spec_items(g: GenModel, items: Seq<ExprView>, i: int, list: u8) -> Progress
    decreases items, items.len() - i,
{
    if i < 0 || i >= items.len() {
        (g, Ok(()))
    } else {
        let value = spec_visit(g, items[i], true);
        match value.1 {
            Err(k) => (value.0, Err(k)),
            Ok(reg_value) => {
                let added = spec_emit(
                    value.0,
                    OpCode::ADDLIST,
                    seq![list as u32, reg_value as u32],
                );
                match added.1 {
                    Err(k) => (added.0, Err(k)),
                    Ok(_) => spec_items(spec_release(added.0, reg_value), items, i + 1, list),
                }
            },
        }
    }
}

/// The code that builds a list on the spot.
pub open spec fn spec_list(g: GenModel, items: Seq<ExprView>) -> Outcome
    decreases items, items.len() + 1,
{
    let taken = spec_take(g);
    match taken.1 {
        Err(k) => (taken.0, Err(k)),
        Ok(list) => {
            let made = spec_emit(taken.0, OpCode::MAKELIST, seq![list as u32]);
            match made.1 {
                Err(k) => (made.0, Err(k)),
                Ok(_) => {
                    let filled = spec_items(made.0, items, 0, list);
                    match filled.1 {
                        Err(k) => (filled.0, Err(k)),
                        Ok(_) => (spec_release(filled.0, list), Ok(list)),
                    }
                },
            }
        },
    }
}

/// The code that computes an expression, and the register that holds its
/// value.
///
/// A literal is loaded from the constant pool. A variable is the register of
/// its parameter. An arithmetic expression computes its left side, then its
/// right side, takes a register for the result, emits the operation, and
/// frees all three registers. A table or a list is built on the spot, or
/// deferred to a thunk where `is_make_thunk` is set. A lambda is registered
/// as a function. A call pushes its arguments and calls the callee by its
/// name. There is no code for a sign before an operand, for `true` and
/// `false`, and for `let`.
pub open spec fn spec_visit(g: GenModel, expr: ExprView, is_make_thunk: bool) -> Outcome
    decreases expr, 0nat,
{
    match expr {
        ExprView::Number(number) => spec_load(g, ConstantModel::Number(number)),
        ExprView::LiteralString(text) => spec_load(g, ConstantModel::String(text)),
        ExprView::Binary { op, lhs, rhs } => {
            let left = spec_visit(g, *lhs, false);
            match left.1 {
                Err(k) => (left.0, Err(k)),
                Ok(reg_lhs) => {
                    let right = spec_visit(left.0, *rhs, false);
                    match right.1 {
                        Err(k) => (right.0, Err(k)),
                        Ok(reg_rhs) => {
                            let taken = spec_take(right.0);
                            match taken.1 {
                                Err(k) => (taken.0, Err(k)),
                                Ok(reg) => {
                                    let emitted = spec_emit(
                                        taken.0,
                                        spec_arithmetic_opcode(op),
                                        seq![reg as u32, reg_lhs as u32, reg_rhs as u32],
                                    );
                                    match emitted.1 {
                                        Err(k) => (emitted.0, Err(k)),
                                        Ok(_) => (
                                            spec_release(
                                                spec_release(
                                                    spec_release(emitted.0, reg),
                                                    reg_lhs,
                                                ),
                                                reg_rhs,
                                            ),
                                            Ok(reg),
                                        ),
                                    }
                                },
                            }
                        },
                    }
                },
            }
        },
        ExprView::Var(name) => match g.bound(name) {
            Some(reg) => (g, Ok(reg)),
            None => (g, Err(GenerationErrorKind::NotFoundVariable)),
        },
        ExprView::Table { fields } => if is_make_thunk {
            spec_defer(g, expr)
        } else {
            spec_table(g, fields)
        },
        ExprView::List { items } => if is_make_thunk {
            spec_defer(g, expr)
        } else {
            spec_list(g, items)
        },
        ExprView::FunctionDeclare { params, body } => spec_declare(g, params, *body),
        ExprView::FunctionCall { name, args } => spec_call(g, name, args),
        _ => (g, Err(GenerationErrorKind::UnexpectExpr)),
    }
}

/// Records where the code of the thunk at place `idx` starts.
pub open spec fn spec_place_thunk(g: GenModel, idx: int, offset: u32) -> GenModel {
    GenModel { thunks: g.thunks.update(idx, ThunkModel { offset, ..g.thunks[idx] }), ..g }
}

/// Records where the code of the function at place `idx` starts.
pub open spec fn spec_place_function(g: GenModel, idx: int, offset: u32) -> GenModel {
    GenModel {
        functions: g.functions.update(idx, FunctionModel { offset, ..g.functions[idx] }),
        ..g
    }
}

/// The code of the thunks from the thunk at place `idx` on, the thunks that
/// this code registers included: the place of the thunk's code is recorded,
/// its table or list is built on the spot, and the value is yielded.
pub open spec fn spec_drain(g: GenModel, idx: int) -> Progress
    decreases CONST_MASK - idx,
{
    if idx < 0 || idx >= g.thunks.len() || idx >= CONST_MASK {
        (g, Ok(()))
    } else {
        let expr = g.thunks[idx].expr;
        if !(expr is Table || expr is List) {
            (g, Err(GenerationErrorKind::UnexpectExpr))
        } else {
            let placed = spec_place_thunk(g, idx, g.ins_count);
            let body = if expr is Table {
                spec_table(placed, expr->Table_fields)
            } else {
                spec_list(placed, expr->List_items)
            };
            match body.1 {
                Err(k) => (body.0, Err(k)),
                Ok(reg) => {
                    let yielded = spec_emit(body.0, OpCode::RETURN, seq![reg as u32]);
                    match yielded.1 {
                        Err(k) => (yielded.0, Err(k)),
                        Ok(_) => spec_drain(yielded.0, idx + 1),
                    }
                },
            }
        }
    }
}

/// Binds a parameter to a register: a name that is bound already is bound
/// anew, a new name comes after the others.
pub open spec fn spec_bind(g: GenModel, name: Seq<char>, reg: u8) -> GenModel {
    let at = position(keys_of(g.context), name, 0);
    if at < g.context.len() {
        GenModel { context: g.context.update(at, (g.context[at].0, reg)), ..g }
    } else {
        GenModel { context: g.context.push((name, reg)), ..g }
    }
}

/// Frees each of the registers.
pub open spec fn spec_free_all(g: GenModel, regs: Seq<usize>) -> GenModel {
    GenModel {
        registers: Seq::new(16, |r: int| g.registers[r] && !regs.contains(r as usize)),
        ..g
    }
}

/// The code that loads the arguments of a function from the parameter at
/// place `p` on: each parameter gets a register of its own, is bound to it,
/// and the argument is loaded into it. Gives the registers of all
/// parameters, after those in `regs`.
pub open spec fn spec_params(
    g: GenModel,
    params: Seq<Seq<char>>,
    p: int,
    regs: Seq<usize>,
) -> (GenModel, Result<Seq<usize>, GenerationErrorKind>)
    decreases params.len() - p,
{
    if p < 0 || p >= params.len() {
        (g, Ok(regs))
    } else {
        let taken = spec_take(g);
        match taken.1 {
            Err(k) => (taken.0, Err(k)),
            Ok(reg) => {
                let loaded = spec_emit(
                    spec_bind(taken.0, params[p], reg),
                    OpCode::LOADARG,
                    seq![reg as u32],
                );
                match loaded.1 {
                    Err(k) => (loaded.0, Err(k)),
                    Ok(_) => spec_params(loaded.0, params, p + 1, regs.push(reg as usize)),
                }
            },
        }
    }
}

/// The code of the functions from the function at place `idx` on, the
/// functions that this code registers included: the place of the function's
/// code is recorded, the arguments are loaded, the body is computed with the
/// parameters bound, the registers of the parameters are freed, the value
/// of the body is yielded, and the parameters are unbound.
pub open spec fn spec_functions(g: GenModel, idx: int) -> Progress
    decreases CONST_MASK - idx,
{
    if idx < 0 || idx >= g.functions.len() || idx >= CONST_MASK {
        (g, Ok(()))
    } else {
        let placed = spec_place_function(g, idx, g.ins_count);
        let function = placed.functions[idx];
        if placed.context.len() != 0 {
            (placed, Err(GenerationErrorKind::UnexpectExpr))
        } else {
            let bound = spec_params(placed, function.params, 0, Seq::empty());
            match bound.1 {
                Err(k) => (bound.0, Err(k)),
                Ok(regs) => {
                    let body = spec_visit(bound.0, function.body, false);
                    match body.1 {
                        Err(k) => (body.0, Err(k)),
                        Ok(reg) => {
                            let yielded = spec_emit(
                                spec_free_all(body.0, regs),
                                OpCode::RETURN,
                                seq![reg as u32],
                            );
                            match yielded.1 {
                                Err(k) => (yielded.0, Err(k)),
                                Ok(_) => spec_functions(
                                    GenModel {
                                        context: Seq::empty(),
                                        ..spec_release(yielded.0, reg)
                                    },
                                    idx + 1,
                                ),
                            }
                        },
                    }
                },
            }
        }
    }
}

/// Makes sure that the constant pool holds the name of each global function
/// in use, from the one at place `i` on.
pub open spec fn spec_intern_names(g: GenModel, i: int, n: int) -> Progress
    decreases n - i,
{
    if i < 0 || i >= n || i >= g.used.len() {
        (g, Ok(()))
    } else {
        let c = ConstantModel::String(g.used[i].0);
        if !(position(g.constants, c, 0) < g.constants.len() || g.constants.len() < CONST_MASK) {
            (g, Err(GenerationErrorKind::UnexpectExpr))
        } else {
            spec_intern_names(g.intern(c), i + 1, n)
        }
    }
}

/// The binary program of an expression, and the generator after it was
/// compiled.
///
/// The code of the expression comes first and ends with the instruction that
/// yields its value; the code of the thunks follows, then the code of the
/// functions. A program whose lengths do not fit 32 bits is an error.
pub open spec fn spec_get_binary(g: GenModel, expr: ExprView) -> (
    GenModel,
    Result<Seq<u8>, GenerationErrorKind>,
) {
    let main = spec_visit(g, expr, false);
    match main.1 {
        Err(k) => (main.0, Err(k)),
        Ok(reg) => {
            let yielded = spec_emit(spec_release(main.0, reg), OpCode::RETURN, seq![reg as u32]);
            match yielded.1 {
                Err(k) => (yielded.0, Err(k)),
                Ok(_) => {
                    let drained = spec_drain(yielded.0, 0);
                    match drained.1 {
                        Err(k) => (drained.0, Err(k)),
                        Ok(_) => {
                            let compiled = spec_functions(drained.0, 0);
                            match compiled.1 {
                                Err(k) => (compiled.0, Err(k)),
                                Ok(_) => {
                                    let named = spec_intern_names(
                                        compiled.0,
                                        0,
                                        compiled.0.used.len() as int,
                                    );
                                    match named.1 {
                                        Err(k) => (named.0, Err(k)),
                                        Ok(_) => if named.0.fits() {
                                            (named.0, Ok(named.0.binary()))
                                        } else {
                                            (named.0, Err(GenerationErrorKind::UnexpectExpr))
                                        },
                                    }
                                },
                            }
                        },
                    }
                },
            }
        },
    }
}

} // verus!

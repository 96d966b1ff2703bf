use angi::compiler::ast::{Expr, Operator};
use angi::compiler::bytecode::constant::Constant;
use angi::compiler::bytecode::function::Function as GlobalFunction;
use angi::compiler::bytecode::load_global::{global_functions, load_global_from, native_globals};
use angi::compiler::bytecode::BytecodeGen;
use angi::compiler::compile;
use angi::compiler::error::{BytecodeGenerationError, CompilationError, GenerationErrorKind};
use angi::instructions::{extract_opcode, OpCode, MAGIC_NUMBER, METADATA_BYTES, VERSION};
use angi::vm::error::{VmError, VmErrorKind};
use angi::vm::utils::read_u32;
use angi::vm::value::{Function, List, Table, Value};
use angi::vm::vm::VM;

#[test]
fn compiler_test_get_value_from_table() {
    let bytecode = compile(
        r#"
{
    port = 3030;
    routes = [
       {
           path = "/";
           handler = "Message 1";
       },
       {
           path = "/Hello";
           handler = "Message Hello";
       }
    ];
}
    "#
        .into(),
    )
    .unwrap();

    let mut vm = VM::new_from_bytes(bytecode).unwrap();

    let port = vm.eval::<i64>("port").unwrap();
    assert_eq!(port, 3030);

    let mut routes = vm.eval::<List<Table>>("routes").unwrap();

    routes.force(&mut vm).unwrap();

    let first = routes.get(0).unwrap();

    assert_eq!(first.get::<String>("path"), Some(String::from("/")));
    assert_eq!(first.get::<String>("handler"), Some(String::from("Message 1")));

    let second = routes.get(1).unwrap();

    assert_eq!(second.get::<String>("path"), Some(String::from("/Hello")));
    assert_eq!(second.get::<String>("handler"), Some(String::from("Message Hello")));
}

#[test]
fn compiler_test_use_global_function() {
    let bytecode = compile(
        r#"
{
    port = 3030;
    routes = [
       {
           path = "/";
           handler = () => html("<h1>Hello</h1>");
       },
       {
           path = "/Hello";
           handler = () => html("<h1>Hello World</h1>");
       }
    ];
};
    "#
        .into(),
    )
    .unwrap();

    let mut vm = VM::new_from_bytes(bytecode).unwrap();

    let port = vm.eval::<i64>("port").unwrap();
    assert_eq!(port, 3030);

    let mut routes = vm.eval::<List<Table>>("routes").unwrap();

    routes.force(&mut vm).unwrap();

    let first = routes.get(0).unwrap();

    assert_eq!(first.get::<String>("path"), Some(String::from("/")));

    let function = first.get::<Function>("handler").unwrap();
    println!("{}", function.idx);
    let result: Table = function.call(&mut vm, ()).unwrap();

    assert_eq!(result.get::<String>("type"), Some(String::from("html")));
    assert_eq!(result.get::<String>("html"), Some(String::from("<h1>Hello</h1>")));

    let second = routes.get(1).unwrap();

    assert_eq!(second.get::<String>("path"), Some(String::from("/Hello")));

    let function = second.get::<Function>("handler").unwrap();
    let result: Table = function.call(&mut vm, ()).unwrap();

    assert_eq!(result.get::<String>("type"), Some(String::from("html")));
    assert_eq!(result.get::<String>("html"), Some(String::from("<h1>Hello World</h1>")));
}

fn word(bytes: &[u8], at: usize) -> u32 {
    let mut cursor = at;
    read_u32(bytes, &mut cursor).unwrap()
}

#[test]
fn lambdas_that_return_tables_do_not_disturb_each_other() {
    let bytecode = compile(
        r#"{
    routes = [
       { path = "/"; handler = () => { type = "html"; html = "<h1>Hello</h1>"; }; },
       { path = "/n"; handler = () => { type = "text"; text = "plain"; size = 2 + 3; }; }
    ];
}"#
        .into(),
    )
    .unwrap();
    let mut vm = VM::new_from_bytes(bytecode).unwrap();
    let mut routes = vm.eval::<List<Table>>("routes").unwrap();
    assert_eq!(routes.len(), 0);
    assert!(routes.is_empty());
    routes.force(&mut vm).unwrap();
    assert_eq!(routes.len(), 2);
    let first = routes.get(0).unwrap().get::<Function>("handler").unwrap();
    let second = routes.get(1).unwrap().get::<Function>("handler").unwrap();
    assert!(routes.get(2).is_none());
    let b: Table = second.call(&mut vm, ()).unwrap();
    let a: Table = first.call(&mut vm, ()).unwrap();
    let b2: Table = second.call(&mut vm, ()).unwrap();
    assert_eq!(a.get::<String>("type"), Some("html".to_string()));
    assert_eq!(a.get::<String>("html"), Some("<h1>Hello</h1>".to_string()));
    assert_eq!(a.get::<String>("text"), None);
    for t in [b, b2] {
        assert_eq!(t.get::<String>("type"), Some("text".to_string()));
        assert_eq!(t.get::<String>("text"), Some("plain".to_string()));
        assert_eq!(t.get::<i64>("size"), Some(5));
        assert_eq!(t.get::<String>("size"), None);
    }
    let copies = routes.iter().unwrap();
    assert_eq!(copies.len(), 2);
    assert_eq!(copies[1].get::<String>("path"), Some("/n".to_string()));
}

#[test]
fn the_header_and_the_footer_are_byte_accurate() {
    let bytes = compile(
        r#"{ a = "x"; b = "x"; c = 7; d = { e = 7; }; f = () => html("x"); }"#.into(),
    )
    .unwrap();
    assert_eq!(word(&bytes, 0), MAGIC_NUMBER);
    assert_eq!(word(&bytes, 4), VERSION);
    assert_eq!(word(&bytes, 8), METADATA_BYTES);
    let n_const = word(&bytes, 12);
    let thunk_offset = word(&bytes, 16) as usize;
    let n_thunk = word(&bytes, 20) as usize;
    let function_offset = word(&bytes, 24) as usize;
    let n_function = word(&bytes, 28) as usize;
    let global_offset = word(&bytes, 32) as usize;
    let n_global = word(&bytes, 36) as usize;
    let code_offset = word(&bytes, 40) as usize;
    let n_code = word(&bytes, 44) as usize;
    assert_eq!(n_const, 10);
    assert_eq!(n_thunk, 1);
    assert_eq!(n_function, 2);
    assert_eq!(n_global, 1);
    assert_eq!(function_offset, thunk_offset + 4 * n_thunk);
    assert_eq!(global_offset, function_offset + 8 * n_function);
    assert_eq!(code_offset, global_offset + 8 * n_global);
    assert_eq!(code_offset + 4 * n_code + 4, bytes.len());
    assert_eq!(word(&bytes, bytes.len() - 4) as usize, bytes.len());
    for k in 0..n_code {
        assert!(extract_opcode(word(&bytes, code_offset + 4 * k)).is_some());
    }
    assert_eq!(bytes[48], 1);
    assert_eq!(word(&bytes, 49), 1);
    assert_eq!(bytes[53], b'a');
    let vm = VM::new_from_bytes(bytes.clone()).unwrap();
    let m = vm.get_metadata();
    assert_eq!(m.magic_code, MAGIC_NUMBER);
    assert_eq!(m.const_size, 10);
    assert_eq!(m.code_offset as usize, code_offset);
    assert_eq!(m.code_size as usize, n_code);
    let thunks = vm.get_thunk_table();
    assert_eq!(thunks.len(), 1);
    assert_eq!(thunks[&1] as usize, word(&bytes, thunk_offset) as usize * 4 + code_offset);
    assert!(vm.get_const(0).is_none());
    assert!(vm.get_const(11).is_none());
    assert_eq!(vm.get_const(1).unwrap().fmt(), "a");
    assert_eq!(vm.get_const(2).unwrap().fmt(), "x");
    assert_eq!(vm.get_const(5).unwrap().fmt(), "7");
}

#[test]
fn two_equal_literals_share_one_constant() {
    let mut generator = BytecodeGen::new();
    let ast = Expr::List {
        items: vec![
            Expr::LiteralString("same".into()),
            Expr::Number(5),
            Expr::LiteralString("same".into()),
            Expr::Number(5),
        ],
    };
    let bytes = generator.get_binary(ast).unwrap();
    assert_eq!(generator.constants.len(), 2);
    let code_offset = word(&bytes, 40) as usize;
    let loads: Vec<Vec<u32>> = (0..word(&bytes, 44) as usize)
        .map(|k| word(&bytes, code_offset + 4 * k))
        .filter(|w| extract_opcode(*w) == Some(OpCode::LOADCONST))
        .map(|w| OpCode::LOADCONST.decode(w))
        .collect();
    assert_eq!(loads.len(), 4);
    assert_eq!(loads[0][1], 1);
    assert_eq!(loads[1][1], 2);
    assert_eq!(loads[2][1], 1);
    assert_eq!(loads[3][1], 2);
    assert_eq!(generator.make_const(Constant::String("same".into())), 1);
    assert_eq!(generator.make_const(Constant::Number(5)), 2);
    assert_eq!(generator.make_const(Constant::Number(6)), 3);
    assert_eq!(generator.make_const(Constant::Number(6)), 3);
    assert_eq!(generator.constants.len(), 3);
}

#[test]
fn registers_are_taken_from_the_low_end() {
    let mut generator = BytecodeGen::new();
    assert_eq!(generator.get_register(), Some(0));
    assert_eq!(generator.get_register(), Some(1));
    assert_eq!(generator.get_register(), Some(2));
    generator.free_register(1);
    assert_eq!(generator.first_free_register(), 1);
    assert_eq!(generator.get_register(), Some(1));
    generator.free_registers(vec![0, 2]);
    assert_eq!(generator.get_register(), Some(0));
    for expected in 2..16 {
        assert_eq!(generator.get_register(), Some(expected));
    }
    assert_eq!(generator.get_register(), None);
    assert_eq!(generator.first_free_register(), 16);
}

#[test]
fn number_and_string_literals_are_loaded() {
    let mut generator = BytecodeGen::new();
    let reg = generator.visit_expr(&Expr::Number(7), false).unwrap();
    assert_eq!(reg, 0);
    assert_eq!(generator.ins_count, 1);
    assert_eq!(generator.ins_code, OpCode::LOADCONST.encode(vec![0, 1]).to_vec());
    let reg = generator.visit_expr(&Expr::LiteralString("s".into()), true).unwrap();
    assert_eq!(reg, 1);
    assert_eq!(generator.ins_code[4..], OpCode::LOADCONST.encode(vec![1, 2]));
    assert_eq!(generator.emit_ins(OpCode::RETURN.encode(vec![1])), 3);
    assert_eq!(generator.get_constant_len_in_bytes(), 9 + 5 + 1);
}

#[test]
fn tables_and_lists_are_deferred_where_asked() {
    let mut generator = BytecodeGen::new();
    let table = Expr::Table { fields: vec![("k".into(), Expr::Number(1))] };
    let reg = generator.visit_expr(&table, true).unwrap();
    assert_eq!(reg, 0);
    assert_eq!(generator.thunks.len(), 1);
    assert_eq!(generator.thunks[0].expr, table);
    assert_eq!(generator.thunks[0].offset, 0);
    assert_eq!(generator.ins_code, OpCode::MAKETHUNK.encode(vec![0, 1]).to_vec());
    let list = Expr::List { items: vec![table.clone()] };
    let reg = generator.visit_expr(&list, false).unwrap();
    assert_eq!(reg, 1);
    assert_eq!(generator.thunks.len(), 2);
    let code: Vec<u8> = [
        OpCode::MAKETHUNK.encode(vec![0, 1]),
        OpCode::MAKELIST.encode(vec![1]),
        OpCode::MAKETHUNK.encode(vec![2, 2]),
        OpCode::ADDLIST.encode(vec![1, 2]),
    ]
    .concat();
    assert_eq!(generator.ins_code, code);
    generator.set_offset_thunk(1, 9);
    assert_eq!(generator.thunks[1].offset, 9);
    assert_eq!(generator.make_thunk(Expr::Number(1)), 3);
}

#[test]
fn arithmetic_frees_its_registers_at_once() {
    let mut generator = BytecodeGen::new();
    let ast = Expr::Binary {
        op: Operator::Sub,
        lhs: Box::new(Expr::Number(1)),
        rhs: Box::new(Expr::Var("x".into())),
    };
    let err = generator.visit_expr(&ast, false).unwrap_err();
    assert_eq!(err.kind(), GenerationErrorKind::NotFoundVariable);
    let mut generator = BytecodeGen::new();
    let ast = Expr::Binary {
        op: Operator::Mul,
        lhs: Box::new(Expr::Number(2)),
        rhs: Box::new(Expr::Number(3)),
    };
    assert_eq!(generator.visit_expr(&ast, false).unwrap(), 2);
    let code: Vec<u8> = [
        OpCode::LOADCONST.encode(vec![0, 1]),
        OpCode::LOADCONST.encode(vec![1, 2]),
        OpCode::MUL.encode(vec![2, 0, 1]),
    ]
    .concat();
    assert_eq!(generator.ins_code, code);
    assert_eq!(generator.first_free_register(), 0);
}

#[test]
fn generation_errors() {
    let mut generator = BytecodeGen::new();
    let call = Expr::FunctionCall { name: "nope".into(), args: vec![] };
    assert!(matches!(
        generator.visit_expr(&call, false),
        Err(BytecodeGenerationError::NotFoundFunction {})
    ));
    assert!(matches!(
        generator.visit_expr(&Expr::Var("v".into()), false),
        Err(BytecodeGenerationError::NotFoundVariable {})
    ));
    assert!(matches!(
        generator.visit_expr(&Expr::Boolean(true), false),
        Err(BytecodeGenerationError::UnexpectExpr { .. })
    ));
    assert!(matches!(
        generator.visit_table(&Expr::Number(1)),
        Err(BytecodeGenerationError::UnexpectExpr { .. })
    ));
    assert!(matches!(
        generator.visit_list(&Expr::Number(1)),
        Err(BytecodeGenerationError::UnexpectExpr { .. })
    ));
    let mut generator = BytecodeGen::new().with_global_func(native_globals());
    let call = Expr::FunctionCall { name: "html".into(), args: vec![] };
    let err = generator.visit_expr(&call, false).unwrap_err();
    assert_eq!(err.kind(), GenerationErrorKind::UnexpectExpr);
    assert!(matches!(
        compile("{ a = x; }".into()),
        Err(CompilationError::BytecodeGenerationError(
            BytecodeGenerationError::NotFoundVariable {}
        ))
    ));
    assert!(matches!(compile("{ a = ; }".into()), Err(CompilationError::ParseError(_))));
    assert!(matches!(
        compile("{ a = nope(1); }".into()),
        Err(CompilationError::BytecodeGenerationError(
            BytecodeGenerationError::NotFoundFunction {}
        ))
    ));
}

#[test]
fn seventeen_values_at_once_need_more_registers_than_there_are() {
    let mut ast = Expr::Number(0);
    for n in 1..17 {
        ast = Expr::Binary { op: Operator::Add, lhs: Box::new(Expr::Number(n)), rhs: Box::new(ast) };
    }
    let mut generator = BytecodeGen::new();
    let err = generator.get_binary(ast).unwrap_err();
    assert_eq!(err.kind(), GenerationErrorKind::UnexpectExpr);
}

#[test]
fn global_functions_come_from_lambdas() {
    let globals = native_globals();
    assert_eq!(globals.len(), 1);
    assert_eq!(globals[0].0, "html");
    assert_eq!(globals[0].1.params, vec!["content".to_string()]);
    let globals = load_global_from("{ a = 1; f = (x) => x; f = () => 2; }").unwrap();
    assert_eq!(globals.len(), 1);
    assert_eq!(globals[0].0, "f");
    assert_eq!(globals[0].1.params.len(), 0);
    assert_eq!(*globals[0].1.body, Expr::Number(2));
    assert!(load_global_from("{").is_none());
    assert_eq!(load_global_from("[]").unwrap().len(), 0);
    assert_eq!(global_functions(Expr::Number(1)).len(), 0);
    assert!(GlobalFunction::from_epxr(Expr::Number(1)).is_none());
    let f = GlobalFunction::from_epxr(Expr::FunctionDeclare {
        params: vec!["p".into()],
        body: Box::new(Expr::Var("p".into())),
    })
    .unwrap();
    assert_eq!(f.offset, 0);
    assert_eq!(f.params, vec!["p".to_string()]);
}

#[test]
fn functions_get_their_offsets() {
    let mut generator = BytecodeGen::new();
    let lambda = Expr::FunctionDeclare {
        params: vec!["a".into(), "b".into()],
        body: Box::new(Expr::Var("b".into())),
    };
    generator.get_binary(lambda).unwrap();
    assert_eq!(generator.functions.len(), 1);
    assert_eq!(generator.functions[0].offset, 2);
    let code: Vec<u8> = [
        OpCode::MAKEFUNC.encode(vec![0, 1]),
        OpCode::RETURN.encode(vec![0]),
        OpCode::LOADARG.encode(vec![0]),
        OpCode::LOADARG.encode(vec![1]),
        OpCode::RETURN.encode(vec![1]),
    ]
    .concat();
    assert_eq!(generator.ins_code, code);
    generator.set_offset_func(0, 4);
    assert_eq!(generator.functions[0].offset, 4);
    assert_eq!(generator.make_function(Box::new(Expr::Number(1)), vec![]), 2);
}

#[test]
fn a_buffer_without_the_magic_value_is_not_loaded() {
    for bytes in [vec![], vec![0x41, 0x4E, 0x47], vec![0u8; 64], b"ANGJ".repeat(20)] {
        match VM::new_from_bytes(bytes) {
            Err(VmError::UnexpectedError { .. }) => {}
            _ => panic!("expected an error"),
        }
    }
    let mut good = compile("1".into()).unwrap();
    assert!(VM::new_from_bytes(good.clone()).is_ok());
    good[3] ^= 1;
    assert!(VM::new_from_bytes(good).is_err());
    let short = compile("1".into()).unwrap()[..40].to_vec();
    assert!(VM::new_from_bytes(short).is_err());
}

#[test]
fn eval_walks_through_nested_tables() {
    let bytes = compile(
        r#"{ response = { handler = { response = "deep"; }; code = 200 + 4; }; port = 1; }"#.into(),
    )
    .unwrap();
    let mut vm = VM::new_from_bytes(bytes).unwrap();
    assert_eq!(vm.eval::<String>("response.handler.response").unwrap(), "deep");
    assert_eq!(vm.eval::<i64>("response.code").unwrap(), 204);
    assert_eq!(vm.eval::<i64>("port").unwrap(), 1);
    let table: Table = vm.eval("response").unwrap();
    assert_eq!(table.get::<i64>("code"), Some(204));
    assert_eq!(table.clone().get::<i64>("code"), Some(204));
    match vm.eval::<i64>("missing") {
        Err(VmError::UnexpectedError { message }) => assert_eq!(message, "property not found: missing"),
        _ => panic!("expected an error"),
    }
    match vm.eval::<String>("port") {
        Err(e) => {
            assert_eq!(e.kind(), VmErrorKind::ValueTypeMismatch);
            assert_eq!(e.to_string(), "[ValueTypeMismatch] Cannot casting from Int to String");
        }
        _ => panic!("expected an error"),
    }
    assert!(matches!(vm.eval::<Function>("port"), Err(VmError::ValueTypeMismatch { .. })));
    assert!(matches!(vm.eval::<List<i64>>("port"), Err(VmError::ValueTypeMismatch { .. })));
    match vm.eval::<Table>("port") {
        Err(VmError::ValueTypeMismatch { message }) => {
            assert_eq!(message, "Cannot casting from Int to Table")
        }
        _ => panic!("expected an error"),
    }
}

fn program(code: &[[u8; 4]], constants: &[&str]) -> Vec<u8> {
    let mut consts = Vec::new();
    for c in constants {
        consts.push(1u8);
        consts.extend_from_slice(&(c.len() as u32).to_be_bytes());
        consts.extend_from_slice(c.as_bytes());
    }
    let code_offset = 48 + consts.len() as u32;
    let mut bytes = Vec::new();
    for field in [
        MAGIC_NUMBER,
        VERSION,
        48,
        constants.len() as u32,
        code_offset,
        0,
        code_offset,
        0,
        code_offset,
        0,
        code_offset,
        code.len() as u32,
    ] {
        bytes.extend_from_slice(&field.to_be_bytes());
    }
    bytes.extend_from_slice(&consts);
    for ins in code {
        bytes.extend_from_slice(ins);
    }
    let total = bytes.len() as u32 + 4;
    bytes.extend_from_slice(&total.to_be_bytes());
    bytes
}

fn run(code: &[[u8; 4]], constants: &[&str]) -> Result<Value, VmError> {
    let bytes = program(code, constants);
    let mut vm = VM::new_from_bytes(bytes).unwrap();
    let start = vm.get_metadata().code_offset as usize;
    vm.handle_instruction(start)
}

#[test]
fn arithmetic_instructions() {
    let bytes = compile("{ a = 7; b = 2; }".into()).unwrap();
    let mut vm = VM::new_from_bytes(bytes).unwrap();
    assert_eq!(vm.eval::<i64>("a").unwrap(), 7);
    let mut generator = BytecodeGen::new();
    let ast = Expr::Binary {
        op: Operator::Div,
        lhs: Box::new(Expr::Binary {
            op: Operator::Sub,
            lhs: Box::new(Expr::Number(-7)),
            rhs: Box::new(Expr::Number(2)),
        }),
        rhs: Box::new(Expr::Number(2)),
    };
    let bytes = generator.get_binary(ast).unwrap();
    let mut vm = VM::new_from_bytes(bytes).unwrap();
    let start = vm.get_metadata().code_offset as usize;
    assert!(matches!(vm.handle_instruction(start), Ok(Value::Int(-4))));
    let mut generator = BytecodeGen::new();
    let ast = Expr::Binary {
        op: Operator::Div,
        lhs: Box::new(Expr::Number(1)),
        rhs: Box::new(Expr::Number(0)),
    };
    let bytes = generator.get_binary(ast).unwrap();
    let mut vm = VM::new_from_bytes(bytes).unwrap();
    match vm.handle_instruction(start) {
        Err(e) => assert_eq!(e.kind(), VmErrorKind::InstructionExecution),
        _ => panic!("expected an error"),
    }
    let mut generator = BytecodeGen::new();
    let ast = Expr::Binary {
        op: Operator::Add,
        lhs: Box::new(Expr::Number(1)),
        rhs: Box::new(Expr::LiteralString("x".into())),
    };
    let bytes = generator.get_binary(ast).unwrap();
    let mut vm = VM::new_from_bytes(bytes).unwrap();
    let start = vm.get_metadata().code_offset as usize;
    match vm.handle_instruction(start) {
        Err(e) => assert_eq!(e.kind(), VmErrorKind::ValueTypeMismatch),
        _ => panic!("expected an error"),
    }
}

#[test]
fn runs_end_with_an_error_where_the_code_is_broken() {
    let kind = |r: Result<Value, VmError>| r.unwrap_err().kind();
    assert_eq!(kind(run(&[], &[])), VmErrorKind::UnexpectedError);
    assert_eq!(kind(run(&[[0xFF, 0, 0, 0]], &[])), VmErrorKind::UnexpectedError);
    assert_eq!(kind(run(&[OpCode::LOADIM.encode(vec![])], &[])), VmErrorKind::UnexpectedError);
    assert_eq!(kind(run(&[OpCode::MAKELIST.encode(vec![0])], &[])), VmErrorKind::UnexpectedError);
    assert_eq!(
        kind(run(&[OpCode::LOADCONST.encode(vec![0, 2])], &["a"])),
        VmErrorKind::UnexpectedError
    );
    assert_eq!(
        kind(run(&[OpCode::LOADARG.encode(vec![0])], &[])),
        VmErrorKind::InstructionExecution
    );
    assert_eq!(
        kind(run(
            &[OpCode::MAKETABLE.encode(vec![0]), OpCode::SETATTR.encode(vec![0, 1, 2])],
            &[]
        )),
        VmErrorKind::ValueTypeMismatch
    );
    assert_eq!(
        kind(run(
            &[OpCode::LOADCONST.encode(vec![1, 1]), OpCode::CALL.encode(vec![0, 1])],
            &["f"]
        )),
        VmErrorKind::NotFoundFunction
    );
    assert_eq!(kind(run(&[OpCode::CALL.encode(vec![0, 1])], &[])), VmErrorKind::ValueTypeMismatch);
    assert!(matches!(
        run(
            &[
                OpCode::LOADCONST.encode(vec![3, 1]),
                OpCode::PUSHARG.encode(vec![3]),
                OpCode::LOADARG.encode(vec![9]),
                OpCode::RETURN.encode(vec![9])
            ],
            &["queued"]
        ),
        Ok(Value::String(s)) if s == "queued"
    ));
    assert!(matches!(
        run(&[OpCode::MAKEFUNC.encode(vec![2, 77]), OpCode::RETURN.encode(vec![2])], &[]),
        Ok(Value::Function(77))
    ));
    assert!(matches!(run(&[OpCode::RETURN.encode(vec![5])], &[]), Ok(Value::Uninitialized)));
}

#[test]
fn a_function_that_calls_itself_is_stopped() {
    let globals = load_global_from("{ again = (x) => again(x); }").unwrap();
    let mut generator = BytecodeGen::new().with_global_func(globals);
    let ast = Expr::FunctionDeclare {
        params: vec![],
        body: Box::new(Expr::FunctionCall { name: "again".into(), args: vec![Expr::Number(1)] }),
    };
    let bytes = generator.get_binary(ast).unwrap();
    let mut vm = VM::new_from_bytes(bytes).unwrap();
    let f: Function = vm.eval("").unwrap_or(Function { idx: 2 });
    match vm.handle_instruction(vm.get_metadata().code_offset as usize) {
        Ok(Value::Function(idx)) => {
            let f = Function { idx };
            match f.call::<i64, ()>(&mut vm, ()) {
                Err(e) => assert_eq!(e.kind(), VmErrorKind::InstructionExecution),
                _ => panic!("expected an error"),
            }
        }
        _ => panic!("expected a function"),
    }
    let _ = f;
    let missing = Function { idx: 99 };
    match missing.call::<i64, ()>(&mut vm, ()) {
        Err(e) => assert_eq!(e.kind(), VmErrorKind::NotFoundFunction),
        _ => panic!("expected an error"),
    }
}

#[test]
fn calls_pass_their_arguments_in_order() {
    let globals = load_global_from("{ pair = (a, b) => { first = a; second = b; }; }").unwrap();
    let mut generator = BytecodeGen::new().with_global_func(globals);
    let ast = Expr::Table {
        fields: vec![(
            "f".into(),
            Expr::FunctionDeclare {
                params: vec!["x".into()],
                body: Box::new(Expr::FunctionCall {
                    name: "pair".into(),
                    args: vec![Expr::Var("x".into()), Expr::LiteralString("two".into())],
                }),
            },
        )],
    };
    let bytes = generator.get_binary(ast).unwrap();
    assert_eq!(generator.global_function_in_used.len(), 1);
    let mut vm = VM::new_from_bytes(bytes).unwrap();
    let f: Function = vm.eval("f").unwrap();
    let t: Table = f.call(&mut vm, vec![Value::Int(1)]).unwrap();
    assert_eq!(t.get::<i64>("first"), Some(1));
    assert_eq!(t.get::<String>("second"), Some("two".to_string()));
    let _: Table = f.call(&mut vm, vec![Value::String("s".into()), Value::Int(9)]).unwrap();
    let t: Table = f.call(&mut vm, vec![Value::Int(3)]).unwrap();
    assert_eq!(t.get::<i64>("first"), Some(3));
    match f.call::<Table, ()>(&mut vm, ()) {
        Err(e) => assert_eq!(e.kind(), VmErrorKind::InstructionExecution),
        _ => panic!("expected an error"),
    }
}

#[test]
fn force_runs_a_thunk_and_passes_other_values_on() {
    let bytes = compile(r#"{ inner = { n = 5; }; }"#.into()).unwrap();
    let mut vm = VM::new_from_bytes(bytes).unwrap();
    let n: i64 = vm.force(Value::Int(3)).unwrap();
    assert_eq!(n, 3);
    let t: Table = vm.force(Value::Thunk(1)).unwrap();
    assert_eq!(t.get::<i64>("n"), Some(5));
    assert!(matches!(vm.force::<i64>(Value::Thunk(9)), Err(VmError::ValueTypeMismatch { .. })));
    let mut list: List<i64> = List::new(vec![Value::Int(1), Value::String("x".into())]);
    assert!(list.force(&mut vm).is_err());
    assert!(list.is_empty());
    let mut list: List<i64> = List::new(vec![Value::Int(1), Value::Int(2)]);
    list.force(&mut vm).unwrap();
    assert_eq!(list.len(), 2);
    assert_eq!(list.get(1), Some(&2));
    assert_eq!(list.clone().len(), 2);
}

#[test]
fn texts_beyond_ascii_come_back_as_they_were_written() {
    let bytecode = compile("{ name = \"h\u{e9}llo \u{4e16}\u{754c}\"; plain = \"abc\"; }".into()).unwrap();
    let mut vm = VM::new_from_bytes(bytecode).unwrap();
    assert_eq!(vm.eval::<String>("name").unwrap(), "h\u{e9}llo \u{4e16}\u{754c}");
    assert_eq!(vm.eval::<String>("plain").unwrap(), "abc");
    let mut generator = BytecodeGen::new();
    let binary = generator.get_binary(Expr::LiteralString("\u{e9}".into())).unwrap();
    let number = generator.make_const(Constant::String("\u{e9}".to_string()));
    assert_eq!(number, 1);
    let vm = VM::new_from_bytes(binary).unwrap();
    match vm.get_const(number) {
        Some(constant) => assert_eq!(constant.fmt(), "\u{e9}"),
        None => panic!("expected a constant"),
    }
    assert!(vm.get_const(0).is_none());
}

#[test]
fn a_constant_that_is_not_utf8_is_not_loaded() {
    let mut generator = BytecodeGen::new();
    let mut binary = generator.get_binary(Expr::LiteralString("ab".into())).unwrap();
    let at = METADATA_BYTES as usize + 5;
    assert_eq!(binary[at..at + 2], *b"ab");
    binary[at] = 0xff;
    assert!(matches!(VM::new_from_bytes(binary), Err(VmError::UnexpectedError { .. })));
}

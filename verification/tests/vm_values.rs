use angi::vm::constant::ConstantValue;
use angi::vm::error::{VmError, VmErrorKind};
use angi::vm::register::Register;
use angi::vm::tree::Tree;
use angi::vm::utils::{
    read_i64, read_n_bytes_from_cursor, read_str_with_len, read_u32, read_u8, split_path,
    write_i64, write_u32,
};
use angi::vm::value::{generate_error_message_when_mismatch_casting, Value};

#[test]
fn test_display_for_constantvalue() {
    let c1 = ConstantValue::Int(42);
    assert_eq!(c1.fmt(), "42");

    let c2 = ConstantValue::String("abc".into());
    assert_eq!(c2.fmt(), "abc");
}

#[test]
fn test_to_value() {
    let c1 = ConstantValue::Int(7);
    let v1 = c1.to_value();
    assert!(matches!(v1, Value::Int(7)));

    let c2 = ConstantValue::String("xyz".into());
    let v2 = c2.to_value();
    assert!(matches!(v2, Value::String(s) if s == "xyz"));
}

#[test]
fn constant_test_to_string_success() {
    let c = ConstantValue::String("hello".into());
    let result = c.to_string().unwrap();
    assert_eq!(result, "hello");
}

#[test]
fn constant_test_to_string_fail() {
    let c = ConstantValue::Int(10);
    let result = c.to_string();
    match result {
        Err(VmError::UnexpectedError { message }) => {
            assert!(message.contains("constant not string"));
        }
        _ => panic!("Expected VmError::UnexpectedError"),
    }
}

#[test]
fn tree_test_init_tree() {
    let mut tree = Tree::new();
    tree.insert(vec!["port", "number"], "kcsjdn").expect("Test fail");
    assert_eq!(tree.get(vec!["port", "number"]), Some("kcsjdn"))
}

#[test]
fn tree_test_tree_get_the_wrong_path() {
    let mut tree = Tree::new();
    tree.insert(vec!["port", "number"], "kcsjdn").expect("Test fail");
    assert_eq!(tree.get(vec!["number"]), None)
}

#[test]
fn tree_test_tree_get_the_root() {
    let mut tree = Tree::new();
    tree.insert(vec!["port", "number"], "kcsjdn").expect("Test fail");
    assert_eq!(tree.get(vec!["port"]), None)
}

#[test]
fn test_read_i64_success() {
    let value: i64 = 1234567890123456789;
    let bytes = value.to_be_bytes();
    let mut cursor = 0;
    let result = read_i64(&bytes, &mut cursor);
    assert_eq!(result, Some(value));
    assert_eq!(cursor, 8);
}

#[test]
fn test_read_i64_fail_short_slice() {
    let bytes = vec![0x01, 0x02];
    let mut cursor = 0;
    let result = read_i64(&bytes, &mut cursor);
    assert_eq!(result, None);
}

#[test]
fn test_read_u32_success() {
    let value: u32 = 0xDEADBEEF;
    let bytes = value.to_be_bytes();
    let mut cursor = 0;
    let result = read_u32(&bytes, &mut cursor);
    assert_eq!(result, Some(value));
    assert_eq!(cursor, 4);
}

#[test]
fn test_read_u8_success() {
    let bytes = [0xAB];
    let mut cursor = 0;
    let result = read_u8(&bytes, &mut cursor);
    assert_eq!(result, Some(0xAB));
    assert_eq!(cursor, 1);
}

#[test]
fn test_read_str_with_len_success() {
    let data = b"hello";
    let mut cursor = 0;
    let result = read_str_with_len(data, &mut cursor, 5);
    assert_eq!(result, Some("hello".to_string()));
    assert_eq!(cursor, 5);
}

#[test]
fn test_read_str_with_len_fail() {
    let data = b"hi";
    let mut cursor = 0;
    let result = read_str_with_len(data, &mut cursor, 5);
    assert_eq!(result, None);
}

#[test]
fn test_clone_and_display() {
    let v1 = Value::Int(42);
    let v2 = v1.clone();
    assert!(matches!(v2, Value::Int(_)));
    assert_eq!(v1.fmt(), "Int");

    let v3 = Value::String("abc".into());
    assert_eq!(v3.fmt(), "String");

    let v4 = Value::Uninitialized;
    assert_eq!(v4.fmt(), "None");
}

#[test]
fn value_test_to_string_success() {
    let v = Value::String("hello".into());
    assert_eq!(v.to_string().unwrap(), "hello");
}

#[test]
fn value_test_to_string_fail() {
    let v = Value::Int(10);
    let err = v.to_string().unwrap_err();
    match err {
        VmError::ValueTypeMismatch { message } => {
            assert!(message.contains("value not string"));
        }
        _ => panic!("Unexpected error variant"),
    }
}

#[test]
fn test_from_value_i64_success() {
    let v = Value::Int(123);
    let n: i64 = v.val().unwrap();
    assert_eq!(n, 123);
}

#[test]
fn test_from_value_i64_fail() {
    let v = Value::String("oops".into());
    let result: Result<i64, VmError> = v.val();
    assert!(matches!(result, Err(VmError::ValueTypeMismatch { .. })));
}

#[test]
fn test_from_value_string_success() {
    let v = Value::String("world".into());
    let s: String = v.val().unwrap();
    assert_eq!(s, "world");
}

#[test]
fn test_generate_error_message() {
    let msg = generate_error_message_when_mismatch_casting(Value::Int(10), "String".into());
    assert_eq!(msg, "Cannot casting from Int to String");
}

#[test]
fn clone_of_a_value_is_deep() {
    let mut tree = Tree::new();
    tree.insert(vec!["a"], Value::Int(1)).unwrap();
    let table = Value::Table(Box::new(tree));
    let list = Value::List(vec![table, Value::Function(3), Value::Thunk(4)]);
    let copy = list.clone();
    match (list, copy) {
        (Value::List(a), Value::List(mut b)) => {
            assert_eq!(a.len(), 3);
            assert!(matches!(b[1], Value::Function(3)));
            assert!(matches!(b[2], Value::Thunk(4)));
            if let Value::Table(t) = &mut b[0] {
                t.insert(vec!["a"], Value::Int(2)).unwrap();
                assert!(matches!(t.get(vec!["a"]), Some(Value::Int(2))));
            } else {
                panic!("no table");
            }
            if let Value::Table(t) = &a[0] {
                assert!(matches!(t.get(vec!["a"]), Some(Value::Int(1))));
            } else {
                panic!("no table");
            }
        }
        _ => panic!("no list"),
    }
}

#[test]
fn error_text_names_the_class() {
    let e = VmError::NotFoundFunction { message: "f".into() };
    assert_eq!(e.to_string(), "[NotFoundFunction] f");
    assert_eq!(e.kind(), VmErrorKind::NotFoundFunction);
    let e = VmError::InstructionExecution { message: "x".into() };
    assert_eq!(e.to_string(), "[InstructionExecution] x");
    let e = VmError::ValueTypeMismatch { message: "x".into() };
    assert_eq!(e.to_string(), "[ValueTypeMismatch] x");
    let e = VmError::UnexpectedError { message: "x".into() };
    assert_eq!(e.to_string(), "[UnexpectedError] x");
}

#[test]
fn constant_text_of_a_negative_number() {
    assert_eq!(ConstantValue::Int(-7).fmt(), "-7");
    assert_eq!(ConstantValue::Int(i64::MIN).fmt(), "-9223372036854775808");
}

#[test]
fn tree_leaf_turns_into_branch() {
    let mut tree = Tree::new();
    tree.insert(vec!["a"], 1).unwrap();
    assert_eq!(tree.get(vec!["a"]), Some(1));
    tree.insert(vec!["a", "b"], 2).unwrap();
    assert_eq!(tree.get(vec!["a"]), None);
    assert_eq!(tree.get(vec!["a", "b"]), Some(2));
    tree.insert(vec!["c"], 3).unwrap();
    assert_eq!(tree.get(vec!["c"]), Some(3));
    assert_eq!(tree.get(vec!["a", "b"]), Some(2));
}

#[test]
fn tree_insert_at_a_branch_stores_nothing() {
    let mut tree = Tree::new();
    tree.insert(vec!["a", "b"], 2).unwrap();
    tree.insert(vec!["a"], 9).unwrap();
    assert_eq!(tree.get(vec!["a"]), None);
    assert_eq!(tree.get(vec!["a", "b"]), Some(2));
}

#[test]
fn tree_root_leaf_and_keys_past_a_leaf() {
    let mut tree = Tree::new();
    assert_eq!(tree.get(vec![]), None::<i32>);
    tree.insert(vec![], 5).unwrap();
    assert_eq!(tree.get(vec![]), Some(5));
    assert_eq!(tree.get(vec!["x"]), None);
    let mut tree = Tree::new_with_value(Some(1));
    tree.insert(vec!["a"], 7).unwrap();
    assert_eq!(tree.get(vec!["a"]), Some(7));
    assert_eq!(tree.get(vec!["a", "more"]), None);
    tree.insert(vec!["a"], 8).unwrap();
    assert_eq!(tree.get(vec!["a"]), Some(8));
}

#[test]
fn tree_keys_are_compared_by_their_text() {
    let mut tree = Tree::new();
    tree.insert(vec!["ab"], 1).unwrap();
    tree.insert(vec!["ac"], 2).unwrap();
    assert_eq!(tree.get(vec!["ab"]), Some(1));
    assert_eq!(tree.get(vec!["ac"]), Some(2));
    assert_eq!(tree.get(vec!["a"]), None);
}

#[test]
fn reads_and_writes_agree() {
    let mut bytes = Vec::new();
    write_u32(&mut bytes, 0x0102_0304);
    write_i64(&mut bytes, -2);
    assert_eq!(bytes, vec![1, 2, 3, 4, 255, 255, 255, 255, 255, 255, 255, 254]);
    let mut cursor = 0;
    assert_eq!(read_u32(&bytes, &mut cursor), Some(0x0102_0304));
    assert_eq!(read_i64(&bytes, &mut cursor), Some(-2));
    assert_eq!(cursor, 12);
    assert_eq!(read_u8(&bytes, &mut cursor), None);
    assert_eq!(cursor, 12);
}

#[test]
fn read_str_moves_the_cursor_to_the_end_on_failure() {
    let data = b"hi";
    let mut cursor = 0;
    assert_eq!(read_str_with_len(data, &mut cursor, 5), None);
    assert_eq!(cursor, 2);
    let mut cursor = 7;
    assert_eq!(read_str_with_len(data, &mut cursor, 0), Some(String::new()));
    assert_eq!(cursor, 7);
}

#[test]
fn texts_are_read_as_utf8() {
    let data = "h\u{e9}llo \u{4e16}\u{754c}".as_bytes();
    let mut cursor = 0;
    assert_eq!(
        read_str_with_len(data, &mut cursor, data.len()),
        Some("h\u{e9}llo \u{4e16}\u{754c}".to_string())
    );
    assert_eq!(cursor, data.len());
    let mut cursor = 1;
    assert_eq!(read_str_with_len(data, &mut cursor, 2), Some("\u{e9}".to_string()));
    assert_eq!(cursor, 3);
}

#[test]
fn bytes_that_are_not_utf8_are_no_text() {
    let mut cursor = 1;
    assert_eq!(read_str_with_len(&[0x41, 0xE9, 0x42], &mut cursor, 1), None);
    assert_eq!(cursor, 3);
    let data = "\u{e9}".as_bytes();
    let mut cursor = 0;
    assert_eq!(read_str_with_len(data, &mut cursor, 1), None);
    assert_eq!(cursor, 2);
}

#[test]
fn a_leaf_names_nothing_below_it() {
    let mut tree = Tree::new();
    tree.insert(vec!["a"], 1).unwrap();
    assert_eq!(tree.get(vec!["a"]), Some(1));
    assert_eq!(tree.get(vec!["a", "b"]), None);
    assert_eq!(tree.get(vec!["a", "c"]), None);
}

#[test]
fn storing_at_one_path_leaves_the_others_alone() {
    let mut tree = Tree::new();
    tree.insert(vec!["a", "b"], 1).unwrap();
    tree.insert(vec!["c"], 2).unwrap();
    tree.insert(vec!["a", "d", "e"], 3).unwrap();
    assert_eq!(tree.get(vec!["a", "b"]), Some(1));
    assert_eq!(tree.get(vec!["c"]), Some(2));
    assert_eq!(tree.get(vec!["a", "d", "e"]), Some(3));
    assert_eq!(tree.get(vec!["a", "d"]), None);
    assert_eq!(tree.get(vec!["a"]), None);
    tree.insert(vec!["c", "f"], 4).unwrap();
    assert_eq!(tree.get(vec!["c"]), None);
    assert_eq!(tree.get(vec!["c", "f"]), Some(4));
    assert_eq!(tree.get(vec!["a", "b"]), Some(1));
}

#[test]
fn read_n_bytes_checks_the_range() {
    let data = [1u8, 2, 3, 4];
    assert_eq!(read_n_bytes_from_cursor(&data, 1, 2), Some(vec![2, 3]));
    assert_eq!(read_n_bytes_from_cursor(&data, 4, 0), Some(vec![]));
    assert_eq!(read_n_bytes_from_cursor(&data, 3, 2), None);
    assert_eq!(read_n_bytes_from_cursor(&data, 5, 0), None);
}

#[test]
fn split_path_at_dots() {
    assert_eq!(split_path("a.bc.d"), vec!["a", "bc", "d"]);
    assert_eq!(split_path("port"), vec!["port"]);
    assert_eq!(split_path(""), vec![""]);
    assert_eq!(split_path("a."), vec!["a", ""]);
}

#[test]
fn registers_hold_what_was_set() {
    let mut regs = Register::new();
    assert!(matches!(regs.get(0), Some(Value::Uninitialized)));
    assert!(regs.get(16).is_none());
    regs.set(3, Value::Int(9));
    assert!(matches!(regs.get(3), Some(Value::Int(9))));
    regs.set_new_table(1);
    regs.set_attr_table(1, "k".to_string(), Value::Int(4));
    match regs.get(1) {
        Some(Value::Table(t)) => assert!(matches!(t.get(vec!["k"]), Some(Value::Int(4)))),
        _ => panic!("no table"),
    }
    regs.set_attr_table(3, "k".to_string(), Value::Int(4));
    assert!(matches!(regs.get(3), Some(Value::Int(9))));
    regs.set(2, Value::List(vec![]));
    regs.add_to_list(2, Value::Int(1));
    regs.add_to_list(2, Value::Int(2));
    match regs.get(2) {
        Some(Value::List(l)) => assert_eq!(l.len(), 2),
        _ => panic!("no list"),
    }
    regs.reset_all();
    assert!(matches!(regs.get(3), Some(Value::Uninitialized)));
}

#[test]
fn numbers_are_written_in_decimal() {
    assert_eq!(ConstantValue::Int(0).fmt(), "0");
    assert_eq!(ConstantValue::Int(7).fmt(), "7");
    assert_eq!(ConstantValue::Int(10).fmt(), "10");
    assert_eq!(ConstantValue::Int(1203).fmt(), "1203");
    assert_eq!(ConstantValue::Int(-7).fmt(), "-7");
    assert_eq!(ConstantValue::Int(-1200).fmt(), "-1200");
    assert_eq!(ConstantValue::Int(i64::MAX).fmt(), "9223372036854775807");
    assert_eq!(ConstantValue::Int(i64::MIN).fmt(), "-9223372036854775808");
}

#[test]
fn keys_that_share_a_start_are_told_apart() {
    let mut tree = Tree::new();
    tree.insert(vec!["caf\u{e9}"], 1).unwrap();
    tree.insert(vec!["cafe"], 2).unwrap();
    tree.insert(vec!["caf"], 3).unwrap();
    tree.insert(vec![""], 4).unwrap();
    assert_eq!(tree.get(vec!["caf\u{e9}"]), Some(1));
    assert_eq!(tree.get(vec!["cafe"]), Some(2));
    assert_eq!(tree.get(vec!["caf"]), Some(3));
    assert_eq!(tree.get(vec![""]), Some(4));
    assert_eq!(tree.get(vec!["ca"]), None);
}

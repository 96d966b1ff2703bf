use angi::instructions::{extract_opcode, OpCode, Operand, OPCODE_OFFSET};

#[test]
fn test_opcode_from_and_to_u8() {
    assert_eq!(OpCode::from_u8(1), Some(OpCode::LOADCONST));
    assert_eq!(OpCode::from_u8(8), Some(OpCode::ADDLIST));
    assert_eq!(OpCode::from_u8(99), None);

    assert_eq!(OpCode::LOADCONST.to_u8(), 1);
    assert_eq!(OpCode::ADDLIST.to_u8(), 8);
}

#[test]
fn test_opcode_to_u32() {
    assert_eq!(OpCode::RETURN.to_u32(), 6);
}

#[test]
fn test_extract_opcode() {
    let encoded = (1u32 << OPCODE_OFFSET) | 0x00FFFFFF;
    assert_eq!(extract_opcode(encoded), Some(OpCode::LOADCONST));
}

#[test]
fn test_ldc_encode_decode() {
    let op = OpCode::LOADCONST;
    let operands = vec![3, 1234];

    let bytes = op.encode(operands.clone());
    let encoded = u32::from_be_bytes(bytes);
    let decoded = op.decode(encoded);

    assert_eq!(decoded, operands);
}

#[test]
fn test_sat_encode_decode() {
    let op = OpCode::SETATTR;
    let operands = vec![1, 2, 3];
    let bytes = op.encode(operands.clone());
    let encoded = u32::from_be_bytes(bytes);
    let decoded = op.decode(encoded);
    assert_eq!(decoded, operands);
}

#[test]
fn test_mtk_encode_decode() {
    let op = OpCode::MAKETHUNK;
    let operands = vec![2, 55];
    let bytes = op.encode(operands.clone());
    let encoded = u32::from_be_bytes(bytes);
    let decoded = op.decode(encoded);
    assert_eq!(decoded, operands);
}

#[test]
fn test_roundtrip_all_opcodes() {
    for code in 1..=8 {
        let op = OpCode::from_u8(code).unwrap();
        let operands = op
            .layout()
            .iter()
            .map(|operand| match operand {
                Operand::RegAddr => 0xF,
                Operand::ConstIdx => 0xFFFFF,
            })
            .collect::<Vec<_>>();

        let bytes = op.encode(operands.clone());
        let encoded = u32::from_be_bytes(bytes);
        let decoded = op.decode(encoded);
        assert_eq!(decoded, operands, "failed for {:?}", op);
    }
}

#[test]
fn roundtrip_every_opcode_at_the_bounds() {
    for code in 1..=16 {
        let op = OpCode::from_u8(code).unwrap();
        assert_eq!(op.to_u8(), code);
        for high in [false, true] {
            let operands = op
                .layout()
                .iter()
                .map(|operand| match (operand, high) {
                    (_, false) => 0,
                    (Operand::RegAddr, true) => 15,
                    (Operand::ConstIdx, true) => (1 << 20) - 1,
                })
                .collect::<Vec<u32>>();
            let word = u32::from_be_bytes(op.encode(operands.clone()));
            assert_eq!(extract_opcode(word), Some(op));
            assert_eq!(op.decode(word), operands);
        }
    }
}

#[test]
fn encode_packs_fields_from_the_low_end() {
    let bytes = OpCode::LOADCONST.encode(vec![3, 1234]);
    assert_eq!(bytes, [0x01, 0x30, 0x04, 0xD2]);
    let bytes = OpCode::SETATTR.encode(vec![1, 2, 3]);
    assert_eq!(bytes, [0x04, 0x00, 0x01, 0x23]);
    let bytes = OpCode::CALL.encode(vec![1, 0]);
    assert_eq!(bytes, [0x10, 0x00, 0x00, 0x10]);
}

#[test]
fn encode_cuts_operands_to_their_fields() {
    let word = u32::from_be_bytes(OpCode::LOADCONST.encode(vec![0x1F, 0x1F_FFFF]));
    assert_eq!(extract_opcode(word), Some(OpCode::LOADCONST));
    assert_eq!(OpCode::LOADCONST.decode(word), vec![0xF, 0xFFFFF]);
}

#[test]
fn unknown_opcodes_are_none() {
    assert_eq!(OpCode::from_u8(0), None);
    assert_eq!(OpCode::from_u8(17), None);
    assert_eq!(extract_opcode(0), None);
    assert_eq!(extract_opcode(0xFF00_0000), None);
    assert_eq!(OpCode::from_u8(2), Some(OpCode::LOADIM));
    assert_eq!(OpCode::LOADIM.layout().len(), 0);
}

use sixtyfive::code::{AsmCode, Code, Statement};
use sixtyfive::instruction::Instruction;
use sixtyfive::variable::{Variable, VariableMap, VariableValue};

#[test]
fn data_byte_renderings() {
    let mut vars = VariableMap::new();
    assert_eq!(AsmCode::DataHexU8(0x3f).to_write_string(&mut vars), ".byte $3F");
    assert_eq!(AsmCode::DataHexU16(0x80a2).to_write_string(&mut vars), ".byte $80A2");
    assert_eq!(AsmCode::DataU8(7).to_write_string(&mut vars), ".byte 7");
    assert_eq!(AsmCode::DataU8(42).to_write_string(&mut vars), ".byte 42");
    assert_eq!(AsmCode::DataU8(255).to_write_string(&mut vars), ".byte 255");
    assert_eq!(AsmCode::DataBinaryU8(5).to_write_string(&mut vars), ".byte 0b00000101");
    assert_eq!(AsmCode::DataBinaryU8(0xff).to_write_string(&mut vars), ".byte 0b11111111");
    assert_eq!(
        AsmCode::DataString(String::from("NES")).to_write_string(&mut vars),
        ".byte \"NES\""
    );
}

#[test]
fn data_sequence_rendering() {
    let mut vars = VariableMap::new();
    let group = AsmCode::DataSeq(vec![
        AsmCode::DataString(String::from("NES")),
        AsmCode::DataHexU8(0x1a),
        AsmCode::DataU8(3),
        AsmCode::DataBinaryU8(1),
    ]);
    assert_eq!(group.to_write_string(&mut vars), ".byte \"NES\", $1A, 3, 0b00000001");
}

#[test]
fn instruction_renderings() {
    let mut vars = VariableMap::new();
    assert_eq!(Instruction::LDA_IMM(5).to_write_string(&mut vars), "lda #$05");
    assert_eq!(Instruction::RTS.to_write_string(&mut vars), "rts");
    assert_eq!(Instruction::TAX.to_write_string(&mut vars), "tax");
    assert_eq!(
        Instruction::BNE_REL(-2, String::from("p_8000")).to_write_string(&mut vars),
        "bne p_8000"
    );
    assert_eq!(
        Instruction::JSR_ABS(0x8004, String::from("p_8004")).to_write_string(&mut vars),
        "jsr p_8004"
    );
    assert_eq!(Instruction::STA_IND_Y(0x21).to_write_string(&mut vars), "sta ($21),y");
    assert_eq!(Instruction::LDA_ZP_X(0x21).to_write_string(&mut vars), "lda $21,x");
    assert_eq!(Instruction::LDA_ZP_X(0x21).to_write_string(&mut vars), "lda ZP_21,x");
    assert_eq!(Instruction::LDA_ABS_X(0x1234).to_write_string(&mut vars), "lda $1234,x");
    assert_eq!(Instruction::LDA_ABS_Y(0x1234).to_write_string(&mut vars), "lda ABS_1234,y");
}

#[test]
fn zero_page_operand_binds_once() {
    let mut vars = VariableMap::new();
    // first sight renders numerically and binds the name
    assert_eq!(Instruction::LDA_ZP(0x10).to_write_string(&mut vars), "lda $10");
    // an already-bound address always reuses its existing name
    assert_eq!(Instruction::LDA_ZP(0x10).to_write_string(&mut vars), "lda ZP_10");
    assert_eq!(Instruction::STA_ZP(0x10).to_write_string(&mut vars), "sta ZP_10");
    assert_eq!(vars.get(0x10).unwrap().name, "ZP_10");
}

#[test]
fn pre_bound_name_is_used() {
    let mut vars = VariableMap::new();
    vars.insert(
        0x2000,
        Variable { name: String::from("PPU_CTRL"), value: VariableValue::U16(0x2000) },
    );
    assert_eq!(Instruction::STA_ABS(0x2000).to_write_string(&mut vars), "sta PPU_CTRL");
}

#[test]
fn variable_value_rendering() {
    assert_eq!(VariableValue::U8(0x0a).to_write_string(), "$0A");
    assert_eq!(VariableValue::U16(0x0a).to_write_string(), "$000A");
}

#[test]
fn defines_are_sorted_by_address() {
    let mut code = Code::new(vec![0x01]);
    code.set_variable(
        0x4000,
        Variable { name: String::from("LATE"), value: VariableValue::U16(0x4000) },
    );
    code.set_variable(
        0x2000,
        Variable { name: String::from("EARLY"), value: VariableValue::U16(0x2000) },
    );
    let out = code.write();
    let early = out.find(".define EARLY").unwrap();
    let late = out.find(".define LATE").unwrap();
    assert!(early < late);
    let early_line = format!(".define {:<25} = $2000\n", "EARLY");
    let late_line = format!(".define {:<25} = $4000\n", "LATE");
    assert!(out.contains(&early_line));
    assert!(out.contains(&late_line));
}

#[test]
fn single_line_comment_trails_padded() {
    let mut code = Code::new(vec![0x2a]);
    code.set_comment(0, "the answer");
    let line = code.to_string(0).unwrap();
    assert_eq!(line, ".byte $2A                 ; the answer");
}

#[test]
fn multi_line_comment_becomes_block() {
    let mut code = Code::new(vec![0x01]);
    code.set_comment(0, "first\nsecond");
    let line = code.to_string(0).unwrap();
    assert_eq!(line, "\n; first\n; second\n.byte $01                ");
}

#[test]
fn labels_and_segments_in_listing() {
    let mut code = Code::new(vec![0x01, 0x02]);
    code.set_label(0, "start");
    code.set_segment(0, "HEADER");
    let out = code.write();
    assert_eq!(
        out,
        "\n; -------------------------- HEADER -----------------------\n.segment \"HEADER\"\nstart:\n.byte $01\n.byte $02\n"
    );
}

#[test]
fn byte_accessors() {
    let mut code = Code::new(vec![0x4e, 0xff]);
    assert!(code.is_eq_u8(0, 0x4e));
    assert!(!code.is_eq_u8(0, 0x4f));
    assert_eq!(code.get_u8(0).unwrap(), 0x4e);
    assert_eq!(code.get_i8(1).unwrap(), -1);
    assert_eq!(code.replace_with_u8(0).unwrap(), 0x4e);
    assert_eq!(code.replace_with_binary_u8(1).unwrap(), 0xff);
    let out = code.write();
    assert_eq!(out, ".byte 78\n.byte 0b11111111\n");
}

#[test]
fn replace_with_instr_classifies_range() {
    let mut code = Code::new(vec![0xa9, 0x05, 0x60]);
    let taken = code.replace_with_instr(0, 1, Instruction::LDA_IMM(5)).unwrap();
    assert_eq!(taken, 2);
    assert!(code.is_instruction(0));
    assert!(code.is_used(1));
    assert!(!code.is_instruction(2));
}

#[test]
fn reading_a_consumed_cell_is_refused() {
    let mut code = Code::new(vec![0xa9, 0x05]);
    code.take(1).unwrap();
    let err = code.get_u8(1).unwrap_err();
    assert_eq!(err.message(), "unexpected asm code");
    let stmt = Statement {
        asm_code: AsmCode::DataU8(3),
        comment: None,
        segment: None,
        label: None,
    };
    code.set(1, stmt).unwrap();
    assert_eq!(code.get_u8(1).unwrap(), 3);
}

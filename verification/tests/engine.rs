use sixtyfive::code::AsmCode;
use sixtyfive::disassembler::{AddrMapping, Disassembler};

fn flat_mapping() -> AddrMapping {
    AddrMapping { load_addr: 0x8000, header_len: 0, bank_len: 16384 }
}

#[test]
fn scenario_load_immediate_then_return() {
    let mut d = Disassembler::new(vec![0xa9, 0x05, 0x60]);
    let m = flat_mapping();
    d.disassemble(0x8000, "entry", "p", &m).unwrap();
    let out = d.code.write();
    assert_eq!(out, "p_entry:\n    lda #$05\n    rts\n");
}

#[test]
fn scenario_jump_skips_fall_through() {
    let mut d = Disassembler::new(vec![0x4c, 0x03, 0x80, 0x60]);
    let m = flat_mapping();
    d.disassemble(0x8000, "entry", "p", &m).unwrap();
    let out = d.code.write();
    // the jump target gets its own label line and is explored; nothing is
    // decoded via fall-through after the jump
    assert_eq!(out, "p_entry:\n    jmp p_8003\np_8003:\n    rts\n");
}

#[test]
fn unrecognized_entry_opcode_is_a_soft_stop() {
    let mut d = Disassembler::new(vec![0x02, 0x60]);
    let m = flat_mapping();
    d.disassemble(0x8000, "entry", "p", &m).unwrap();
    let out = d.code.write();
    assert_eq!(out, "p_entry:\n.byte $02\n.byte $60\n");
}

#[test]
fn scenario_self_referential_branch_terminates() {
    // bne with displacement -2 resolves the target back to its own address
    let mut d = Disassembler::new(vec![0xd0, 0xfe, 0x60]);
    let m = flat_mapping();
    d.disassemble(0x8000, "entry", "p", &m).unwrap();
    let out = d.code.write();
    assert!(out.contains("    bne p_8000\n"));
    assert!(out.contains("p_8000:\n"));
    assert!(out.contains("    rts\n"));
}

#[test]
fn redecoding_performs_no_further_work() {
    let mut d = Disassembler::new(vec![0xa9, 0x05, 0x60]);
    let m = flat_mapping();
    d.disassemble(0x8000, "entry", "p", &m).unwrap();
    let first = d.code.write();
    // the offset already holds an instruction: only the entry label is
    // re-attached, and nothing else changes
    d.disassemble(0x8000, "entry", "p", &m).unwrap();
    let second = d.code.write();
    assert_eq!(first, second);
}

#[test]
fn equal_prefix_and_target_render_equal_labels() {
    // bne +2 and beq +0 both resolve to address 0x8004
    let mut d = Disassembler::new(vec![0xd0, 0x02, 0xf0, 0x00, 0x60]);
    let m = flat_mapping();
    d.disassemble(0x8000, "entry", "p", &m).unwrap();
    let out = d.code.write();
    assert!(out.contains("    bne p_8004\n"));
    assert!(out.contains("    beq p_8004\n"));
    assert!(out.contains("p_8004:\n"));
}

#[test]
fn subroutine_call_explores_target_and_falls_through() {
    // jsr $8004; rts; target: rts
    let mut d = Disassembler::new(vec![0x20, 0x04, 0x80, 0x60, 0x60]);
    let m = flat_mapping();
    d.disassemble(0x8000, "entry", "p", &m).unwrap();
    let out = d.code.write();
    assert_eq!(out, "p_entry:\n    jsr p_8004\n    rts\np_8004:\n    rts\n");
}

#[test]
fn unrecognized_opcode_stops_path_softly() {
    // 0x02 is not in the decode table: the path ends, the rest stays raw
    let mut d = Disassembler::new(vec![0xa9, 0x07, 0x02, 0x60]);
    let m = flat_mapping();
    d.disassemble(0x8000, "entry", "p", &m).unwrap();
    let out = d.code.write();
    assert_eq!(out, "p_entry:\n    lda #$07\n.byte $02\n.byte $60\n");
}

#[test]
fn zero_page_synthesis_and_reuse() {
    // lda $10; sta $10; rts: the first occurrence binds ZP_10, the second
    // reuses it; both render the name in the final listing
    let mut d = Disassembler::new(vec![0xa5, 0x10, 0x85, 0x10, 0x60]);
    let m = flat_mapping();
    d.disassemble(0x8000, "entry", "p", &m).unwrap();
    let out = d.code.write();
    assert!(out.starts_with(".define ZP_10                     = $10\n"));
    assert!(out.contains("    lda ZP_10\n"));
    assert!(out.contains("    sta ZP_10\n"));
}

#[test]
fn absolute_synthesis_and_reuse() {
    let mut d = Disassembler::new(vec![0xad, 0x34, 0x12, 0x8d, 0x34, 0x12, 0x60]);
    let m = flat_mapping();
    d.disassemble(0x8000, "entry", "p", &m).unwrap();
    let out = d.code.write();
    assert!(out.starts_with(".define ABS_1234                  = $1234\n"));
    assert!(out.contains("    lda ABS_1234\n"));
    assert!(out.contains("    sta ABS_1234\n"));
}

#[test]
fn operand_bytes_become_tombstones() {
    let mut d = Disassembler::new(vec![0xa9, 0x05, 0x60]);
    let m = flat_mapping();
    d.disassemble(0x8000, "entry", "p", &m).unwrap();
    assert!(d.code.is_instruction(0));
    assert!(d.code.is_used(1));
    assert!(d.code.is_instruction(2));
}

#[test]
fn tombstone_renders_nothing() {
    let mut code = sixtyfive::code::Code::new(vec![0x01, 0x02]);
    code.take(1).unwrap();
    let out = code.write();
    assert_eq!(out, ".byte $01\n");
    let mut vars = sixtyfive::variable::VariableMap::new();
    let rendered = AsmCode::Used.to_write_string(&mut vars);
    assert_eq!(rendered, "");
}

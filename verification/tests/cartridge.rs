use sixtyfive::disassembler::{AddrMapping, Disassembler};
use sixtyfive::errors::DisassembleError;
use sixtyfive::nes::{disassemble, NesDisassembler};

fn rom(prg_banks: u8, chr_banks: u8) -> Vec<u8> {
    let mut data = vec![0u8; 16 + prg_banks as usize * 16384 + chr_banks as usize * 8192];
    data[0] = b'N';
    data[1] = b'E';
    data[2] = b'S';
    data[3] = 0x1a;
    data[4] = prg_banks;
    data[5] = chr_banks;
    data
}

fn set_vectors(data: &mut Vec<u8>, nmi: u16, reset: u16, irq: u16) {
    let base = 16 + 16384 - 6;
    data[base] = nmi as u8;
    data[base + 1] = (nmi >> 8) as u8;
    data[base + 2] = reset as u8;
    data[base + 3] = (reset >> 8) as u8;
    data[base + 4] = irq as u8;
    data[base + 5] = (irq >> 8) as u8;
}

#[test]
fn scenario_full_rom_reset_vector() {
    let mut data = rom(1, 0);
    // reset code at $8000: lda #$01; sta $2000; rts -- and a lone rts at
    // $8006 for the other two vectors
    let code = [0xa9, 0x01, 0x8d, 0x00, 0x20, 0x60, 0x60];
    for (i, b) in code.iter().enumerate() {
        data[16 + i] = *b;
    }
    set_vectors(&mut data, 0x8006, 0x8000, 0x8006);
    let out = disassemble(data).unwrap();
    assert!(out.contains("prgrom0_reset:\n"));
    assert!(out.contains("    lda #$01\n"));
    assert!(out.contains("    sta PPU_CTRL\n"));
    assert!(out.contains("    rts\n"));
    let define_line = format!(".define {:<25} = $2000\n", "PPU_CTRL");
    assert!(out.contains(&define_line));
}

#[test]
fn header_bytes_are_annotated() {
    let mut data = rom(1, 0);
    data[16] = 0x60;
    set_vectors(&mut data, 0x8000, 0x8000, 0x8000);
    let out = disassemble(data).unwrap();
    assert!(out.contains(".byte \"NES\", $1A"));
    assert!(out.contains(".byte 1                   ; PRG ROM count\n"));
    assert!(out.contains(".byte 0                   ; CHR ROM count\n"));
    assert!(out.contains("; Flags 6\n"));
    assert!(out.contains(".segment \"HEADER\"\n"));
    assert!(out.contains(".segment \"PRGROM0\"\n"));
}

#[test]
fn chr_rom_is_grouped_in_sixteens() {
    let mut data = rom(1, 1);
    data[16] = 0x60;
    set_vectors(&mut data, 0x8000, 0x8000, 0x8000);
    let out = disassemble(data).unwrap();
    assert!(out.contains(".segment \"CHRROM0\"\n"));
    assert!(out.contains(
        ".byte $00, $00, $00, $00, $00, $00, $00, $00, $00, $00, $00, $00, $00, $00, $00, $00\n"
    ));
}

#[test]
fn unhandled_format_is_refused() {
    let err = disassemble(vec![1, 2, 3, 4, 5]).unwrap_err();
    assert!(matches!(&err, DisassembleError::ParseError(_)));
    assert_eq!(err.message(), "unhandled file format");
    let err = disassemble(Vec::new()).unwrap_err();
    assert_eq!(err.message(), "unhandled file format");
}

#[test]
fn bad_magic_is_a_header_error() {
    let err = NesDisassembler::disassemble(vec![0u8; 32]).unwrap_err();
    assert!(matches!(&err, DisassembleError::ParseError(_)));
    assert_eq!(err.message(), "invalid nes header");
}

#[test]
fn truncated_rom_is_refused() {
    // the header promises one program bank that the file does not hold
    let mut data = vec![0u8; 16];
    data[0] = b'N';
    data[1] = b'E';
    data[2] = b'S';
    data[3] = 0x1a;
    data[4] = 1;
    let err = disassemble(data).unwrap_err();
    assert_eq!(err.message(), "file too short");
}

#[test]
fn unmappable_vector_aborts_with_location() {
    // all vectors are zero: the first traversal cannot map the address
    let data = rom(1, 0);
    let err = disassemble(data).unwrap_err();
    assert!(matches!(&err, DisassembleError::WrappedError(_)));
    assert_eq!(err.message(), "unmappable address $0000");
}

#[test]
fn reading_consumed_input_aborts_with_location() {
    let mut d = Disassembler::new(vec![0xa9, 0x4c, 0x60]);
    let m = AddrMapping { load_addr: 0x8000, header_len: 0, bank_len: 16384 };
    d.disassemble(0x8000, "entry", "p", &m).unwrap();
    // offset 1 was consumed as the operand of the first instruction
    let err = d.disassemble(0x8001, "again", "p", &m).unwrap_err();
    assert!(matches!(&err, DisassembleError::WrappedError(_)));
    assert_eq!(err.message(), "unexpected asm code at offset $0001 (addr $8001)");
}

#[test]
fn is_handled_checks_magic() {
    assert!(NesDisassembler::is_handled(&vec![b'N', b'E', b'S', 0x1a]));
    assert!(!NesDisassembler::is_handled(&vec![b'N', b'E', b'S', 0x00]));
    assert!(!NesDisassembler::is_handled(&vec![0, 0, 0, 0]));
}

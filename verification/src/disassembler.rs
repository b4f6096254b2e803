use vstd::prelude::*;

use crate::code::{Code, Statement, AsmCode, as_byte, used_stmt};
use crate::errors::{DisassembleError, error_message};
use crate::instruction::Instruction;
use crate::text::{hex4_lower, append_hex4_lower, hex_min4, append_hex_min4};

verus! {

/// The fixed linear mapping between addresses in the target's memory window
/// and offsets in the input file: one bank, loaded at `load_addr`, stored
/// `header_len` bytes into the file, wrapping once past `bank_len`.
pub struct AddrMapping {
    pub load_addr: u16,
    pub header_len: usize,
    pub bank_len: usize,
}

/// The offset a mapped address falls at, if the address lies in the window.
pub open spec fn map_addr_to_offset(m: AddrMapping, a: u16) -> Option<int> {
    if a < m.load_addr {
        None
    } else {
        let o = a - m.load_addr + m.header_len;
        if o > m.bank_len {
            Some(o - m.bank_len)
        } else {
            Some(o)
        }
    }
}

/// The address an offset maps back to, reduced to the 16-bit window.
pub open spec fn map_offset_to_addr(m: AddrMapping, o: int) -> int {
    (o + m.load_addr - m.header_len) % 0x10000
}

impl AddrMapping {
    /// The header must fit below the load address, so that every mapped
    /// offset translates back to an address.
    pub open spec fn wf(&self) -> bool {
        self.header_len <= self.load_addr as int
    }

    /// Maps an address to its file offset; an address below the window has
    /// no offset.
    pub fn addr_to_offset(&self, a: u16) -> (r: Option<usize>)
        requires
            self.wf(),
        ensures
            match r {
                Some(o) => map_addr_to_offset(*self, a) == Some(o as int) && o < 0x20000,
                None => map_addr_to_offset(*self, a) is None,
            },
    {
        if a < self.load_addr {
            return None;
        }
        let o = (a - self.load_addr) as usize;
        let o2 = o + self.header_len;
        if o2 > self.bank_len {
            Some(o2 - self.bank_len)
        } else {
            Some(o2)
        }
    }

    /// Maps a file offset back to its address.
    pub fn offset_to_addr(&self, o: usize) -> (r: u16)
        requires
            self.wf(),
            o < 0x2_0000_0000,
        ensures
            r as int == map_offset_to_addr(*self, o as int),
    {
        let t: u64 = o as u64 + self.load_addr as u64 - self.header_len as u64;
        (t % 65536) as u16
    }
}

/// The two operand bytes of an absolute-address instruction, low byte first.
pub open spec fn joint16(b1: u8, b2: u8) -> u16 {
    ((b2 as int) * 256 + (b1 as int)) as u16
}

fn join_u16(b1: u8, b2: u8) -> (r: u16)
    ensures
        r == joint16(b1, b2),
{
    (b2 as u16) * 256 + (b1 as u16)
}

/// The resolved target of a relative branch: the address of the byte after
/// the two-byte instruction, plus the signed displacement, reduced to the
/// 16-bit window. (The added constant only keeps the dividend nonnegative.)
pub open spec fn branch_target(addr: u16, rel: i8) -> u16 {
    (((addr as int) + 2 + (rel as int) + 0x10000) % 0x10000) as u16
}

fn branch_target_exec(addr: u16, rel: i8) -> (r: u16)
    ensures
        r == branch_target(addr, rel),
{
    (((addr as i32) + 2 + (rel as i32) + 0x10000) % 0x10000) as u16
}

/// The label generated for a control-transfer target: the caller's prefix,
/// an underscore, and the target address in four lower-case hex digits.
pub open spec fn label_text(prefix: Seq<char>, target: u16) -> Seq<char> {
    prefix + "_"@ + hex4_lower(target)
}

/// Labels are a function of prefix and resolved target alone: any two
/// control transfers that agree on both render byte-for-byte the same label.
pub proof fn lemma_label_text_deterministic(p1: Seq<char>, t1: u16, p2: Seq<char>, t2: u16)
    requires
        p1 == p2,
        t1 == t2,
    ensures
        label_text(p1, t1) == label_text(p2, t2),
{
}

fn label_string(prefix: &str, target: u16) -> (r: String)
    ensures
        r@ == label_text(prefix@, target),
{
    let mut s = String::from_str(prefix);
    s.append("_");
    append_hex4_lower(&mut s, target);
    s
}

/// The label attached where a traversal enters: the caller's prefix, an
/// underscore, and the entry's display name.
pub open spec fn entry_label_text(prefix: Seq<char>, name: Seq<char>) -> Seq<char> {
    prefix + "_"@ + name
}

fn entry_label_string(prefix: &str, name: &str) -> (r: String)
    ensures
        r@ == entry_label_text(prefix@, name@),
{
    let mut s = String::from_str(prefix);
    s.append("_");
    s.append(name);
    s
}

/// What the traversal does after an instruction: fall through, follow an
/// unconditional jump, explore a call or branch target and then fall
/// through, or stop the path.
#[derive(Clone, Copy, PartialEq, Eq, Structural, Debug)]
pub enum Flow {
    Advance,
    Jump(u16),
    Call(u16),
    Branch(u16),
    Stop,
}

/// One successfully decoded instruction: the value to store, the cells it
/// covers, and where control goes next.
pub struct Decoded {
    pub instr: Instruction,
    pub size: usize,
    pub flow: Flow,
}

/// How many operand bytes each recognized opcode carries; `None` for an
/// opcode the table does not know.
pub open spec fn spec_operand_len(op: u8) -> Option<usize> {
    match op {
        0x05 => Some(1),
        0x06 => Some(1),
        0x09 => Some(1),
        0x0a => Some(0),
        0x10 => Some(1),
        0x18 => Some(0),
        0x20 => Some(2),
        0x24 => Some(1),
        0x29 => Some(1),
        0x2a => Some(0),
        0x35 => Some(1),
        0x38 => Some(0),
        0x48 => Some(0),
        0x49 => Some(1),
        0x4a => Some(0),
        0x4c => Some(2),
        0x60 => Some(0),
        0x65 => Some(1),
        0x68 => Some(0),
        0x69 => Some(1),
        0x6a => Some(0),
        0x6d => Some(2),
        0x84 => Some(1),
        0x85 => Some(1),
        0x86 => Some(1),
        0x88 => Some(0),
        0x8a => Some(0),
        0x8c => Some(2),
        0x8d => Some(2),
        0x8e => Some(2),
        0x90 => Some(1),
        0x95 => Some(1),
        0x98 => Some(0),
        0x9d => Some(2),
        0xa0 => Some(1),
        0xa2 => Some(1),
        0xa4 => Some(1),
        0xa5 => Some(1),
        0xa6 => Some(1),
        0xa8 => Some(0),
        0xa9 => Some(1),
        0xaa => Some(0),
        0xac => Some(2),
        0xad => Some(2),
        0xae => Some(2),
        0xb0 => Some(1),
        0xb1 => Some(1),
        0xb4 => Some(1),
        0xb9 => Some(2),
        0xbc => Some(2),
        0xbd => Some(2),
        0xc0 => Some(1),
        0xc6 => Some(1),
        0xc8 => Some(0),
        0xc9 => Some(1),
        0xca => Some(0),
        0xce => Some(2),
        0xd0 => Some(1),
        0xe6 => Some(1),
        0xe8 => Some(0),
        0xf0 => Some(1),
        _ => None,
    }
}

/// Whether the decode table recognizes an opcode.
pub open spec fn handled(op: u8) -> bool {
    spec_operand_len(op) is Some
}

/// Looks an opcode up in the table: the number of operand bytes to read, or
/// `None` for an unrecognized opcode (a soft stop for the path).
pub fn operand_len(op: u8) -> (r: Option<usize>)
    ensures
        r == spec_operand_len(op),
        r matches Some(a) ==> a <= 2,
{
    match op {
        0x05 => Some(1),
        0x06 => Some(1),
        0x09 => Some(1),
        0x0a => Some(0),
        0x10 => Some(1),
        0x18 => Some(0),
        0x20 => Some(2),
        0x24 => Some(1),
        0x29 => Some(1),
        0x2a => Some(0),
        0x35 => Some(1),
        0x38 => Some(0),
        0x48 => Some(0),
        0x49 => Some(1),
        0x4a => Some(0),
        0x4c => Some(2),
        0x60 => Some(0),
        0x65 => Some(1),
        0x68 => Some(0),
        0x69 => Some(1),
        0x6a => Some(0),
        0x6d => Some(2),
        0x84 => Some(1),
        0x85 => Some(1),
        0x86 => Some(1),
        0x88 => Some(0),
        0x8a => Some(0),
        0x8c => Some(2),
        0x8d => Some(2),
        0x8e => Some(2),
        0x90 => Some(1),
        0x95 => Some(1),
        0x98 => Some(0),
        0x9d => Some(2),
        0xa0 => Some(1),
        0xa2 => Some(1),
        0xa4 => Some(1),
        0xa5 => Some(1),
        0xa6 => Some(1),
        0xa8 => Some(0),
        0xa9 => Some(1),
        0xaa => Some(0),
        0xac => Some(2),
        0xad => Some(2),
        0xae => Some(2),
        0xb0 => Some(1),
        0xb1 => Some(1),
        0xb4 => Some(1),
        0xb9 => Some(2),
        0xbc => Some(2),
        0xbd => Some(2),
        0xc0 => Some(1),
        0xc6 => Some(1),
        0xc8 => Some(0),
        0xc9 => Some(1),
        0xca => Some(0),
        0xce => Some(2),
        0xd0 => Some(1),
        0xe6 => Some(1),
        0xe8 => Some(0),
        0xf0 => Some(1),
        _ => None,
    }
}

/// Exactly which instruction, size and control flow each opcode decodes to,
/// given its operand bytes, its address, and the caller's label prefix.
pub open spec fn decoded_ok(op: u8, b1: u8, b2: u8, addr: u16, prefix: Seq<char>, d: Decoded) -> bool {
    match op {
        0x05 => d.instr matches Instruction::ORA_ZP(v) && v == b1 && d.size == 2 && d.flow is Advance,
        0x06 => d.instr matches Instruction::ASL_ZP(v) && v == b1 && d.size == 2 && d.flow is Advance,
        0x24 => d.instr matches Instruction::BIT_ZP(v) && v == b1 && d.size == 2 && d.flow is Advance,
        0x65 => d.instr matches Instruction::ADC_ZP(v) && v == b1 && d.size == 2 && d.flow is Advance,
        0x84 => d.instr matches Instruction::STY_ZP(v) && v == b1 && d.size == 2 && d.flow is Advance,
        0x85 => d.instr matches Instruction::STA_ZP(v) && v == b1 && d.size == 2 && d.flow is Advance,
        0x86 => d.instr matches Instruction::STX_ZP(v) && v == b1 && d.size == 2 && d.flow is Advance,
        0xa4 => d.instr matches Instruction::LDY_ZP(v) && v == b1 && d.size == 2 && d.flow is Advance,
        0xa5 => d.instr matches Instruction::LDA_ZP(v) && v == b1 && d.size == 2 && d.flow is Advance,
        0xa6 => d.instr matches Instruction::LDX_ZP(v) && v == b1 && d.size == 2 && d.flow is Advance,
        0xc6 => d.instr matches Instruction::DEC_ZP(v) && v == b1 && d.size == 2 && d.flow is Advance,
        0xe6 => d.instr matches Instruction::INC_ZP(v) && v == b1 && d.size == 2 && d.flow is Advance,
        0x09 => d.instr matches Instruction::ORA_IMM(v) && v == b1 && d.size == 2 && d.flow is Advance,
        0x29 => d.instr matches Instruction::AND_IMM(v) && v == b1 && d.size == 2 && d.flow is Advance,
        0x49 => d.instr matches Instruction::EOR_IMM(v) && v == b1 && d.size == 2 && d.flow is Advance,
        0x69 => d.instr matches Instruction::ADC_IMM(v) && v == b1 && d.size == 2 && d.flow is Advance,
        0xa0 => d.instr matches Instruction::LDY_IMM(v) && v == b1 && d.size == 2 && d.flow is Advance,
        0xa2 => d.instr matches Instruction::LDX_IMM(v) && v == b1 && d.size == 2 && d.flow is Advance,
        0xa9 => d.instr matches Instruction::LDA_IMM(v) && v == b1 && d.size == 2 && d.flow is Advance,
        0xc0 => d.instr matches Instruction::CPY_IMM(v) && v == b1 && d.size == 2 && d.flow is Advance,
        0xc9 => d.instr matches Instruction::CMP_IMM(v) && v == b1 && d.size == 2 && d.flow is Advance,
        0x35 => d.instr matches Instruction::AND_ZP_X(v) && v == b1 && d.size == 2 && d.flow is Advance,
        0x95 => d.instr matches Instruction::STA_ZP_X(v) && v == b1 && d.size == 2 && d.flow is Advance,
        0xb4 => d.instr matches Instruction::LDY_ZP_X(v) && v == b1 && d.size == 2 && d.flow is Advance,
        0xb1 => d.instr matches Instruction::LDA_IND_Y(v) && v == b1 && d.size == 2 && d.flow is Advance,
        0x0a => d.instr is ASL && d.size == 1 && d.flow is Advance,
        0x18 => d.instr is CLC && d.size == 1 && d.flow is Advance,
        0x2a => d.instr is ROL && d.size == 1 && d.flow is Advance,
        0x38 => d.instr is SEC && d.size == 1 && d.flow is Advance,
        0x48 => d.instr is PHA && d.size == 1 && d.flow is Advance,
        0x4a => d.instr is LSR && d.size == 1 && d.flow is Advance,
        0x68 => d.instr is PLA && d.size == 1 && d.flow is Advance,
        0x6a => d.instr is ROR && d.size == 1 && d.flow is Advance,
        0x88 => d.instr is DEY && d.size == 1 && d.flow is Advance,
        0x8a => d.instr is TXA && d.size == 1 && d.flow is Advance,
        0x98 => d.instr is TYA && d.size == 1 && d.flow is Advance,
        0xa8 => d.instr is TAY && d.size == 1 && d.flow is Advance,
        0xaa => d.instr is TAX && d.size == 1 && d.flow is Advance,
        0xc8 => d.instr is INY && d.size == 1 && d.flow is Advance,
        0xca => d.instr is DEX && d.size == 1 && d.flow is Advance,
        0xe8 => d.instr is INX && d.size == 1 && d.flow is Advance,
        0x6d => d.instr matches Instruction::ADC_ABS(w) && w == joint16(b1, b2) && d.size == 3 && d.flow is Advance,
        0x8c => d.instr matches Instruction::STY_ABS(w) && w == joint16(b1, b2) && d.size == 3 && d.flow is Advance,
        0x8d => d.instr matches Instruction::STA_ABS(w) && w == joint16(b1, b2) && d.size == 3 && d.flow is Advance,
        0x8e => d.instr matches Instruction::STX_ABS(w) && w == joint16(b1, b2) && d.size == 3 && d.flow is Advance,
        0x9d => d.instr matches Instruction::STA_ABS_X(w) && w == joint16(b1, b2) && d.size == 3 && d.flow is Advance,
        0xac => d.instr matches Instruction::LDY_ABS(w) && w == joint16(b1, b2) && d.size == 3 && d.flow is Advance,
        0xad => d.instr matches Instruction::LDA_ABS(w) && w == joint16(b1, b2) && d.size == 3 && d.flow is Advance,
        0xae => d.instr matches Instruction::LDX_ABS(w) && w == joint16(b1, b2) && d.size == 3 && d.flow is Advance,
        0xb9 => d.instr matches Instruction::LDA_ABS_Y(w) && w == joint16(b1, b2) && d.size == 3 && d.flow is Advance,
        0xbc => d.instr matches Instruction::LDY_ABS_X(w) && w == joint16(b1, b2) && d.size == 3 && d.flow is Advance,
        0xbd => d.instr matches Instruction::LDA_ABS_X(w) && w == joint16(b1, b2) && d.size == 3 && d.flow is Advance,
        0xce => d.instr matches Instruction::DEC_ABS(w) && w == joint16(b1, b2) && d.size == 3 && d.flow is Advance,
        0x10 => (d.instr matches Instruction::BPL_REL(rel, l) && rel == b1 as i8 && l@ == label_text(prefix, branch_target(addr, b1 as i8)) && d.size == 2 && d.flow == Flow::Branch(branch_target(addr, b1 as i8))),
        0x90 => (d.instr matches Instruction::BCC_REL(rel, l) && rel == b1 as i8 && l@ == label_text(prefix, branch_target(addr, b1 as i8)) && d.size == 2 && d.flow == Flow::Branch(branch_target(addr, b1 as i8))),
        0xb0 => (d.instr matches Instruction::BCS_REL(rel, l) && rel == b1 as i8 && l@ == label_text(prefix, branch_target(addr, b1 as i8)) && d.size == 2 && d.flow == Flow::Branch(branch_target(addr, b1 as i8))),
        0xd0 => (d.instr matches Instruction::BNE_REL(rel, l) && rel == b1 as i8 && l@ == label_text(prefix, branch_target(addr, b1 as i8)) && d.size == 2 && d.flow == Flow::Branch(branch_target(addr, b1 as i8))),
        0xf0 => (d.instr matches Instruction::BEQ_REL(rel, l) && rel == b1 as i8 && l@ == label_text(prefix, branch_target(addr, b1 as i8)) && d.size == 2 && d.flow == Flow::Branch(branch_target(addr, b1 as i8))),
        0x20 => (d.instr matches Instruction::JSR_ABS(w, l) && w == joint16(b1, b2) && l@ == label_text(prefix, joint16(b1, b2)) && d.size == 3 && d.flow == Flow::Call(joint16(b1, b2))),
        0x4c => (d.instr matches Instruction::JMP_ABS(w, l) && w == joint16(b1, b2) && l@ == label_text(prefix, joint16(b1, b2)) && d.size == 3 && d.flow == Flow::Jump(joint16(b1, b2))),
        0x60 => d.instr is RTS && d.size == 1 && d.flow is Stop,
        _ => false,
    }
}

/// Decodes one recognized opcode. The operand bytes beyond the opcode's
/// count are ignored.
pub fn decode_op(op: u8, b1: u8, b2: u8, addr: u16, prefix: &str) -> (d: Decoded)
    requires
        handled(op),
    ensures
        decoded_ok(op, b1, b2, addr, prefix@, d),
        d.size == spec_operand_len(op).unwrap() + 1,
{
    match op {
        0x05 => Decoded { instr: Instruction::ORA_ZP(b1), size: 2, flow: Flow::Advance },
        0x06 => Decoded { instr: Instruction::ASL_ZP(b1), size: 2, flow: Flow::Advance },
        0x09 => Decoded { instr: Instruction::ORA_IMM(b1), size: 2, flow: Flow::Advance },
        0x24 => Decoded { instr: Instruction::BIT_ZP(b1), size: 2, flow: Flow::Advance },
        0x29 => Decoded { instr: Instruction::AND_IMM(b1), size: 2, flow: Flow::Advance },
        0x35 => Decoded { instr: Instruction::AND_ZP_X(b1), size: 2, flow: Flow::Advance },
        0x49 => Decoded { instr: Instruction::EOR_IMM(b1), size: 2, flow: Flow::Advance },
        0x65 => Decoded { instr: Instruction::ADC_ZP(b1), size: 2, flow: Flow::Advance },
        0x69 => Decoded { instr: Instruction::ADC_IMM(b1), size: 2, flow: Flow::Advance },
        0x84 => Decoded { instr: Instruction::STY_ZP(b1), size: 2, flow: Flow::Advance },
        0x85 => Decoded { instr: Instruction::STA_ZP(b1), size: 2, flow: Flow::Advance },
        0x86 => Decoded { instr: Instruction::STX_ZP(b1), size: 2, flow: Flow::Advance },
        0x95 => Decoded { instr: Instruction::STA_ZP_X(b1), size: 2, flow: Flow::Advance },
        0xa0 => Decoded { instr: Instruction::LDY_IMM(b1), size: 2, flow: Flow::Advance },
        0xa2 => Decoded { instr: Instruction::LDX_IMM(b1), size: 2, flow: Flow::Advance },
        0xa4 => Decoded { instr: Instruction::LDY_ZP(b1), size: 2, flow: Flow::Advance },
        0xa5 => Decoded { instr: Instruction::LDA_ZP(b1), size: 2, flow: Flow::Advance },
        0xa6 => Decoded { instr: Instruction::LDX_ZP(b1), size: 2, flow: Flow::Advance },
        0xa9 => Decoded { instr: Instruction::LDA_IMM(b1), size: 2, flow: Flow::Advance },
        0xb1 => Decoded { instr: Instruction::LDA_IND_Y(b1), size: 2, flow: Flow::Advance },
        0xb4 => Decoded { instr: Instruction::LDY_ZP_X(b1), size: 2, flow: Flow::Advance },
        0xc0 => Decoded { instr: Instruction::CPY_IMM(b1), size: 2, flow: Flow::Advance },
        0xc6 => Decoded { instr: Instruction::DEC_ZP(b1), size: 2, flow: Flow::Advance },
        0xc9 => Decoded { instr: Instruction::CMP_IMM(b1), size: 2, flow: Flow::Advance },
        0xe6 => Decoded { instr: Instruction::INC_ZP(b1), size: 2, flow: Flow::Advance },
        0x0a => Decoded { instr: Instruction::ASL, size: 1, flow: Flow::Advance },
        0x18 => Decoded { instr: Instruction::CLC, size: 1, flow: Flow::Advance },
        0x2a => Decoded { instr: Instruction::ROL, size: 1, flow: Flow::Advance },
        0x38 => Decoded { instr: Instruction::SEC, size: 1, flow: Flow::Advance },
        0x48 => Decoded { instr: Instruction::PHA, size: 1, flow: Flow::Advance },
        0x4a => Decoded { instr: Instruction::LSR, size: 1, flow: Flow::Advance },
        0x68 => Decoded { instr: Instruction::PLA, size: 1, flow: Flow::Advance },
        0x6a => Decoded { instr: Instruction::ROR, size: 1, flow: Flow::Advance },
        0x88 => Decoded { instr: Instruction::DEY, size: 1, flow: Flow::Advance },
        0x8a => Decoded { instr: Instruction::TXA, size: 1, flow: Flow::Advance },
        0x98 => Decoded { instr: Instruction::TYA, size: 1, flow: Flow::Advance },
        0xa8 => Decoded { instr: Instruction::TAY, size: 1, flow: Flow::Advance },
        0xaa => Decoded { instr: Instruction::TAX, size: 1, flow: Flow::Advance },
        0xc8 => Decoded { instr: Instruction::INY, size: 1, flow: Flow::Advance },
        0xca => Decoded { instr: Instruction::DEX, size: 1, flow: Flow::Advance },
        0xe8 => Decoded { instr: Instruction::INX, size: 1, flow: Flow::Advance },
        0x6d => Decoded { instr: Instruction::ADC_ABS(join_u16(b1, b2)), size: 3, flow: Flow::Advance },
        0x8c => Decoded { instr: Instruction::STY_ABS(join_u16(b1, b2)), size: 3, flow: Flow::Advance },
        0x8d => Decoded { instr: Instruction::STA_ABS(join_u16(b1, b2)), size: 3, flow: Flow::Advance },
        0x8e => Decoded { instr: Instruction::STX_ABS(join_u16(b1, b2)), size: 3, flow: Flow::Advance },
        0x9d => Decoded { instr: Instruction::STA_ABS_X(join_u16(b1, b2)), size: 3, flow: Flow::Advance },
        0xac => Decoded { instr: Instruction::LDY_ABS(join_u16(b1, b2)), size: 3, flow: Flow::Advance },
        0xad => Decoded { instr: Instruction::LDA_ABS(join_u16(b1, b2)), size: 3, flow: Flow::Advance },
        0xae => Decoded { instr: Instruction::LDX_ABS(join_u16(b1, b2)), size: 3, flow: Flow::Advance },
        0xb9 => Decoded { instr: Instruction::LDA_ABS_Y(join_u16(b1, b2)), size: 3, flow: Flow::Advance },
        0xbc => Decoded { instr: Instruction::LDY_ABS_X(join_u16(b1, b2)), size: 3, flow: Flow::Advance },
        0xbd => Decoded { instr: Instruction::LDA_ABS_X(join_u16(b1, b2)), size: 3, flow: Flow::Advance },
        0xce => Decoded { instr: Instruction::DEC_ABS(join_u16(b1, b2)), size: 3, flow: Flow::Advance },
        0x10 => {
            let rel = b1 as i8;
            let t = branch_target_exec(addr, rel);
            Decoded { instr: Instruction::BPL_REL(rel, label_string(prefix, t)), size: 2, flow: Flow::Branch(t) }
        },
        0x90 => {
            let rel = b1 as i8;
            let t = branch_target_exec(addr, rel);
            Decoded { instr: Instruction::BCC_REL(rel, label_string(prefix, t)), size: 2, flow: Flow::Branch(t) }
        },
        0xb0 => {
            let rel = b1 as i8;
            let t = branch_target_exec(addr, rel);
            Decoded { instr: Instruction::BCS_REL(rel, label_string(prefix, t)), size: 2, flow: Flow::Branch(t) }
        },
        0xd0 => {
            let rel = b1 as i8;
            let t = branch_target_exec(addr, rel);
            Decoded { instr: Instruction::BNE_REL(rel, label_string(prefix, t)), size: 2, flow: Flow::Branch(t) }
        },
        0xf0 => {
            let rel = b1 as i8;
            let t = branch_target_exec(addr, rel);
            Decoded { instr: Instruction::BEQ_REL(rel, label_string(prefix, t)), size: 2, flow: Flow::Branch(t) }
        },
        0x20 => {
            let t = join_u16(b1, b2);
            Decoded { instr: Instruction::JSR_ABS(t, label_string(prefix, t)), size: 3, flow: Flow::Call(t) }
        },
        0x4c => {
            let t = join_u16(b1, b2);
            Decoded { instr: Instruction::JMP_ABS(t, label_string(prefix, t)), size: 3, flow: Flow::Jump(t) }
        },
        0x60 => Decoded { instr: Instruction::RTS, size: 1, flow: Flow::Stop },
        _ => {
            // excluded by the precondition
            proof {
                assert(false);
            }
            Decoded { instr: Instruction::JAM, size: 1, flow: Flow::Stop }
        },
    }
}

/// A decode error annotated with the offset it happened at and the address
/// that offset maps to.
pub open spec fn at_location_text(inner: Seq<char>, offset: int, addr: int) -> Seq<char> {
    inner + " at offset $"@ + hex_min4(offset) + " (addr $"@ + hex_min4(addr) + ")"@
}

fn wrap_at(inner: DisassembleError, offset: usize, mapping: &AddrMapping) -> (r: DisassembleError)
    requires
        mapping.wf(),
        offset < 0x2_0000_0000,
    ensures
        (r matches DisassembleError::WrappedError(m) && m@ == at_location_text(
            error_message(inner),
            offset as int,
            map_offset_to_addr(*mapping, offset as int),
        )),
{
    let addr = mapping.offset_to_addr(offset);
    let mut s = inner.message().clone();
    s.append(" at offset $");
    append_hex_min4(&mut s, offset);
    s.append(" (addr $");
    append_hex4_lower(&mut s, addr);
    s.append(")");
    proof {
        assert(map_offset_to_addr(*mapping, offset as int) < 0x10000);
        assert(s@ =~= at_location_text(
            error_message(inner),
            offset as int,
            map_offset_to_addr(*mapping, offset as int),
        ));
    }
    DisassembleError::WrappedError(s)
}

fn oob_error(offset: usize, mapping: &AddrMapping) -> (r: DisassembleError)
    requires
        mapping.wf(),
        offset < 0x2_0000_0000,
    ensures
        (r matches DisassembleError::WrappedError(m) && m@ == at_location_text(
            "offset out of range"@,
            offset as int,
            map_offset_to_addr(*mapping, offset as int),
        )),
{
    wrap_at(
        DisassembleError::ParseError(String::from_str("offset out of range")),
        offset,
        mapping,
    )
}

fn unmappable_error(a: u16) -> (r: DisassembleError)
    ensures
        (r matches DisassembleError::WrappedError(m) && m@ == "unmappable address $"@
            + hex4_lower(a)),
{
    let mut s = String::from_str("unmappable address $");
    append_hex4_lower(&mut s, a);
    DisassembleError::WrappedError(s)
}

/// How a traversal may change the store, and no more: the same cells, each
/// either untouched but for its label, or a byte reclassified into an
/// instruction keeping its annotations, or a byte consumed into a bare
/// tombstone. A decoded instruction is never touched again.
pub open spec fn engine_preserves(oldc: Seq<Statement>, cur: Seq<Statement>) -> bool {
    &&& cur.len() == oldc.len()
    &&& forall|i: int| 0 <= i < oldc.len() ==> (((#[trigger] cur[i]).comment == oldc[i].comment
        && cur[i].segment == oldc[i].segment) || (cur[i].asm_code is Used && cur[i].comment
        is None && cur[i].segment is None))
    &&& forall|i: int| 0 <= i < oldc.len() && (#[trigger] oldc[i]).asm_code is Instruction
        ==> cur[i].asm_code == oldc[i].asm_code
    &&& forall|i: int| 0 <= i < oldc.len() ==> ((#[trigger] cur[i]).asm_code == oldc[i].asm_code
        || (as_byte(oldc[i].asm_code) is Some && (cur[i].asm_code is Instruction
            || cur[i].asm_code is Used)))
}

/// Tombstones are permanently terminal: a traversal never reclassifies a
/// consumed cell, and never touches a decoded instruction again.
pub proof fn lemma_tombstones_terminal(oldc: Seq<Statement>, cur: Seq<Statement>, i: int)
    requires
        engine_preserves(oldc, cur),
        0 <= i < oldc.len(),
    ensures
        oldc[i].asm_code is Used ==> cur[i].asm_code is Used,
        oldc[i].asm_code is Instruction ==> cur[i].asm_code == oldc[i].asm_code,
{
}

/// The operand byte `k` cells past an opcode, read from the original store;
/// zero where the opcode takes fewer operand bytes.
pub open spec fn operand_byte(oldc: Seq<Statement>, i: int, k: int, alen: int) -> u8 {
    if alen >= k && 0 <= i + k < oldc.len() && as_byte(oldc[i + k].asm_code) is Some {
        as_byte(oldc[i + k].asm_code).unwrap()
    } else {
        0
    }
}

/// The instruction at `i` is exactly what the decode table yields at address
/// `a`, under `prefix`, for the original opcode and operand bytes at `i`.
pub open spec fn installed_at_address(
    oldc: Seq<Statement>,
    i: int,
    a: u16,
    prefix: Seq<char>,
    ins: Instruction,
) -> bool {
    &&& 0 <= i < oldc.len()
    &&& as_byte(oldc[i].asm_code) is Some
    &&& handled(as_byte(oldc[i].asm_code).unwrap())
    &&& {
        let op = as_byte(oldc[i].asm_code).unwrap();
        let alen = spec_operand_len(op).unwrap() as int;
        &&& (alen >= 1 ==> i + 1 < oldc.len() && as_byte(oldc[i + 1].asm_code) is Some)
        &&& (alen >= 2 ==> i + 2 < oldc.len() && as_byte(oldc[i + 2].asm_code) is Some)
        &&& exists|d: Decoded|
            (#[trigger] d.instr) == ins && decoded_ok(
                op,
                operand_byte(oldc, i, 1, alen),
                operand_byte(oldc, i, 2, alen),
                a,
                prefix,
                d,
            )
    }
}

/// As `installed_at_address`, at some address.
pub open spec fn installed_from_table(
    oldc: Seq<Statement>,
    i: int,
    prefix: Seq<char>,
    ins: Instruction,
) -> bool {
    exists|a: u16| #[trigger] installed_at_address(oldc, i, a, prefix, ins)
}

/// Every cell a traversal decoded holds exactly what the decode table yields
/// for the original bytes at its offset, under the traversal's label prefix.
pub open spec fn table_decoded(oldc: Seq<Statement>, cur: Seq<Statement>, prefix: Seq<char>) -> bool {
    forall|i: int|
        0 <= i < cur.len() && (#[trigger] cur[i]).asm_code is Instruction && !(0 <= i < oldc.len()
            && oldc[i].asm_code is Instruction) ==> (cur[i].asm_code matches AsmCode::Instruction(
            ins,
        ) && installed_from_table(oldc, i, prefix, ins))
}

/// The entry cell holds exactly what the decode table yields for the entry
/// address itself.
pub open spec fn entry_installed(
    oldc: Seq<Statement>,
    cur: Seq<Statement>,
    o: int,
    a: u16,
    prefix: Seq<char>,
) -> bool {
    0 <= o < cur.len() && (cur[o].asm_code matches AsmCode::Instruction(ins)
        && installed_at_address(oldc, o, a, prefix, ins))
}

/// The label a decoded control transfer carries, if it is one.
pub open spec fn transfer_label(ins: Instruction) -> Option<Seq<char>> {
    match ins {
        Instruction::JSR_ABS(_, l) => Some(l@),
        Instruction::JMP_ABS(_, l) => Some(l@),
        Instruction::BPL_REL(_, l) => Some(l@),
        Instruction::BMI_REL(_, l) => Some(l@),
        Instruction::BCC_REL(_, l) => Some(l@),
        Instruction::BCS_REL(_, l) => Some(l@),
        Instruction::BNE_REL(_, l) => Some(l@),
        Instruction::BEQ_REL(_, l) => Some(l@),
        _ => None,
    }
}

/// An absolute control transfer (a call or a jump), with its target address
/// and its label text.
pub open spec fn abs_transfer(c: AsmCode) -> Option<(u16, Seq<char>)> {
    match c {
        AsmCode::Instruction(Instruction::JSR_ABS(w, l)) => Some((w, l@)),
        AsmCode::Instruction(Instruction::JMP_ABS(w, l)) => Some((w, l@)),
        _ => None,
    }
}

/// Whatever the decode table yields, a control transfer's label is the label
/// text of its resolved target; for calls and jumps that target is the
/// instruction's own address word.
proof fn lemma_decoded_transfer_label(
    op: u8,
    b1: u8,
    b2: u8,
    a: u16,
    prefix: Seq<char>,
    d: Decoded,
)
    requires
        decoded_ok(op, b1, b2, a, prefix, d),
    ensures
        transfer_label(d.instr) matches Some(l) ==> exists|t: u16| l == #[trigger] label_text(
            prefix,
            t,
        ),
        d.instr matches Instruction::JSR_ABS(w, l2) ==> l2@ == label_text(prefix, w),
        d.instr matches Instruction::JMP_ABS(w, l2) ==> l2@ == label_text(prefix, w),
{
    if transfer_label(d.instr) is Some {
        match d.instr {
            Instruction::JSR_ABS(w, _) => {
                assert(transfer_label(d.instr).unwrap() == label_text(prefix, w));
            },
            Instruction::JMP_ABS(w, _) => {
                assert(transfer_label(d.instr).unwrap() == label_text(prefix, w));
            },
            _ => {
                assert(transfer_label(d.instr).unwrap() == label_text(
                    prefix,
                    branch_target(a, b1 as i8),
                ));
            },
        }
    }
}

/// Every control transfer a traversal installed carries the label text of
/// its resolved target under the traversal's prefix; for calls and jumps
/// that is the stored target address's text outright.
pub proof fn lemma_installed_transfer_label(
    oldc: Seq<Statement>,
    cur: Seq<Statement>,
    prefix: Seq<char>,
    i: int,
)
    requires
        table_decoded(oldc, cur, prefix),
        0 <= i < cur.len(),
        cur[i].asm_code is Instruction,
        !(0 <= i < oldc.len() && oldc[i].asm_code is Instruction),
    ensures
        (cur[i].asm_code matches AsmCode::Instruction(ins) && (
        transfer_label(ins) matches Some(l) ==> exists|t: u16| l == #[trigger] label_text(
            prefix,
            t,
        ))),
        abs_transfer(cur[i].asm_code) matches Some(wl) ==> wl.1 == label_text(prefix, wl.0),
{
    let ins = cur[i].asm_code->Instruction_0;
    assert(installed_from_table(oldc, i, prefix, ins));
    let a = choose|a: u16| installed_at_address(oldc, i, a, prefix, ins);
    let op = as_byte(oldc[i].asm_code).unwrap();
    let alen = spec_operand_len(op).unwrap() as int;
    let d = choose|d: Decoded|
        (#[trigger] d.instr) == ins && decoded_ok(
            op,
            operand_byte(oldc, i, 1, alen),
            operand_byte(oldc, i, 2, alen),
            a,
            prefix,
            d,
        );
    lemma_decoded_transfer_label(
        op,
        operand_byte(oldc, i, 1, alen),
        operand_byte(oldc, i, 2, alen),
        a,
        prefix,
        d,
    );
}

/// Two calls or jumps a traversal installed under one prefix that resolve
/// the same target address carry byte-for-byte identical label text; a
/// relative branch's label is likewise a pure function of the prefix and its
/// resolved target (`lemma_installed_transfer_label` with
/// `lemma_label_text_deterministic`).
pub proof fn lemma_equal_targets_equal_labels(
    oldc: Seq<Statement>,
    cur: Seq<Statement>,
    prefix: Seq<char>,
    i: int,
    j: int,
)
    requires
        table_decoded(oldc, cur, prefix),
        oldc.len() == cur.len(),
        0 <= i < cur.len(),
        0 <= j < cur.len(),
        !(oldc[i].asm_code is Instruction),
        !(oldc[j].asm_code is Instruction),
        abs_transfer(cur[i].asm_code) is Some,
        abs_transfer(cur[j].asm_code) is Some,
        abs_transfer(cur[i].asm_code).unwrap().0 == abs_transfer(cur[j].asm_code).unwrap().0,
    ensures
        abs_transfer(cur[i].asm_code).unwrap().1 == abs_transfer(cur[j].asm_code).unwrap().1,
{
    lemma_installed_transfer_label(oldc, cur, prefix, i);
    lemma_installed_transfer_label(oldc, cur, prefix, j);
}

/// Byte-like cells are original: no pass rewrites a byte that is still
/// undecoded and unconsumed.
pub open spec fn bytes_stable(oldc: Seq<Statement>, cur: Seq<Statement>) -> bool {
    &&& cur.len() == oldc.len()
    &&& forall|i: int| 0 <= i < cur.len() && as_byte((#[trigger] cur[i]).asm_code) is Some
        ==> cur[i].asm_code == oldc[i].asm_code
}

/// What a traversal preserves implies byte stability.
pub proof fn lemma_preserves_bytes_stable(oldc: Seq<Statement>, cur: Seq<Statement>)
    requires
        engine_preserves(oldc, cur),
    ensures
        bytes_stable(oldc, cur),
{
}

pub proof fn lemma_bytes_stable_trans(a: Seq<Statement>, b: Seq<Statement>, c: Seq<Statement>)
    requires
        bytes_stable(a, b),
        bytes_stable(b, c),
    ensures
        bytes_stable(a, c),
{
}

/// Where control goes after an opcode, per the decode table.
pub open spec fn spec_flow(op: u8, b1: u8, b2: u8, a: u16) -> Flow {
    if op == 0x20 {
        Flow::Call(joint16(b1, b2))
    } else if op == 0x4c {
        Flow::Jump(joint16(b1, b2))
    } else if op == 0x60 {
        Flow::Stop
    } else if op == 0x10 || op == 0x90 || op == 0xb0 || op == 0xd0 || op == 0xf0 {
        Flow::Branch(branch_target(a, b1 as i8))
    } else {
        Flow::Advance
    }
}

/// The decode table's flow is `spec_flow`.
proof fn lemma_decoded_flow(op: u8, b1: u8, b2: u8, a: u16, prefix: Seq<char>, d: Decoded)
    requires
        decoded_ok(op, b1, b2, a, prefix, d),
    ensures
        d.flow == spec_flow(op, b1, b2, a),
        d.size == spec_operand_len(op).unwrap() + 1,
        handled(op),
{
}

/// Whether a location reads as an instruction during a traversal that has
/// already decoded the heads in `d`.
pub open spec fn run_cell_is_instr(oldc: Seq<Statement>, d: Set<int>, i: int) -> bool {
    (0 <= i < oldc.len() && oldc[i].asm_code is Instruction) || d.contains(i)
}

/// The byte a location yields during a traversal that has decoded the heads
/// in `d` and consumed the operand cells in `u`: none once decoded or
/// consumed, else whatever the original cell holds.
pub open spec fn run_cell_byte(oldc: Seq<Statement>, d: Set<int>, u: Set<int>, i: int) -> Option<
    u8,
> {
    if d.contains(i) || u.contains(i) {
        None
    } else {
        as_byte(oldc[i].asm_code)
    }
}

/// An address advanced within the 16-bit window.
pub open spec fn addr_plus(a: u16, size: int) -> u16 {
    (((a as int) + size) % 0x10000) as u16
}

/// How a traversal ends: the sets of decoded heads and consumed operand
/// cells, or the first fault — a read of a consumed or non-byte cell, a
/// position outside the store, or an address outside the mapped window.
pub enum RunOutcome {
    Done(Set<int>, Set<int>),
    ReadFault(int),
    RangeFault(int),
    Unmappable(u16),
}

/// Takes the next pending work item, if any.
#[verifier::opaque]
pub open spec fn run_stack(
    oldc: Seq<Statement>,
    d: Set<int>,
    u: Set<int>,
    stack: Seq<(int, u16)>,
    mp: AddrMapping,
    fuel: nat,
) -> RunOutcome
    decreases fuel, stack.len(), 0int,
{
    if stack.len() == 0 {
        RunOutcome::Done(d, u)
    } else {
        run_walk(oldc, d, u, stack.drop_last(), stack.last().0, stack.last().1, mp, fuel)
    }
}

/// Walks one straight-line path, exactly as the traversal does: stop at a
/// decoded cell, fault on a consumed or missing byte, stop softly on an
/// unrecognized opcode, else decode and follow the instruction's flow.
#[verifier::opaque]
pub open spec fn run_walk(
    oldc: Seq<Statement>,
    d: Set<int>,
    u: Set<int>,
    stack: Seq<(int, u16)>,
    offset: int,
    a: u16,
    mp: AddrMapping,
    fuel: nat,
) -> RunOutcome
    decreases fuel, stack.len(), 1int,
{
    if offset < 0 || offset >= oldc.len() {
        RunOutcome::RangeFault(offset)
    } else if run_cell_is_instr(oldc, d, offset) {
        run_stack(oldc, d, u, stack, mp, fuel)
    } else {
        match run_cell_byte(oldc, d, u, offset) {
            None => RunOutcome::ReadFault(offset),
            Some(op) => {
                match spec_operand_len(op) {
                    None => run_stack(oldc, d, u, stack, mp, fuel),
                    Some(alen0) => {
                        let alen = alen0 as int;
                        if alen >= 1 && offset + 1 >= oldc.len() {
                            RunOutcome::RangeFault(offset + 1)
                        } else if alen >= 2 && offset + 2 >= oldc.len() {
                            RunOutcome::RangeFault(offset + 2)
                        } else if alen >= 1 && run_cell_byte(oldc, d, u, offset + 1) is None {
                            RunOutcome::ReadFault(offset + 1)
                        } else if alen >= 2 && run_cell_byte(oldc, d, u, offset + 2) is None {
                            RunOutcome::ReadFault(offset + 2)
                        } else if fuel == 0 {
                            RunOutcome::ReadFault(offset)
                        } else {
                            let b1 = if alen >= 1 {
                                run_cell_byte(oldc, d, u, offset + 1).unwrap()
                            } else {
                                0
                            };
                            let b2 = if alen >= 2 {
                                run_cell_byte(oldc, d, u, offset + 2).unwrap()
                            } else {
                                0
                            };
                            let d2 = d.insert(offset);
                            let u2 = if alen >= 2 {
                                u.insert(offset + 1).insert(offset + 2)
                            } else if alen >= 1 {
                                u.insert(offset + 1)
                            } else {
                                u
                            };
                            let size = alen + 1;
                            match spec_flow(op, b1, b2, a) {
                                Flow::Advance => run_walk(
                                    oldc,
                                    d2,
                                    u2,
                                    stack,
                                    offset + size,
                                    addr_plus(a, size),
                                    mp,
                                    (fuel - 1) as nat,
                                ),
                                Flow::Jump(t) => match map_addr_to_offset(mp, t) {
                                    None => RunOutcome::Unmappable(t),
                                    Some(o2) => if o2 >= oldc.len() {
                                        RunOutcome::RangeFault(o2)
                                    } else {
                                        run_stack(
                                            oldc,
                                            d2,
                                            u2,
                                            stack.push((o2, t)),
                                            mp,
                                            (fuel - 1) as nat,
                                        )
                                    },
                                },
                                Flow::Call(t) => match map_addr_to_offset(mp, t) {
                                    None => RunOutcome::Unmappable(t),
                                    Some(o2) => if o2 >= oldc.len() {
                                        RunOutcome::RangeFault(o2)
                                    } else {
                                        run_stack(
                                            oldc,
                                            d2,
                                            u2,
                                            stack.push(
                                                (offset + size, addr_plus(a, size)),
                                            ).push((o2, t)),
                                            mp,
                                            (fuel - 1) as nat,
                                        )
                                    },
                                },
                                Flow::Branch(t) => match map_addr_to_offset(mp, t) {
                                    None => RunOutcome::Unmappable(t),
                                    Some(o2) => if o2 >= oldc.len() {
                                        RunOutcome::RangeFault(o2)
                                    } else {
                                        run_stack(
                                            oldc,
                                            d2,
                                            u2,
                                            stack.push(
                                                (offset + size, addr_plus(a, size)),
                                            ).push((o2, t)),
                                            mp,
                                            (fuel - 1) as nat,
                                        )
                                    },
                                },
                                Flow::Stop => run_stack(oldc, d2, u2, stack, mp, (fuel - 1) as nat),
                            }
                        }
                    },
                }
            },
        }
    }
}

/// One whole traversal of a store from a mapped entry, with fuel enough for
/// every decodable cell.
pub open spec fn spec_run(oldc: Seq<Statement>, o0: int, a: u16, mp: AddrMapping) -> RunOutcome {
    run_walk(
        oldc,
        Set::empty(),
        Set::empty(),
        Seq::empty(),
        o0,
        a,
        mp,
        count_non_instr(oldc),
    )
}

/// How the store realizes a traversal's abstract state: heads in `d` are
/// decoded, cells in `u` are consumed, and every other cell keeps its
/// original classification.
pub open spec fn corresponds(
    oldc: Seq<Statement>,
    cur: Seq<Statement>,
    d: Set<int>,
    u: Set<int>,
) -> bool {
    &&& cur.len() == oldc.len()
    &&& forall|i: int| d.contains(i) ==> 0 <= i < cur.len() && (#[trigger] cur[i]).asm_code
        is Instruction && !(oldc[i].asm_code is Instruction)
    &&& forall|i: int| u.contains(i) ==> 0 <= i < cur.len() && (#[trigger] cur[i]).asm_code is Used
        && as_byte(oldc[i].asm_code) is Some
    &&& forall|i: int| 0 <= i < cur.len() && !d.contains(i) && !u.contains(i) ==> (
    #[trigger] cur[i]).asm_code == oldc[i].asm_code
}

/// A store changed only by attaching the entry label at `o`.
pub open spec fn only_label_set(
    oldc: Seq<Statement>,
    cur: Seq<Statement>,
    o: int,
    prefix: Seq<char>,
    name: Seq<char>,
) -> bool {
    &&& cur.len() == oldc.len()
    &&& 0 <= o < oldc.len()
    &&& forall|i: int| 0 <= i < oldc.len() && i != o ==> cur[i] == #[trigger] oldc[i]
    &&& cur[o].asm_code == oldc[o].asm_code
    &&& cur[o].comment == oldc[o].comment
    &&& cur[o].segment == oldc[o].segment
    &&& (cur[o].label matches Some(l) && l@ == entry_label_text(prefix, name))
}

/// Changing only annotations of one cell keeps the traversal's preservation
/// relation and its decode-table consistency.
proof fn lemma_preserves_annotate(
    oldc: Seq<Statement>,
    pre: Seq<Statement>,
    post: Seq<Statement>,
    o: int,
    prefix: Seq<char>,
)
    requires
        engine_preserves(oldc, pre),
        table_decoded(oldc, pre, prefix),
        post.len() == pre.len(),
        0 <= o < pre.len(),
        forall|i: int| 0 <= i < pre.len() && i != o ==> post[i] == #[trigger] pre[i],
        post[o].asm_code == pre[o].asm_code,
        post[o].comment == pre[o].comment,
        post[o].segment == pre[o].segment,
    ensures
        engine_preserves(oldc, post),
        table_decoded(oldc, post, prefix),
{
    assert forall|i: int|
        0 <= i < post.len() && (#[trigger] post[i]).asm_code is Instruction && !(0 <= i
            < oldc.len() && oldc[i].asm_code is Instruction) implies (
    post[i].asm_code matches AsmCode::Instruction(ins) && installed_from_table(
        oldc,
        i,
        prefix,
        ins,
    )) by {
        assert(post[i].asm_code == pre[i].asm_code);
    }
}

/// Classifying byte-like cells into one table-consistent instruction head
/// plus tombstones keeps the preservation relation and its decode-table
/// consistency.
proof fn lemma_preserves_classify(
    oldc: Seq<Statement>,
    pre: Seq<Statement>,
    post: Seq<Statement>,
    offset: int,
    alen: int,
    prefix: Seq<char>,
    ins: Instruction,
)
    requires
        engine_preserves(oldc, pre),
        table_decoded(oldc, pre, prefix),
        post.len() == pre.len(),
        0 <= offset,
        0 <= alen,
        offset + alen < pre.len(),
        as_byte(pre[offset].asm_code) is Some,
        forall|k: int| offset < k <= offset + alen ==> as_byte((#[trigger] pre[k]).asm_code)
            is Some,
        forall|i: int| 0 <= i < pre.len() && !(offset <= i <= offset + alen) ==> post[i] == (
        #[trigger] pre[i]),
        forall|k: int| offset < k <= offset + alen ==> #[trigger] post[k] == used_stmt(),
        post[offset].asm_code == AsmCode::Instruction(ins),
        installed_from_table(oldc, offset, prefix, ins),
        post[offset].comment == pre[offset].comment,
        post[offset].segment == pre[offset].segment,
    ensures
        engine_preserves(oldc, post),
        table_decoded(oldc, post, prefix),
        forall|i: int| 0 <= i < pre.len() && (#[trigger] pre[i]).asm_code is Instruction
            ==> post[i].asm_code == pre[i].asm_code,
{
    assert forall|i: int| 0 <= i < oldc.len() && offset <= i <= offset + alen implies as_byte(
        (#[trigger] oldc[i]).asm_code,
    ) is Some by {
        assert(as_byte(pre[i].asm_code) is Some);
        assert(!(pre[i].asm_code is Instruction) && !(pre[i].asm_code is Used));
        assert(pre[i].asm_code == oldc[i].asm_code);
    }
    assert forall|i: int| 0 <= i < pre.len() && (#[trigger] pre[i]).asm_code is Instruction
        implies post[i].asm_code == pre[i].asm_code by {
        if offset <= i <= offset + alen {
            assert(as_byte(pre[i].asm_code) is Some);
        }
    }
    assert forall|i: int| 0 <= i < oldc.len() implies (((#[trigger] post[i]).comment
        == oldc[i].comment && post[i].segment == oldc[i].segment) || (post[i].asm_code is Used
        && post[i].comment is None && post[i].segment is None)) by {
        if offset <= i <= offset + alen {
            if i == offset {
                assert(post[i].comment == pre[i].comment);
                assert(post[i].segment == pre[i].segment);
                assert(!(pre[i].asm_code is Used));
            } else {
                assert(post[i] == used_stmt());
            }
        } else {
            assert(post[i] == pre[i]);
        }
    }
    assert forall|i: int| 0 <= i < oldc.len() && (#[trigger] oldc[i]).asm_code is Instruction
        implies post[i].asm_code == oldc[i].asm_code by {
        assert(pre[i].asm_code == oldc[i].asm_code);
        assert(!(offset <= i <= offset + alen));
    }
    assert forall|i: int| 0 <= i < oldc.len() implies ((#[trigger] post[i]).asm_code
        == oldc[i].asm_code || (as_byte(oldc[i].asm_code) is Some && (post[i].asm_code
        is Instruction || post[i].asm_code is Used))) by {
        if offset <= i <= offset + alen {
            assert(as_byte(oldc[i].asm_code) is Some);
            if i != offset {
                assert(post[i] == used_stmt());
            }
        } else {
            assert(post[i] == pre[i]);
        }
    }
    assert forall|i: int|
        0 <= i < post.len() && (#[trigger] post[i]).asm_code is Instruction && !(0 <= i
            < oldc.len() && oldc[i].asm_code is Instruction) implies (
    post[i].asm_code matches AsmCode::Instruction(ins2) && installed_from_table(
        oldc,
        i,
        prefix,
        ins2,
    )) by {
        if i == offset {
        } else if offset < i <= offset + alen {
            assert(post[i] == used_stmt());
        } else {
            assert(post[i].asm_code == pre[i].asm_code);
        }
    }
}

/// How many cells do not yet hold a decoded instruction: the traversal's
/// termination measure, strictly shrunk by every decode.
pub open spec fn count_non_instr(cells: Seq<Statement>) -> nat
    decreases cells.len(),
{
    if cells.len() == 0 {
        0
    } else {
        count_non_instr(cells.drop_last()) + (if cells.last().asm_code is Instruction {
            0nat
        } else {
            1nat
        })
    }
}

proof fn lemma_count_le(pre: Seq<Statement>, post: Seq<Statement>)
    requires
        pre.len() == post.len(),
        forall|i: int| 0 <= i < pre.len() && (#[trigger] pre[i]).asm_code is Instruction
            ==> post[i].asm_code is Instruction,
    ensures
        count_non_instr(post) <= count_non_instr(pre),
    decreases pre.len(),
{
    if pre.len() > 0 {
        assert(forall|i: int| 0 <= i < pre.len() - 1 ==> (#[trigger] pre.drop_last()[i])
            == pre[i] && post.drop_last()[i] == post[i]);
        lemma_count_le(pre.drop_last(), post.drop_last());
        assert(pre.last() == pre[pre.len() - 1]);
        assert(post.last() == post[pre.len() - 1]);
    }
}

proof fn lemma_count_lt(pre: Seq<Statement>, post: Seq<Statement>, j: int)
    requires
        pre.len() == post.len(),
        forall|i: int| 0 <= i < pre.len() && (#[trigger] pre[i]).asm_code is Instruction
            ==> post[i].asm_code is Instruction,
        0 <= j < pre.len(),
        !(pre[j].asm_code is Instruction),
        post[j].asm_code is Instruction,
    ensures
        count_non_instr(post) < count_non_instr(pre),
    decreases pre.len(),
{
    assert(forall|i: int| 0 <= i < pre.len() - 1 ==> (#[trigger] pre.drop_last()[i]) == pre[i]
        && post.drop_last()[i] == post[i]);
    if j == pre.len() - 1 {
        lemma_count_le(pre.drop_last(), post.drop_last());
        assert(pre.last() == pre[j]);
        assert(post.last() == post[j]);
    } else {
        lemma_count_lt(pre.drop_last(), post.drop_last(), j);
        assert(pre.last() == pre[pre.len() - 1]);
        assert(post.last() == post[pre.len() - 1]);
    }
}

proof fn lemma_count_same(pre: Seq<Statement>, post: Seq<Statement>)
    requires
        pre.len() == post.len(),
        forall|i: int| 0 <= i < pre.len() ==> (#[trigger] post[i]).asm_code == pre[i].asm_code,
    ensures
        count_non_instr(post) == count_non_instr(pre),
{
    lemma_count_le(pre, post);
    lemma_count_le(post, pre);
}

proof fn lemma_count_dec_one(pre: Seq<Statement>, post: Seq<Statement>, i: int)
    requires
        pre.len() == post.len(),
        forall|j: int| 0 <= j < pre.len() && j != i ==> ((#[trigger] post[j]).asm_code
            is Instruction <==> pre[j].asm_code is Instruction),
        0 <= i < pre.len(),
        !(pre[i].asm_code is Instruction),
        post[i].asm_code is Instruction,
    ensures
        count_non_instr(post) + 1 == count_non_instr(pre),
    decreases pre.len(),
{
    assert(forall|j: int| 0 <= j < pre.len() - 1 ==> (#[trigger] pre.drop_last()[j]) == pre[j]
        && post.drop_last()[j] == post[j]);
    if i == pre.len() - 1 {
        lemma_count_same_instrness(pre.drop_last(), post.drop_last());
        assert(pre.last() == pre[i]);
        assert(post.last() == post[i]);
    } else {
        lemma_count_dec_one(pre.drop_last(), post.drop_last(), i);
        assert(pre.last() == pre[pre.len() - 1]);
        assert(post.last() == post[pre.len() - 1]);
    }
}

proof fn lemma_count_same_instrness(pre: Seq<Statement>, post: Seq<Statement>)
    requires
        pre.len() == post.len(),
        forall|j: int| 0 <= j < pre.len() ==> ((#[trigger] post[j]).asm_code is Instruction
            <==> pre[j].asm_code is Instruction),
    ensures
        count_non_instr(post) == count_non_instr(pre),
    decreases pre.len(),
{
    if pre.len() > 0 {
        assert(forall|j: int| 0 <= j < pre.len() - 1 ==> (#[trigger] pre.drop_last()[j]) == pre[j]
            && post.drop_last()[j] == post[j]);
        lemma_count_same_instrness(pre.drop_last(), post.drop_last());
        assert(pre.last() == pre[pre.len() - 1]);
        assert(post.last() == post[pre.len() - 1]);
    }
}

proof fn lemma_count_pos(cells: Seq<Statement>, i: int)
    requires
        0 <= i < cells.len(),
        !(cells[i].asm_code is Instruction),
    ensures
        count_non_instr(cells) >= 1,
    decreases cells.len(),
{
    if i == cells.len() - 1 {
        assert(cells.last() == cells[i]);
    } else {
        assert(cells.drop_last()[i] == cells[i]);
        lemma_count_pos(cells.drop_last(), i);
    }
}

/// The abstract view of the pending work: positions and addresses alone.
pub open spec fn abs_stack(s: Seq<WorkItem>) -> Seq<(int, u16)> {
    s.map_values(|it: WorkItem| (it.offset as int, it.addr))
}

/// Every label a traversal leaves behind is the cell's original label, gone
/// with a consumed cell, the entry's own label, or the label of a discovered
/// target.
pub open spec fn labels_from(
    oldc: Seq<Statement>,
    cur: Seq<Statement>,
    prefix: Seq<char>,
    name: Seq<char>,
) -> bool {
    forall|i: int|
        0 <= i < cur.len() ==> ((#[trigger] cur[i]).label == oldc[i].label || cur[i].label is None
            || (cur[i].label matches Some(l) && (l@ == entry_label_text(prefix, name) || (exists|
                t: u16,
            |
                l@ == #[trigger] label_text(prefix, t)))))
}

/// The abstract walk, one observation at a time: each lemma unfolds one step
/// of `run_walk` or `run_stack` under the facts the traversal establishes.
proof fn lemma_stack_done(
    oldc: Seq<Statement>,
    d: Set<int>,
    u: Set<int>,
    stk: Seq<(int, u16)>,
    mp: AddrMapping,
    fuel: nat,
)
    requires
        stk.len() == 0,
    ensures
        run_stack(oldc, d, u, stk, mp, fuel) == RunOutcome::Done(d, u),
{
    reveal(run_stack);
}

proof fn lemma_stack_pop(
    oldc: Seq<Statement>,
    d: Set<int>,
    u: Set<int>,
    stk: Seq<(int, u16)>,
    mp: AddrMapping,
    fuel: nat,
)
    requires
        stk.len() > 0,
    ensures
        run_stack(oldc, d, u, stk, mp, fuel) == run_walk(
            oldc,
            d,
            u,
            stk.drop_last(),
            stk.last().0,
            stk.last().1,
            mp,
            fuel,
        ),
{
    reveal(run_stack);
    reveal(run_walk);
}

proof fn lemma_walk_oob(
    oldc: Seq<Statement>,
    d: Set<int>,
    u: Set<int>,
    stk: Seq<(int, u16)>,
    offset: int,
    a: u16,
    mp: AddrMapping,
    fuel: nat,
)
    requires
        offset < 0 || offset >= oldc.len(),
    ensures
        run_walk(oldc, d, u, stk, offset, a, mp, fuel) == RunOutcome::RangeFault(offset),
{
    reveal(run_walk);
}

proof fn lemma_walk_instr(
    oldc: Seq<Statement>,
    d: Set<int>,
    u: Set<int>,
    stk: Seq<(int, u16)>,
    offset: int,
    a: u16,
    mp: AddrMapping,
    fuel: nat,
)
    requires
        0 <= offset < oldc.len(),
        run_cell_is_instr(oldc, d, offset),
    ensures
        run_walk(oldc, d, u, stk, offset, a, mp, fuel) == run_stack(oldc, d, u, stk, mp, fuel),
{
    reveal(run_walk);
    reveal(run_stack);
}

proof fn lemma_walk_readfault(
    oldc: Seq<Statement>,
    d: Set<int>,
    u: Set<int>,
    stk: Seq<(int, u16)>,
    offset: int,
    a: u16,
    mp: AddrMapping,
    fuel: nat,
)
    requires
        0 <= offset < oldc.len(),
        !run_cell_is_instr(oldc, d, offset),
        run_cell_byte(oldc, d, u, offset) is None,
    ensures
        run_walk(oldc, d, u, stk, offset, a, mp, fuel) == RunOutcome::ReadFault(offset),
{
    reveal(run_walk);
}

proof fn lemma_walk_soft(
    oldc: Seq<Statement>,
    d: Set<int>,
    u: Set<int>,
    stk: Seq<(int, u16)>,
    offset: int,
    a: u16,
    mp: AddrMapping,
    fuel: nat,
    op: u8,
)
    requires
        0 <= offset < oldc.len(),
        !run_cell_is_instr(oldc, d, offset),
        run_cell_byte(oldc, d, u, offset) == Some(op),
        spec_operand_len(op) is None,
    ensures
        run_walk(oldc, d, u, stk, offset, a, mp, fuel) == run_stack(oldc, d, u, stk, mp, fuel),
{
    reveal(run_walk);
    reveal(run_stack);
}

proof fn lemma_walk_oprange(
    oldc: Seq<Statement>,
    d: Set<int>,
    u: Set<int>,
    stk: Seq<(int, u16)>,
    offset: int,
    a: u16,
    mp: AddrMapping,
    fuel: nat,
    op: u8,
    k: int,
)
    requires
        0 <= offset < oldc.len(),
        !run_cell_is_instr(oldc, d, offset),
        run_cell_byte(oldc, d, u, offset) == Some(op),
        spec_operand_len(op) is Some,
        1 <= k <= 2,
        spec_operand_len(op).unwrap() >= k,
        offset + k >= oldc.len(),
        k == 2 ==> offset + 1 < oldc.len(),
    ensures
        run_walk(oldc, d, u, stk, offset, a, mp, fuel) == RunOutcome::RangeFault(offset + k),
{
    reveal(run_walk);
}

proof fn lemma_walk_opread(
    oldc: Seq<Statement>,
    d: Set<int>,
    u: Set<int>,
    stk: Seq<(int, u16)>,
    offset: int,
    a: u16,
    mp: AddrMapping,
    fuel: nat,
    op: u8,
    k: int,
)
    requires
        0 <= offset < oldc.len(),
        !run_cell_is_instr(oldc, d, offset),
        run_cell_byte(oldc, d, u, offset) == Some(op),
        spec_operand_len(op) is Some,
        1 <= k <= 2,
        spec_operand_len(op).unwrap() >= k,
        offset + spec_operand_len(op).unwrap() < oldc.len(),
        run_cell_byte(oldc, d, u, offset + k) is None,
        k == 2 ==> run_cell_byte(oldc, d, u, offset + 1) is Some,
    ensures
        run_walk(oldc, d, u, stk, offset, a, mp, fuel) == RunOutcome::ReadFault(offset + k),
{
    reveal(run_walk);
}

proof fn lemma_walk_decode(
    oldc: Seq<Statement>,
    d: Set<int>,
    u: Set<int>,
    stk: Seq<(int, u16)>,
    offset: int,
    a: u16,
    mp: AddrMapping,
    fuel: nat,
    op: u8,
    b1: u8,
    b2: u8,
    alen: int,
)
    requires
        0 <= offset < oldc.len(),
        offset + alen < oldc.len(),
        !run_cell_is_instr(oldc, d, offset),
        run_cell_byte(oldc, d, u, offset) == Some(op),
        spec_operand_len(op) == Some(alen as usize),
        0 <= alen <= 2,
        alen >= 1 ==> run_cell_byte(oldc, d, u, offset + 1) == Some(b1),
        alen >= 2 ==> run_cell_byte(oldc, d, u, offset + 2) == Some(b2),
        alen == 0 ==> b1 == 0,
        alen <= 1 ==> b2 == 0,
        fuel >= 1,
    ensures
        (spec_flow(op, b1, b2, a) is Advance ==> run_walk(oldc, d, u, stk, offset, a, mp, fuel)
            == run_walk(
            oldc,
            d.insert(offset),
            step_used(u, offset, alen),
            stk,
            offset + alen + 1,
            addr_plus(a, alen + 1),
            mp,
            (fuel - 1) as nat,
        )),
        (spec_flow(op, b1, b2, a) matches Flow::Jump(t) ==> run_walk(
            oldc,
            d,
            u,
            stk,
            offset,
            a,
            mp,
            fuel,
        ) == (match map_addr_to_offset(mp, t) {
            None => RunOutcome::Unmappable(t),
            Some(o2) => if o2 >= oldc.len() {
                RunOutcome::RangeFault(o2)
            } else {
                run_stack(
                    oldc,
                    d.insert(offset),
                    step_used(u, offset, alen),
                    stk.push((o2, t)),
                    mp,
                    (fuel - 1) as nat,
                )
            },
        })),
        (spec_flow(op, b1, b2, a) matches Flow::Call(t) ==> run_walk(
            oldc,
            d,
            u,
            stk,
            offset,
            a,
            mp,
            fuel,
        ) == (match map_addr_to_offset(mp, t) {
            None => RunOutcome::Unmappable(t),
            Some(o2) => if o2 >= oldc.len() {
                RunOutcome::RangeFault(o2)
            } else {
                run_stack(
                    oldc,
                    d.insert(offset),
                    step_used(u, offset, alen),
                    stk.push((offset + alen + 1, addr_plus(a, alen + 1))).push((o2, t)),
                    mp,
                    (fuel - 1) as nat,
                )
            },
        })),
        (spec_flow(op, b1, b2, a) matches Flow::Branch(t) ==> run_walk(
            oldc,
            d,
            u,
            stk,
            offset,
            a,
            mp,
            fuel,
        ) == (match map_addr_to_offset(mp, t) {
            None => RunOutcome::Unmappable(t),
            Some(o2) => if o2 >= oldc.len() {
                RunOutcome::RangeFault(o2)
            } else {
                run_stack(
                    oldc,
                    d.insert(offset),
                    step_used(u, offset, alen),
                    stk.push((offset + alen + 1, addr_plus(a, alen + 1))).push((o2, t)),
                    mp,
                    (fuel - 1) as nat,
                )
            },
        })),
        (spec_flow(op, b1, b2, a) is Stop ==> run_walk(oldc, d, u, stk, offset, a, mp, fuel)
            == run_stack(
            oldc,
            d.insert(offset),
            step_used(u, offset, alen),
            stk,
            mp,
            (fuel - 1) as nat,
        )),
{
    reveal(run_walk);
    reveal(run_stack);
}

/// One decode step's effect on the store, all at once: classifying the read
/// cell keeps every invariant of the traversal, consumes one unit of the
/// measure, and installs exactly what the table yields at the walk's address.
#[verifier::rlimit(100)]
proof fn lemma_install_step(
    oldc: Seq<Statement>,
    pre: Seq<Statement>,
    post: Seq<Statement>,
    d: Set<int>,
    u: Set<int>,
    offset: int,
    a: u16,
    prefix: Seq<char>,
    name: Seq<char>,
    op: u8,
    b1: u8,
    b2: u8,
    alen: int,
    dcd: Decoded,
)
    requires
        engine_preserves(oldc, pre),
        table_decoded(oldc, pre, prefix),
        labels_from(oldc, pre, prefix, name),
        corresponds(oldc, pre, d, u),
        0 <= offset,
        offset + alen < pre.len(),
        spec_operand_len(op) == Some(alen as usize),
        0 <= alen <= 2,
        !(pre[offset].asm_code is Instruction),
        as_byte(pre[offset].asm_code) == Some(op),
        run_cell_byte(oldc, d, u, offset) == Some(op),
        alen >= 1 ==> as_byte(pre[offset + 1].asm_code) == Some(b1) && run_cell_byte(
            oldc,
            d,
            u,
            offset + 1,
        ) == Some(b1),
        alen >= 2 ==> as_byte(pre[offset + 2].asm_code) == Some(b2) && run_cell_byte(
            oldc,
            d,
            u,
            offset + 2,
        ) == Some(b2),
        decoded_ok(op, b1, b2, a, prefix, dcd),
        post.len() == pre.len(),
        forall|i: int| 0 <= i < pre.len() && !(offset <= i <= offset + alen) ==> post[i] == (
        #[trigger] pre[i]),
        forall|k: int| offset < k <= offset + alen ==> #[trigger] post[k] == used_stmt(),
        post[offset] == (Statement { asm_code: AsmCode::Instruction(dcd.instr), ..pre[offset] }),
    ensures
        engine_preserves(oldc, post),
        table_decoded(oldc, post, prefix),
        labels_from(oldc, post, prefix, name),
        corresponds(oldc, post, d.insert(offset), step_used(u, offset, alen)),
        count_non_instr(post) + 1 == count_non_instr(pre),
        installed_at_address(oldc, offset, a, prefix, dcd.instr),
        forall|i: int| 0 <= i < pre.len() && (#[trigger] pre[i]).asm_code is Instruction
            ==> post[i].asm_code == pre[i].asm_code,
        dcd.flow == spec_flow(op, b1, b2, a),
        !run_cell_is_instr(oldc, d, offset),
{
    lemma_decoded_flow(op, b1, b2, a, prefix, dcd);
    assert(pre[offset].asm_code == oldc[offset].asm_code);
    assert forall|k: int| offset < k <= offset + alen implies (#[trigger] pre[k]).asm_code
        == oldc[k].asm_code by {
        if k == offset + 1 {
        } else {
            assert(k == offset + 2);
        }
    }
    if alen >= 1 {
        assert(operand_byte(oldc, offset, 1, alen) == b1);
    }
    if alen >= 2 {
        assert(operand_byte(oldc, offset, 2, alen) == b2);
    }
    assert(installed_at_address(oldc, offset, a, prefix, dcd.instr));
    assert(installed_from_table(oldc, offset, prefix, dcd.instr));
    lemma_preserves_classify(oldc, pre, post, offset, alen, prefix, dcd.instr);
    assert forall|j: int| 0 <= j < pre.len() && j != offset implies ((#[trigger] post[j]).asm_code
        is Instruction <==> pre[j].asm_code is Instruction) by {
        if offset < j <= offset + alen {
            assert(post[j] == used_stmt());
            assert(as_byte(pre[j].asm_code) is Some);
        } else {
            assert(post[j] == pre[j]);
        }
    }
    lemma_count_dec_one(pre, post, offset);
    assert(corresponds(oldc, post, d.insert(offset), step_used(u, offset, alen)));
    assert(labels_from(oldc, post, prefix, name));
}

/// The consumed set after one decode.
pub open spec fn step_used(u: Set<int>, offset: int, alen: int) -> Set<int> {
    if alen >= 2 {
        u.insert(offset + 1).insert(offset + 2)
    } else if alen >= 1 {
        u.insert(offset + 1)
    } else {
        u
    }
}

/// One unit of pending work for the traversal: a location to explore, and
/// the label to attach there if this is a fresh entry rather than the
/// fall-through continuation of an earlier path.
pub struct WorkItem {
    pub offset: usize,
    pub addr: u16,
    pub label: Option<String>,
}

/// The control-flow-following traversal over a store.
pub struct Disassembler {
    pub code: Code,
}

impl Disassembler {
    /// Wraps the raw input in a store ready for traversal.
    pub fn new(data: Vec<u8>) -> (r: Disassembler)
        ensures
            r.code.wf(),
            r.code.cells().len() == data@.len(),
            forall|i: int| 0 <= i < data@.len() ==> #[trigger] r.code.cells()[i] == (Statement {
                asm_code: AsmCode::DataHexU8(data@[i]),
                comment: None,
                segment: None,
                label: None,
            }),
            r.code.vars() == Map::<u16, crate::variable::VariableView>::empty(),
    {
        Disassembler { code: Code::new(data) }
    }

    /// Decodes the connected region reachable from `addr`, labeling the entry
    /// `{label_prefix}_{name}` and every discovered jump, call and branch
    /// target `{label_prefix}_{target in hex}`. The traversal is specified in
    /// full by `spec_run`, the abstract walk over the original store: the
    /// call succeeds exactly when that walk meets no consumed or non-byte
    /// read and no unmappable or out-of-range position; on success the cells
    /// the walk decodes and consumes are exactly the changed ones, each
    /// decoded cell holding what the decode table yields for the original
    /// bytes at its offset — at the entry, for the entry address itself; and
    /// on failure the error names the walk's faulting offset and its mapped
    /// address. Re-invoking the traversal on a decoded address only
    /// re-attaches the entry label; an unrecognized opcode ends its path
    /// softly.
    #[verifier::rlimit(100)]
    pub fn disassemble(
        &mut self,
        addr: u16,
        name: &str,
        label_prefix: &str,
        mapping: &AddrMapping,
    ) -> (r: Result<(), DisassembleError>)
        requires
            old(self).code.wf(),
            mapping.wf(),
            old(self).code.cells().len() <= 0x1_0000_0000,
        ensures
            final(self).code.wf(),
            final(self).code.vars() == old(self).code.vars(),
            engine_preserves(old(self).code.cells(), final(self).code.cells()),
            table_decoded(old(self).code.cells(), final(self).code.cells(), label_prefix@),
            labels_from(old(self).code.cells(), final(self).code.cells(), label_prefix@, name@),
            r matches Err(e) ==> e is WrappedError,
            map_addr_to_offset(*mapping, addr) is None ==> (r matches Err(
                DisassembleError::WrappedError(m),
            ) && m@ == "unmappable address $"@ + hex4_lower(addr)),
            ({
                let om = map_addr_to_offset(*mapping, addr);
                om is Some && om.unwrap() >= old(self).code.cells().len()
            }) ==> (r matches Err(DisassembleError::WrappedError(m)) && m@ == at_location_text(
                "offset out of range"@,
                map_addr_to_offset(*mapping, addr).unwrap(),
                map_offset_to_addr(*mapping, map_addr_to_offset(*mapping, addr).unwrap()),
            )),
            ({
                let om = map_addr_to_offset(*mapping, addr);
                om is Some && 0 <= om.unwrap() < old(self).code.cells().len()
            }) ==> ({
                let o = map_addr_to_offset(*mapping, addr).unwrap();
                &&& ((r is Ok) <==> spec_run(old(self).code.cells(), o, addr, *mapping) is Done)
                &&& ((final(self).code.cells()[o].label matches Some(l) && (l@ == entry_label_text(
                    label_prefix@,
                    name@,
                ) || (exists|t: u16| l@ == #[trigger] label_text(label_prefix@, t))))
                    || final(self).code.cells()[o].asm_code is Used)
                &&& (r is Ok ==> (spec_run(old(self).code.cells(), o, addr, *mapping) matches
                    RunOutcome::Done(dset, uset) && corresponds(
                    old(self).code.cells(),
                    final(self).code.cells(),
                    dset,
                    uset,
                )))
                &&& (r matches Err(DisassembleError::WrappedError(m)) ==> match spec_run(
                    old(self).code.cells(),
                    o,
                    addr,
                    *mapping,
                ) {
                    RunOutcome::Done(dset, uset) => false,
                    RunOutcome::ReadFault(fo) => m@ == at_location_text(
                        "unexpected asm code"@,
                        fo,
                        map_offset_to_addr(*mapping, fo),
                    ),
                    RunOutcome::RangeFault(fo) => m@ == at_location_text(
                        "offset out of range"@,
                        fo,
                        map_offset_to_addr(*mapping, fo),
                    ),
                    RunOutcome::Unmappable(t) => m@ == "unmappable address $"@ + hex4_lower(t),
                })
            }),
            ({
                let om = map_addr_to_offset(*mapping, addr);
                om is Some && 0 <= om.unwrap() < old(self).code.cells().len() && old(
                    self,
                ).code.cells()[om.unwrap()].asm_code is Instruction
            }) ==> (r is Ok && only_label_set(
                old(self).code.cells(),
                final(self).code.cells(),
                map_addr_to_offset(*mapping, addr).unwrap(),
                label_prefix@,
                name@,
            )),
            ({
                let om = map_addr_to_offset(*mapping, addr);
                om is Some && 0 <= om.unwrap() < old(self).code.cells().len() && (as_byte(
                    old(self).code.cells()[om.unwrap()].asm_code,
                ) matches Some(b) && !handled(b))
            }) ==> (r is Ok && only_label_set(
                old(self).code.cells(),
                final(self).code.cells(),
                map_addr_to_offset(*mapping, addr).unwrap(),
                label_prefix@,
                name@,
            )),
            ({
                let om = map_addr_to_offset(*mapping, addr);
                r is Ok && om is Some && 0 <= om.unwrap() < old(self).code.cells().len() && (
                as_byte(old(self).code.cells()[om.unwrap()].asm_code) matches Some(b) && handled(
                    b,
                ))
            }) ==> entry_installed(
                old(self).code.cells(),
                final(self).code.cells(),
                map_addr_to_offset(*mapping, addr).unwrap(),
                addr,
                label_prefix@,
            ),
    {
        let ghost oldc = old(self).code.cells();
        let o0 = match mapping.addr_to_offset(addr) {
            Some(o) => o,
            None => {
                return Err(unmappable_error(addr));
            },
        };
        let n = self.code.len();
        if o0 >= n {
            return Err(oob_error(o0, mapping));
        }
        let ghost pcase = oldc[o0 as int].asm_code is Instruction;
        let ghost qcase = as_byte(oldc[o0 as int].asm_code) is Some && handled(
            as_byte(oldc[o0 as int].asm_code).unwrap(),
        );
        let ghost scase = as_byte(oldc[o0 as int].asm_code) is Some && !handled(
            as_byte(oldc[o0 as int].asm_code).unwrap(),
        );
        let ghost toprun = spec_run(oldc, o0 as int, addr, *mapping);
        let lbl = entry_label_string(label_prefix, name);
        self.code.set_label(o0, lbl.as_str());
        proof {
            assert(table_decoded(oldc, oldc, label_prefix@));
            lemma_preserves_annotate(oldc, oldc, self.code.cells(), o0 as int, label_prefix@);
            lemma_count_same(oldc, self.code.cells());
        }
        let ghost labeled = self.code.cells();
        let ghost mut dset: Set<int> = Set::empty();
        let ghost mut uset: Set<int> = Set::empty();
        let mut stack: Vec<WorkItem> = Vec::new();
        stack.push(WorkItem { offset: o0, addr, label: None });
        proof {
            assert(corresponds(oldc, labeled, dset, uset));
            assert(labels_from(oldc, labeled, label_prefix@, name@));
            let sa = abs_stack(stack@);
            assert(sa =~= seq![(o0 as int, addr)]);
            assert(sa.drop_last() =~= Seq::<(int, u16)>::empty());
            assert(sa.last() == (o0 as int, addr));
            lemma_stack_pop(oldc, dset, uset, sa, *mapping, count_non_instr(self.code.cells()));
            assert(run_stack(
                oldc,
                dset,
                uset,
                abs_stack(stack@),
                *mapping,
                count_non_instr(self.code.cells()),
            ) == toprun);
        }
        loop
            invariant
                oldc == old(self).code.cells(),
                map_addr_to_offset(*mapping, addr) == Some(o0 as int),
                pcase <==> oldc[o0 as int].asm_code is Instruction,
                qcase <==> (as_byte(oldc[o0 as int].asm_code) is Some && handled(
                    as_byte(oldc[o0 as int].asm_code).unwrap(),
                )),
                scase <==> (as_byte(oldc[o0 as int].asm_code) is Some && !handled(
                    as_byte(oldc[o0 as int].asm_code).unwrap(),
                )),
                toprun == spec_run(oldc, o0 as int, addr, *mapping),
                self.code.wf(),
                mapping.wf(),
                self.code.cells().len() == oldc.len(),
                oldc.len() <= 0x1_0000_0000,
                o0 < oldc.len(),
                n == oldc.len(),
                self.code.vars() == old(self).code.vars(),
                engine_preserves(oldc, self.code.cells()),
                table_decoded(oldc, self.code.cells(), label_prefix@),
                labels_from(oldc, self.code.cells(), label_prefix@, name@),
                corresponds(oldc, self.code.cells(), dset, uset),
                run_stack(
                    oldc,
                    dset,
                    uset,
                    abs_stack(stack@),
                    *mapping,
                    count_non_instr(self.code.cells()),
                ) == toprun,
                ((self.code.cells()[o0 as int].label matches Some(l) && (l@ == entry_label_text(
                    label_prefix@,
                    name@,
                ) || (exists|t: u16| l@ == #[trigger] label_text(label_prefix@, t))))
                    || self.code.cells()[o0 as int].asm_code is Used),
                forall|k: int| 0 <= k < stack@.len() ==> (#[trigger] stack@[k]).offset
                    <= oldc.len(),
                forall|k: int| 0 <= k < stack@.len() && (#[trigger] stack@[k]).label is Some
                    ==> stack@[k].offset < oldc.len(),
                forall|k: int|
                    0 <= k < stack@.len() && (#[trigger] stack@[k]).label is Some ==> (
                    stack@[k].label matches Some(l) && (exists|t: u16| l@ == #[trigger] label_text(
                        label_prefix@,
                        t,
                    ))),
                (pcase || scase) ==> (self.code.cells() == labeled && (stack@.len() == 0 || (
                stack@.len() == 1 && stack@[0] == (WorkItem { offset: o0, addr, label: None })))),
                labeled.len() == oldc.len(),
                labeled[o0 as int].asm_code == oldc[o0 as int].asm_code,
                only_label_set(oldc, labeled, o0 as int, label_prefix@, name@),
                qcase ==> (entry_installed(oldc, self.code.cells(), o0 as int, addr, label_prefix@)
                    || (stack@.len() == 1 && stack@[0] == (WorkItem {
                    offset: o0,
                    addr,
                    label: None,
                }) && self.code.cells()[o0 as int].asm_code == oldc[o0 as int].asm_code)),
            ensures
                oldc == old(self).code.cells(),
                self.code.wf(),
                self.code.cells().len() == oldc.len(),
                self.code.vars() == old(self).code.vars(),
                engine_preserves(oldc, self.code.cells()),
                table_decoded(oldc, self.code.cells(), label_prefix@),
                labels_from(oldc, self.code.cells(), label_prefix@, name@),
                corresponds(oldc, self.code.cells(), dset, uset),
                toprun == RunOutcome::Done(dset, uset),
                ((self.code.cells()[o0 as int].label matches Some(l) && (l@ == entry_label_text(
                    label_prefix@,
                    name@,
                ) || (exists|t: u16| l@ == #[trigger] label_text(label_prefix@, t))))
                    || self.code.cells()[o0 as int].asm_code is Used),
                (pcase || scase) ==> self.code.cells() == labeled,
                qcase ==> entry_installed(oldc, self.code.cells(), o0 as int, addr, label_prefix@),
            decreases count_non_instr(self.code.cells()), stack@.len(),
        {
            let ghost c0 = count_non_instr(self.code.cells());
            let ghost s0 = stack@.len();
            let ghost stack_pre = stack@;
            let item = match stack.pop() {
                Some(it) => it,
                None => {
                    proof {
                        assert(abs_stack(stack@).len() == 0);
                        lemma_stack_done(
                            oldc,
                            dset,
                            uset,
                            abs_stack(stack@),
                            *mapping,
                            count_non_instr(self.code.cells()),
                        );
                    }
                    break ;
                },
            };
            proof {
                assert(abs_stack(stack_pre) =~= abs_stack(stack@).push(
                    (item.offset as int, item.addr),
                ));
                assert(abs_stack(stack_pre).drop_last() =~= abs_stack(stack@));
                assert(abs_stack(stack_pre).last() == (item.offset as int, item.addr));
                lemma_stack_pop(
                    oldc,
                    dset,
                    uset,
                    abs_stack(stack_pre),
                    *mapping,
                    count_non_instr(self.code.cells()),
                );
                assert(run_walk(
                    oldc,
                    dset,
                    uset,
                    abs_stack(stack@),
                    item.offset as int,
                    item.addr,
                    *mapping,
                    count_non_instr(self.code.cells()),
                ) == toprun);
            }
            match &item.label {
                Some(l) => {
                    proof {
                        assert(!pcase && !scase);
                        if qcase {
                            if !entry_installed(oldc, self.code.cells(), o0 as int, addr,
                            label_prefix@) {
                                assert(stack@.len() + 1 == 1);
                                assert(false);
                            }
                        }
                    }
                    let ghost pre = self.code.cells();
                    self.code.set_label(item.offset, l.as_str());
                    proof {
                        lemma_preserves_annotate(
                            oldc,
                            pre,
                            self.code.cells(),
                            item.offset as int,
                            label_prefix@,
                        );
                        lemma_count_same(pre, self.code.cells());
                        if qcase {
                            assert(self.code.cells()[o0 as int].asm_code == pre[o0 as int].asm_code);
                        }
                    }
                },
                None => {},
            }
            let mut offset = item.offset;
            let mut cur_addr = item.addr;
            let ghost initial_walk = item == (WorkItem { offset: o0, addr, label: None });
            loop
                invariant_except_break
                    run_walk(
                        oldc,
                        dset,
                        uset,
                        abs_stack(stack@),
                        offset as int,
                        cur_addr,
                        *mapping,
                        count_non_instr(self.code.cells()),
                    ) == toprun,
                invariant
                    oldc == old(self).code.cells(),
                    map_addr_to_offset(*mapping, addr) == Some(o0 as int),
                    pcase <==> oldc[o0 as int].asm_code is Instruction,
                    qcase <==> (as_byte(oldc[o0 as int].asm_code) is Some && handled(
                        as_byte(oldc[o0 as int].asm_code).unwrap(),
                    )),
                    scase <==> (as_byte(oldc[o0 as int].asm_code) is Some && !handled(
                        as_byte(oldc[o0 as int].asm_code).unwrap(),
                    )),
                    toprun == spec_run(oldc, o0 as int, addr, *mapping),
                    self.code.wf(),
                    mapping.wf(),
                    self.code.cells().len() == oldc.len(),
                    oldc.len() <= 0x1_0000_0000,
                    o0 < oldc.len(),
                    n == oldc.len(),
                    offset < 0x1_0002_0000,
                    self.code.vars() == old(self).code.vars(),
                    engine_preserves(oldc, self.code.cells()),
                    table_decoded(oldc, self.code.cells(), label_prefix@),
                    labels_from(oldc, self.code.cells(), label_prefix@, name@),
                    corresponds(oldc, self.code.cells(), dset, uset),
                    ((self.code.cells()[o0 as int].label matches Some(l) && (l@
                        == entry_label_text(label_prefix@, name@) || (exists|t: u16|
                        l@ == #[trigger] label_text(label_prefix@, t))))
                        || self.code.cells()[o0 as int].asm_code is Used),
                    forall|k: int| 0 <= k < stack@.len() ==> (#[trigger] stack@[k]).offset
                        <= oldc.len(),
                    forall|k: int| 0 <= k < stack@.len() && (#[trigger] stack@[k]).label is Some
                        ==> stack@[k].offset < oldc.len(),
                    forall|k: int|
                        0 <= k < stack@.len() && (#[trigger] stack@[k]).label is Some ==> (
                        stack@[k].label matches Some(l) && (exists|t: u16|
                            l@ == #[trigger] label_text(label_prefix@, t))),
                    (pcase || scase) ==> (self.code.cells() == labeled && stack@.len() == 0
                        && offset == o0),
                    labeled.len() == oldc.len(),
                    labeled[o0 as int].asm_code == oldc[o0 as int].asm_code,
                    only_label_set(oldc, labeled, o0 as int, label_prefix@, name@),
                    qcase ==> (entry_installed(oldc, self.code.cells(), o0 as int, addr,
                    label_prefix@) || (initial_walk && offset == o0 && cur_addr == addr
                        && self.code.cells()[o0 as int].asm_code == oldc[o0 as int].asm_code)),
                    count_non_instr(self.code.cells()) <= c0,
                    count_non_instr(self.code.cells()) < c0 || stack@.len() + 1 == s0,
                ensures
                    oldc == old(self).code.cells(),
                    self.code.wf(),
                    self.code.cells().len() == oldc.len(),
                    self.code.vars() == old(self).code.vars(),
                    engine_preserves(oldc, self.code.cells()),
                    table_decoded(oldc, self.code.cells(), label_prefix@),
                    labels_from(oldc, self.code.cells(), label_prefix@, name@),
                    corresponds(oldc, self.code.cells(), dset, uset),
                    run_stack(
                        oldc,
                        dset,
                        uset,
                        abs_stack(stack@),
                        *mapping,
                        count_non_instr(self.code.cells()),
                    ) == toprun,
                    ((self.code.cells()[o0 as int].label matches Some(l) && (l@
                        == entry_label_text(label_prefix@, name@) || (exists|t: u16|
                        l@ == #[trigger] label_text(label_prefix@, t))))
                        || self.code.cells()[o0 as int].asm_code is Used),
                    forall|k: int| 0 <= k < stack@.len() ==> (#[trigger] stack@[k]).offset
                        <= oldc.len(),
                    forall|k: int| 0 <= k < stack@.len() && (#[trigger] stack@[k]).label is Some
                        ==> stack@[k].offset < oldc.len(),
                    forall|k: int|
                        0 <= k < stack@.len() && (#[trigger] stack@[k]).label is Some ==> (
                        stack@[k].label matches Some(l) && (exists|t: u16|
                            l@ == #[trigger] label_text(label_prefix@, t))),
                    (pcase || scase) ==> (self.code.cells() == labeled && stack@.len() == 0),
                    qcase ==> entry_installed(oldc, self.code.cells(), o0 as int, addr,
                    label_prefix@),
                    count_non_instr(self.code.cells()) <= c0,
                    count_non_instr(self.code.cells()) < c0 || stack@.len() + 1 == s0,
                decreases count_non_instr(self.code.cells()),
            {
                if offset >= n {
                    proof {
                        assert(!pcase && !scase);
                        lemma_walk_oob(
                            oldc,
                            dset,
                            uset,
                            abs_stack(stack@),
                            offset as int,
                            cur_addr,
                            *mapping,
                            count_non_instr(self.code.cells()),
                        );
                        assert(toprun == RunOutcome::RangeFault(offset as int));
                    }
                    return Err(oob_error(offset, mapping));
                }
                if self.code.is_instruction(offset) {
                    proof {
                        assert(run_cell_is_instr(oldc, dset, offset as int));
                        lemma_walk_instr(
                            oldc,
                            dset,
                            uset,
                            abs_stack(stack@),
                            offset as int,
                            cur_addr,
                            *mapping,
                            count_non_instr(self.code.cells()),
                        );
                    }
                    break ;
                }
                proof {
                    assert(!run_cell_is_instr(oldc, dset, offset as int));
                }
                let op = match self.code.get_u8(offset) {
                    Ok(v) => v,
                    Err(e) => {
                        proof {
                            assert(!pcase && !scase);
                            assert(run_cell_byte(oldc, dset, uset, offset as int) is None);
                            lemma_walk_readfault(
                                oldc,
                                dset,
                                uset,
                                abs_stack(stack@),
                                offset as int,
                                cur_addr,
                                *mapping,
                                count_non_instr(self.code.cells()),
                            );
                            assert(toprun == RunOutcome::ReadFault(offset as int));
                        }
                        return Err(wrap_at(e, offset, mapping));
                    },
                };
                proof {
                    assert(run_cell_byte(oldc, dset, uset, offset as int) == Some(op));
                }
                let alen = match operand_len(op) {
                    Some(a) => a,
                    None => {
                        proof {
                            lemma_walk_soft(
                                oldc,
                                dset,
                                uset,
                                abs_stack(stack@),
                                offset as int,
                                cur_addr,
                                *mapping,
                                count_non_instr(self.code.cells()),
                                op,
                            );
                        }
                        break ;
                    },
                };
                proof {
                    assert(!scase);
                }
                if alen >= 1 && offset + 1 >= n {
                    proof {
                        lemma_walk_oprange(
                            oldc,
                            dset,
                            uset,
                            abs_stack(stack@),
                            offset as int,
                            cur_addr,
                            *mapping,
                            count_non_instr(self.code.cells()),
                            op,
                            1,
                        );
                        assert(toprun == RunOutcome::RangeFault(offset + 1));
                    }
                    return Err(oob_error(offset + 1, mapping));
                }
                if alen >= 2 && offset + 2 >= n {
                    proof {
                        lemma_walk_oprange(
                            oldc,
                            dset,
                            uset,
                            abs_stack(stack@),
                            offset as int,
                            cur_addr,
                            *mapping,
                            count_non_instr(self.code.cells()),
                            op,
                            2,
                        );
                        assert(toprun == RunOutcome::RangeFault(offset + 2));
                    }
                    return Err(oob_error(offset + 2, mapping));
                }
                let b1 = if alen >= 1 {
                    match self.code.get_u8(offset + 1) {
                        Ok(v) => v,
                        Err(e) => {
                            proof {
                                assert(run_cell_byte(oldc, dset, uset, offset + 1) is None);
                                lemma_walk_opread(
                                    oldc,
                                    dset,
                                    uset,
                                    abs_stack(stack@),
                                    offset as int,
                                    cur_addr,
                                    *mapping,
                                    count_non_instr(self.code.cells()),
                                    op,
                                    1,
                                );
                                assert(toprun == RunOutcome::ReadFault(offset + 1));
                            }
                            return Err(wrap_at(e, offset + 1, mapping));
                        },
                    }
                } else {
                    0
                };
                let b2 = if alen >= 2 {
                    match self.code.get_u8(offset + 2) {
                        Ok(v) => v,
                        Err(e) => {
                            proof {
                                assert(run_cell_byte(oldc, dset, uset, offset + 1) == Some(b1));
                                assert(run_cell_byte(oldc, dset, uset, offset + 2) is None);
                                lemma_walk_opread(
                                    oldc,
                                    dset,
                                    uset,
                                    abs_stack(stack@),
                                    offset as int,
                                    cur_addr,
                                    *mapping,
                                    count_non_instr(self.code.cells()),
                                    op,
                                    2,
                                );
                                assert(toprun == RunOutcome::ReadFault(offset + 2));
                            }
                            return Err(wrap_at(e, offset + 2, mapping));
                        },
                    }
                } else {
                    0
                };
                proof {
                    if alen >= 1 {
                        assert(run_cell_byte(oldc, dset, uset, offset + 1) == Some(b1));
                    }
                    if alen >= 2 {
                        assert(run_cell_byte(oldc, dset, uset, offset + 2) == Some(b2));
                    }
                }
                let d = decode_op(op, b1, b2, cur_addr, label_prefix);
                let ghost pre = self.code.cells();
                let ghost dset_pre = dset;
                let ghost uset_pre = uset;
                let size = match self.code.replace_with_instr(offset, alen, d.instr) {
                    Ok(sz) => sz,
                    Err(e) => {
                        proof {
                            assert(false);
                        }
                        return Err(e);
                    },
                };
                proof {
                    lemma_install_step(
                        oldc,
                        pre,
                        self.code.cells(),
                        dset_pre,
                        uset_pre,
                        offset as int,
                        cur_addr,
                        label_prefix@,
                        name@,
                        op,
                        b1,
                        b2,
                        alen as int,
                        d,
                    );
                    lemma_count_pos(pre, offset as int);
                    lemma_walk_decode(
                        oldc,
                        dset_pre,
                        uset_pre,
                        abs_stack(stack@),
                        offset as int,
                        cur_addr,
                        *mapping,
                        count_non_instr(pre),
                        op,
                        b1,
                        b2,
                        alen as int,
                    );
                    dset = dset_pre.insert(offset as int);
                    uset = step_used(uset_pre, offset as int, alen as int);
                    lemma_count_lt(pre, self.code.cells(), offset as int);
                    if qcase {
                        if pre[o0 as int].asm_code is Instruction {
                            assert(self.code.cells()[o0 as int].asm_code == pre[o0 as int].asm_code);
                        } else {
                            assert(offset == o0 && cur_addr == addr);
                            assert(entry_installed(
                                oldc,
                                self.code.cells(),
                                o0 as int,
                                addr,
                                label_prefix@,
                            ));
                        }
                    }
                }
                match d.flow {
                    Flow::Advance => {
                        proof {
                            assert(cur_addr.wrapping_add(size as u16) == addr_plus(
                                cur_addr,
                                size as int,
                            ));
                            assert(run_walk(
                                oldc,
                                dset,
                                uset,
                                abs_stack(stack@),
                                offset + size,
                                addr_plus(cur_addr, size as int),
                                *mapping,
                                count_non_instr(self.code.cells()),
                            ) == toprun);
                        }
                        offset = offset + size;
                        cur_addr = cur_addr.wrapping_add(size as u16);
                    },
                    Flow::Jump(t) => {
                        let o = match mapping.addr_to_offset(t) {
                            Some(o) => o,
                            None => {
                                proof {
                                    assert(toprun == RunOutcome::Unmappable(t));
                                }
                                return Err(unmappable_error(t));
                            },
                        };
                        if o >= n {
                            proof {
                                assert(toprun == RunOutcome::RangeFault(o as int));
                            }
                            return Err(oob_error(o, mapping));
                        }
                        let ghost stack_before = stack@;
                        stack.push(
                            WorkItem { offset: o, addr: t, label: Some(label_string(label_prefix, t)) },
                        );
                        proof {
                            assert(abs_stack(stack@) =~= abs_stack(stack_before).push(
                                (o as int, t),
                            ));
                            assert(run_stack(
                                oldc,
                                dset,
                                uset,
                                abs_stack(stack@),
                                *mapping,
                                count_non_instr(self.code.cells()),
                            ) == toprun);
                        }
                        break ;
                    },
                    Flow::Call(t) => {
                        let o = match mapping.addr_to_offset(t) {
                            Some(o) => o,
                            None => {
                                proof {
                                    assert(toprun == RunOutcome::Unmappable(t));
                                }
                                return Err(unmappable_error(t));
                            },
                        };
                        if o >= n {
                            proof {
                                assert(toprun == RunOutcome::RangeFault(o as int));
                            }
                            return Err(oob_error(o, mapping));
                        }
                        let ghost stack_before = stack@;
                        proof {
                            assert(cur_addr.wrapping_add(size as u16) == addr_plus(
                                cur_addr,
                                size as int,
                            ));
                        }
                        stack.push(
                            WorkItem {
                                offset: offset + size,
                                addr: cur_addr.wrapping_add(size as u16),
                                label: None,
                            },
                        );
                        stack.push(
                            WorkItem { offset: o, addr: t, label: Some(label_string(label_prefix, t)) },
                        );
                        proof {
                            assert(abs_stack(stack@) =~= abs_stack(stack_before).push(
                                (offset + size, addr_plus(cur_addr, size as int)),
                            ).push((o as int, t)));
                            assert(run_stack(
                                oldc,
                                dset,
                                uset,
                                abs_stack(stack@),
                                *mapping,
                                count_non_instr(self.code.cells()),
                            ) == toprun);
                        }
                        break ;
                    },
                    Flow::Branch(t) => {
                        let o = match mapping.addr_to_offset(t) {
                            Some(o) => o,
                            None => {
                                proof {
                                    assert(toprun == RunOutcome::Unmappable(t));
                                }
                                return Err(unmappable_error(t));
                            },
                        };
                        if o >= n {
                            proof {
                                assert(toprun == RunOutcome::RangeFault(o as int));
                            }
                            return Err(oob_error(o, mapping));
                        }
                        let ghost stack_before = stack@;
                        proof {
                            assert(cur_addr.wrapping_add(size as u16) == addr_plus(
                                cur_addr,
                                size as int,
                            ));
                        }
                        stack.push(
                            WorkItem {
                                offset: offset + size,
                                addr: cur_addr.wrapping_add(size as u16),
                                label: None,
                            },
                        );
                        stack.push(
                            WorkItem { offset: o, addr: t, label: Some(label_string(label_prefix, t)) },
                        );
                        proof {
                            assert(abs_stack(stack@) =~= abs_stack(stack_before).push(
                                (offset + size, addr_plus(cur_addr, size as int)),
                            ).push((o as int, t)));
                            assert(run_stack(
                                oldc,
                                dset,
                                uset,
                                abs_stack(stack@),
                                *mapping,
                                count_non_instr(self.code.cells()),
                            ) == toprun);
                        }
                        break ;
                    },
                    Flow::Stop => {
                        proof {
                            assert(run_stack(
                                oldc,
                                dset,
                                uset,
                                abs_stack(stack@),
                                *mapping,
                                count_non_instr(self.code.cells()),
                            ) == toprun);
                        }
                        break ;
                    },
                }
            }
        }
        proof {
            assert(toprun == RunOutcome::Done(dset, uset));
        }
        Ok(())
    }
}

} // verus!

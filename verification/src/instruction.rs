use vstd::prelude::*;

use crate::text::{hex2_lower, hex2_upper, hex4_lower, hex4_upper, append_hex2_lower,
    append_hex2_upper, append_hex4_lower, append_hex4_upper};
use crate::variable::{Variable, VariableValue, VariableView, VariableMap};

verus! {

/// The closed set of decoded operations: opcode and addressing mode, with the
/// operand value. Control-transferring variants also carry the label text of
/// their resolved target.
#[allow(non_camel_case_types)]
#[derive(Debug)]
pub enum Instruction {
    ORA_ZP(u8),
    ASL_ZP(u8),
    PHP,
    ORA_IMM(u8),
    ASL,
    BPL_REL(i8, String),
    CLC,
    JSR_ABS(u16, String),
    BIT_ZP(u8),
    AND_ZP(u8),
    PLP,
    AND_IMM(u8),
    ROL,
    BMI_REL(i8, String),
    AND_ZP_X(u8),
    SEC,
    RTI,
    EOR_ZP(u8),
    LSR_ZP(u8),
    PHA,
    EOR_IMM(u8),
    LSR,
    JMP_ABS(u16, String),
    EOR_ABS(u16),
    RTS,
    ADC_ZP(u8),
    ROR_ZP(u8),
    PLA,
    ADC_IMM(u8),
    ROR,
    ADC_ABS(u16),
    SEI,
    ADC_ABS_X(u16),
    STY_ZP(u8),
    STA_ZP(u8),
    STX_ZP(u8),
    DEY,
    TXA,
    STY_ABS(u16),
    STA_ABS(u16),
    STX_ABS(u16),
    BCC_REL(i8, String),
    STA_IND_Y(u8),
    STY_ZP_X(u8),
    STA_ZP_X(u8),
    TYA,
    STA_ABS_Y(u16),
    TXS,
    STA_ABS_X(u16),
    LDY_IMM(u8),
    LDX_IMM(u8),
    LDY_ZP(u8),
    LDA_ZP(u8),
    LDX_ZP(u8),
    LDA_IMM(u8),
    TAX,
    TAY,
    LDY_ABS(u16),
    LDA_ABS(u16),
    LDX_ABS(u16),
    BCS_REL(i8, String),
    LDA_IND_Y(u8),
    LDY_ZP_X(u8),
    LDA_ZP_X(u8),
    LDA_ABS_Y(u16),
    LDY_ABS_X(u16),
    LDA_ABS_X(u16),
    LDX_ABS_Y(u16),
    CPY_IMM(u8),
    CPY_ZP(u8),
    CMP_ZP(u8),
    DEC_ZP(u8),
    INY,
    CMP_IMM(u8),
    DEX,
    CMP_ABS(u16),
    DEC_ABS(u16),
    BNE_REL(i8, String),
    CMP_ZP_X(u8),
    DEC_ZP_X(u8),
    CLD,
    CMP_ABS_Y(u16),
    CMP_ABS_X(u16),
    DEC_ABS_X(u16),
    CPX_IMM(u8),
    CPX_ZP(u8),
    SBC_ZP(u8),
    INC_ZP(u8),
    INX,
    SBC_IMM(u8),
    INC_ABS(u16),
    BEQ_REL(i8, String),
    INC_ZP_X(u8),
    SBC_ABS_X(u16),
    INC_ABS_X(u16),
    JAM,
}

/// How an instruction renders: its mnemonic and operand shape.
pub enum InstrShape {
    Plain(Seq<char>),
    Imm(Seq<char>, u8),
    Zp(Seq<char>, u8),
    ZpX(Seq<char>, u8),
    Abs(Seq<char>, u16),
    AbsX(Seq<char>, u16),
    AbsY(Seq<char>, u16),
    IndY(Seq<char>, u8),
    Labeled(Seq<char>, Seq<char>),
}

/// The shape of each instruction.
pub open spec fn shape(i: Instruction) -> InstrShape {
    match i {
        Instruction::ORA_ZP(v) => InstrShape::Zp("ora"@, v),
        Instruction::ASL_ZP(v) => InstrShape::Zp("asl"@, v),
        Instruction::PHP => InstrShape::Plain("php"@),
        Instruction::ORA_IMM(v) => InstrShape::Imm("ora"@, v),
        Instruction::ASL => InstrShape::Plain("asl"@),
        Instruction::BPL_REL(_, l) => InstrShape::Labeled("bpl"@, l@),
        Instruction::CLC => InstrShape::Plain("clc"@),
        Instruction::JSR_ABS(_, l) => InstrShape::Labeled("jsr"@, l@),
        Instruction::BIT_ZP(v) => InstrShape::Zp("bit"@, v),
        Instruction::AND_ZP(v) => InstrShape::Zp("and"@, v),
        Instruction::PLP => InstrShape::Plain("plp"@),
        Instruction::AND_IMM(v) => InstrShape::Imm("and"@, v),
        Instruction::ROL => InstrShape::Plain("rol"@),
        Instruction::BMI_REL(_, l) => InstrShape::Labeled("bmi"@, l@),
        Instruction::AND_ZP_X(v) => InstrShape::ZpX("and"@, v),
        Instruction::SEC => InstrShape::Plain("sec"@),
        Instruction::RTI => InstrShape::Plain("rti"@),
        Instruction::EOR_ZP(v) => InstrShape::Zp("eor"@, v),
        Instruction::LSR_ZP(v) => InstrShape::Zp("lsr"@, v),
        Instruction::PHA => InstrShape::Plain("pha"@),
        Instruction::EOR_IMM(v) => InstrShape::Imm("eor"@, v),
        Instruction::LSR => InstrShape::Plain("lsr"@),
        Instruction::JMP_ABS(_, l) => InstrShape::Labeled("jmp"@, l@),
        Instruction::EOR_ABS(v) => InstrShape::Abs("eor"@, v),
        Instruction::RTS => InstrShape::Plain("rts"@),
        Instruction::ADC_ZP(v) => InstrShape::Zp("adc"@, v),
        Instruction::ROR_ZP(v) => InstrShape::Zp("ror"@, v),
        Instruction::PLA => InstrShape::Plain("pla"@),
        Instruction::ADC_IMM(v) => InstrShape::Imm("adc"@, v),
        Instruction::ROR => InstrShape::Plain("ror"@),
        Instruction::ADC_ABS(v) => InstrShape::Abs("adc"@, v),
        Instruction::SEI => InstrShape::Plain("sei"@),
        Instruction::ADC_ABS_X(v) => InstrShape::AbsX("adc"@, v),
        Instruction::STY_ZP(v) => InstrShape::Zp("sty"@, v),
        Instruction::STA_ZP(v) => InstrShape::Zp("sta"@, v),
        Instruction::STX_ZP(v) => InstrShape::Zp("stx"@, v),
        Instruction::DEY => InstrShape::Plain("dey"@),
        Instruction::TXA => InstrShape::Plain("txa"@),
        Instruction::STY_ABS(v) => InstrShape::Abs("sty"@, v),
        Instruction::STA_ABS(v) => InstrShape::Abs("sta"@, v),
        Instruction::STX_ABS(v) => InstrShape::Abs("stx"@, v),
        Instruction::BCC_REL(_, l) => InstrShape::Labeled("bcc"@, l@),
        Instruction::STA_IND_Y(v) => InstrShape::IndY("sta"@, v),
        Instruction::STY_ZP_X(v) => InstrShape::ZpX("sty"@, v),
        Instruction::STA_ZP_X(v) => InstrShape::ZpX("sta"@, v),
        Instruction::TYA => InstrShape::Plain("tya"@),
        Instruction::STA_ABS_Y(v) => InstrShape::AbsY("sta"@, v),
        Instruction::TXS => InstrShape::Plain("txs"@),
        Instruction::STA_ABS_X(v) => InstrShape::AbsX("sta"@, v),
        Instruction::LDY_IMM(v) => InstrShape::Imm("ldy"@, v),
        Instruction::LDX_IMM(v) => InstrShape::Imm("ldx"@, v),
        Instruction::LDY_ZP(v) => InstrShape::Zp("ldy"@, v),
        Instruction::LDA_ZP(v) => InstrShape::Zp("lda"@, v),
        Instruction::LDX_ZP(v) => InstrShape::Zp("ldx"@, v),
        Instruction::LDA_IMM(v) => InstrShape::Imm("lda"@, v),
        Instruction::TAX => InstrShape::Plain("tax"@),
        Instruction::TAY => InstrShape::Plain("tay"@),
        Instruction::LDY_ABS(v) => InstrShape::Abs("ldy"@, v),
        Instruction::LDA_ABS(v) => InstrShape::Abs("lda"@, v),
        Instruction::LDX_ABS(v) => InstrShape::Abs("ldx"@, v),
        Instruction::BCS_REL(_, l) => InstrShape::Labeled("bcs"@, l@),
        Instruction::LDA_IND_Y(v) => InstrShape::IndY("lda"@, v),
        Instruction::LDY_ZP_X(v) => InstrShape::ZpX("ldy"@, v),
        Instruction::LDA_ZP_X(v) => InstrShape::ZpX("lda"@, v),
        Instruction::LDA_ABS_Y(v) => InstrShape::AbsY("lda"@, v),
        Instruction::LDY_ABS_X(v) => InstrShape::AbsX("ldy"@, v),
        Instruction::LDA_ABS_X(v) => InstrShape::AbsX("lda"@, v),
        Instruction::LDX_ABS_Y(v) => InstrShape::AbsY("ldx"@, v),
        Instruction::CPY_IMM(v) => InstrShape::Imm("cpy"@, v),
        Instruction::CPY_ZP(v) => InstrShape::Zp("cpy"@, v),
        Instruction::CMP_ZP(v) => InstrShape::Zp("cmp"@, v),
        Instruction::DEC_ZP(v) => InstrShape::Zp("dec"@, v),
        Instruction::INY => InstrShape::Plain("iny"@),
        Instruction::CMP_IMM(v) => InstrShape::Imm("cmp"@, v),
        Instruction::DEX => InstrShape::Plain("dex"@),
        Instruction::CMP_ABS(v) => InstrShape::Abs("cmp"@, v),
        Instruction::DEC_ABS(v) => InstrShape::Abs("dec"@, v),
        Instruction::BNE_REL(_, l) => InstrShape::Labeled("bne"@, l@),
        Instruction::CMP_ZP_X(v) => InstrShape::ZpX("cmp"@, v),
        Instruction::DEC_ZP_X(v) => InstrShape::ZpX("dec"@, v),
        Instruction::CLD => InstrShape::Plain("cld"@),
        Instruction::CMP_ABS_Y(v) => InstrShape::AbsY("cmp"@, v),
        Instruction::CMP_ABS_X(v) => InstrShape::AbsX("cmp"@, v),
        Instruction::DEC_ABS_X(v) => InstrShape::AbsX("dec"@, v),
        Instruction::CPX_IMM(v) => InstrShape::Imm("cpx"@, v),
        Instruction::CPX_ZP(v) => InstrShape::Zp("cpx"@, v),
        Instruction::SBC_ZP(v) => InstrShape::Zp("sbc"@, v),
        Instruction::INC_ZP(v) => InstrShape::Zp("inc"@, v),
        Instruction::INX => InstrShape::Plain("inx"@),
        Instruction::SBC_IMM(v) => InstrShape::Imm("sbc"@, v),
        Instruction::INC_ABS(v) => InstrShape::Abs("inc"@, v),
        Instruction::BEQ_REL(_, l) => InstrShape::Labeled("beq"@, l@),
        Instruction::INC_ZP_X(v) => InstrShape::ZpX("inc"@, v),
        Instruction::SBC_ABS_X(v) => InstrShape::AbsX("sbc"@, v),
        Instruction::INC_ABS_X(v) => InstrShape::AbsX("inc"@, v),
        Instruction::JAM => InstrShape::Plain("jam"@),
    }
}

/// The name synthesized for a fresh zero-page address.
pub open spec fn zp_var_name(v: u8) -> Seq<char> {
    "ZP_"@ + hex2_upper(v)
}

/// The name synthesized for a fresh absolute address.
pub open spec fn abs_var_name(w: u16) -> Seq<char> {
    "ABS_"@ + hex4_upper(w)
}

/// How a zero-page operand renders: the bound name if the address is bound,
/// else the numeric form.
pub open spec fn zp_operand_text(v: u8, m: Map<u16, VariableView>) -> Seq<char> {
    if m.contains_key(v as u16) {
        m[v as u16].name
    } else {
        "$"@ + hex2_lower(v)
    }
}

/// The registry after rendering a zero-page operand: unchanged if the address
/// was bound, else grown by the synthesized binding.
pub open spec fn zp_map_after(v: u8, m: Map<u16, VariableView>) -> Map<u16, VariableView> {
    if m.contains_key(v as u16) {
        m
    } else {
        m.insert(v as u16, VariableView { name: zp_var_name(v), value: VariableValue::U8(v) })
    }
}

/// How an absolute operand renders.
pub open spec fn abs_operand_text(w: u16, m: Map<u16, VariableView>) -> Seq<char> {
    if m.contains_key(w) {
        m[w].name
    } else {
        "$"@ + hex4_lower(w)
    }
}

/// The registry after rendering an absolute operand.
pub open spec fn abs_map_after(w: u16, m: Map<u16, VariableView>) -> Map<u16, VariableView> {
    if m.contains_key(w) {
        m
    } else {
        m.insert(w, VariableView { name: abs_var_name(w), value: VariableValue::U16(w) })
    }
}

/// The text of a shape under a given registry.
pub open spec fn shape_text(sh: InstrShape, m: Map<u16, VariableView>) -> Seq<char> {
    match sh {
        InstrShape::Plain(mn) => mn,
        InstrShape::Imm(mn, v) => mn + " #$"@ + hex2_lower(v),
        InstrShape::Zp(mn, v) => mn + " "@ + zp_operand_text(v, m),
        InstrShape::ZpX(mn, v) => mn + " "@ + zp_operand_text(v, m) + ",x"@,
        InstrShape::Abs(mn, w) => mn + " "@ + abs_operand_text(w, m),
        InstrShape::AbsX(mn, w) => mn + " "@ + abs_operand_text(w, m) + ",x"@,
        InstrShape::AbsY(mn, w) => mn + " "@ + abs_operand_text(w, m) + ",y"@,
        InstrShape::IndY(mn, v) => mn + " ($"@ + hex2_lower(v) + "),y"@,
        InstrShape::Labeled(mn, l) => mn + " "@ + l,
    }
}

/// The registry after rendering a shape.
pub open spec fn shape_map_after(sh: InstrShape, m: Map<u16, VariableView>) -> Map<
    u16,
    VariableView,
> {
    match sh {
        InstrShape::Zp(mn, v) => zp_map_after(v, m),
        InstrShape::ZpX(mn, v) => zp_map_after(v, m),
        InstrShape::Abs(mn, w) => abs_map_after(w, m),
        InstrShape::AbsX(mn, w) => abs_map_after(w, m),
        InstrShape::AbsY(mn, w) => abs_map_after(w, m),
        _ => m,
    }
}

/// The text of an instruction under a given registry.
pub open spec fn instr_text(i: Instruction, m: Map<u16, VariableView>) -> Seq<char> {
    shape_text(shape(i), m)
}

/// The registry after rendering an instruction. Rendering a bound operand
/// address never changes the registry; a fresh one adds exactly its binding.
pub open spec fn instr_map_after(i: Instruction, m: Map<u16, VariableView>) -> Map<
    u16,
    VariableView,
> {
    shape_map_after(shape(i), m)
}

fn imm_string(mn: &str, v: u8) -> (r: String)
    ensures
        r@ == mn@ + " #$"@ + hex2_lower(v),
{
    let mut s = String::from_str(mn);
    s.append(" #$");
    append_hex2_lower(&mut s, v);
    s
}

fn ind_y_string(mn: &str, v: u8) -> (r: String)
    ensures
        r@ == mn@ + " ($"@ + hex2_lower(v) + "),y"@,
{
    let mut s = String::from_str(mn);
    s.append(" ($");
    append_hex2_lower(&mut s, v);
    s.append("),y");
    s
}

fn labeled_string(mn: &str, l: &String) -> (r: String)
    ensures
        r@ == mn@ + " "@ + l@,
{
    let mut s = String::from_str(mn);
    s.append(" ");
    s.append(l.as_str());
    s
}

fn zp_string(mn: &str, v: u8, vars: &mut VariableMap) -> (r: String)
    requires
        old(vars).wf(),
    ensures
        final(vars).wf(),
        r@ == mn@ + " "@ + zp_operand_text(v, old(vars)@),
        final(vars)@ == zp_map_after(v, old(vars)@),
{
    let addr = v as u16;
    let mut s = String::from_str(mn);
    s.append(" ");
    let existing: Option<String> = match vars.get(addr) {
        Some(var) => Some(var.name.clone()),
        None => None,
    };
    match existing {
        Some(name) => {
            s.append(name.as_str());
        },
        None => {
            let mut nm = String::from_str("ZP_");
            append_hex2_upper(&mut nm, v);
            vars.insert(addr, Variable { name: nm, value: VariableValue::U8(v) });
            s.append("$");
            append_hex2_lower(&mut s, v);
        },
    }
    s
}

fn zp_x_string(mn: &str, v: u8, vars: &mut VariableMap) -> (r: String)
    requires
        old(vars).wf(),
    ensures
        final(vars).wf(),
        r@ == mn@ + " "@ + zp_operand_text(v, old(vars)@) + ",x"@,
        final(vars)@ == zp_map_after(v, old(vars)@),
{
    let mut s = zp_string(mn, v, vars);
    s.append(",x");
    s
}

fn abs_string(mn: &str, w: u16, vars: &mut VariableMap) -> (r: String)
    requires
        old(vars).wf(),
    ensures
        final(vars).wf(),
        r@ == mn@ + " "@ + abs_operand_text(w, old(vars)@),
        final(vars)@ == abs_map_after(w, old(vars)@),
{
    let mut s = String::from_str(mn);
    s.append(" ");
    let existing: Option<String> = match vars.get(w) {
        Some(var) => Some(var.name.clone()),
        None => None,
    };
    match existing {
        Some(name) => {
            s.append(name.as_str());
        },
        None => {
            let mut nm = String::from_str("ABS_");
            append_hex4_upper(&mut nm, w);
            vars.insert(w, Variable { name: nm, value: VariableValue::U16(w) });
            s.append("$");
            append_hex4_lower(&mut s, w);
        },
    }
    s
}

fn abs_x_string(mn: &str, w: u16, vars: &mut VariableMap) -> (r: String)
    requires
        old(vars).wf(),
    ensures
        final(vars).wf(),
        r@ == mn@ + " "@ + abs_operand_text(w, old(vars)@) + ",x"@,
        final(vars)@ == abs_map_after(w, old(vars)@),
{
    let mut s = abs_string(mn, w, vars);
    s.append(",x");
    s
}

fn abs_y_string(mn: &str, w: u16, vars: &mut VariableMap) -> (r: String)
    requires
        old(vars).wf(),
    ensures
        final(vars).wf(),
        r@ == mn@ + " "@ + abs_operand_text(w, old(vars)@) + ",y"@,
        final(vars)@ == abs_map_after(w, old(vars)@),
{
    let mut s = abs_string(mn, w, vars);
    s.append(",y");
    s
}

impl Instruction {
    /// Renders the instruction, binding any fresh operand address in the
    /// registry. The text is read against the registry as it stood before the
    /// call; an already-bound address renders as its existing name and adds
    /// nothing.
    pub fn to_write_string(&self, addr_to_variable: &mut VariableMap) -> (r: String)
        requires
            old(addr_to_variable).wf(),
        ensures
            final(addr_to_variable).wf(),
            r@ == instr_text(*self, old(addr_to_variable)@),
            final(addr_to_variable)@ == instr_map_after(*self, old(addr_to_variable)@),
    {
        match self {
            Instruction::ORA_ZP(v) => zp_string("ora", *v, addr_to_variable),
            Instruction::ASL_ZP(v) => zp_string("asl", *v, addr_to_variable),
            Instruction::PHP => String::from_str("php"),
            Instruction::ORA_IMM(v) => imm_string("ora", *v),
            Instruction::ASL => String::from_str("asl"),
            Instruction::BPL_REL(_, l) => labeled_string("bpl", l),
            Instruction::CLC => String::from_str("clc"),
            Instruction::JSR_ABS(_, l) => labeled_string("jsr", l),
            Instruction::BIT_ZP(v) => zp_string("bit", *v, addr_to_variable),
            Instruction::AND_ZP(v) => zp_string("and", *v, addr_to_variable),
            Instruction::PLP => String::from_str("plp"),
            Instruction::AND_IMM(v) => imm_string("and", *v),
            Instruction::ROL => String::from_str("rol"),
            Instruction::BMI_REL(_, l) => labeled_string("bmi", l),
            Instruction::AND_ZP_X(v) => zp_x_string("and", *v, addr_to_variable),
            Instruction::SEC => String::from_str("sec"),
            Instruction::RTI => String::from_str("rti"),
            Instruction::EOR_ZP(v) => zp_string("eor", *v, addr_to_variable),
            Instruction::LSR_ZP(v) => zp_string("lsr", *v, addr_to_variable),
            Instruction::PHA => String::from_str("pha"),
            Instruction::EOR_IMM(v) => imm_string("eor", *v),
            Instruction::LSR => String::from_str("lsr"),
            Instruction::JMP_ABS(_, l) => labeled_string("jmp", l),
            Instruction::EOR_ABS(v) => abs_string("eor", *v, addr_to_variable),
            Instruction::RTS => String::from_str("rts"),
            Instruction::ADC_ZP(v) => zp_string("adc", *v, addr_to_variable),
            Instruction::ROR_ZP(v) => zp_string("ror", *v, addr_to_variable),
            Instruction::PLA => String::from_str("pla"),
            Instruction::ADC_IMM(v) => imm_string("adc", *v),
            Instruction::ROR => String::from_str("ror"),
            Instruction::ADC_ABS(v) => abs_string("adc", *v, addr_to_variable),
            Instruction::SEI => String::from_str("sei"),
            Instruction::ADC_ABS_X(v) => abs_x_string("adc", *v, addr_to_variable),
            Instruction::STY_ZP(v) => zp_string("sty", *v, addr_to_variable),
            Instruction::STA_ZP(v) => zp_string("sta", *v, addr_to_variable),
            Instruction::STX_ZP(v) => zp_string("stx", *v, addr_to_variable),
            Instruction::DEY => String::from_str("dey"),
            Instruction::TXA => String::from_str("txa"),
            Instruction::STY_ABS(v) => abs_string("sty", *v, addr_to_variable),
            Instruction::STA_ABS(v) => abs_string("sta", *v, addr_to_variable),
            Instruction::STX_ABS(v) => abs_string("stx", *v, addr_to_variable),
            Instruction::BCC_REL(_, l) => labeled_string("bcc", l),
            Instruction::STA_IND_Y(v) => ind_y_string("sta", *v),
            Instruction::STY_ZP_X(v) => zp_x_string("sty", *v, addr_to_variable),
            Instruction::STA_ZP_X(v) => zp_x_string("sta", *v, addr_to_variable),
            Instruction::TYA => String::from_str("tya"),
            Instruction::STA_ABS_Y(v) => abs_y_string("sta", *v, addr_to_variable),
            Instruction::TXS => String::from_str("txs"),
            Instruction::STA_ABS_X(v) => abs_x_string("sta", *v, addr_to_variable),
            Instruction::LDY_IMM(v) => imm_string("ldy", *v),
            Instruction::LDX_IMM(v) => imm_string("ldx", *v),
            Instruction::LDY_ZP(v) => zp_string("ldy", *v, addr_to_variable),
            Instruction::LDA_ZP(v) => zp_string("lda", *v, addr_to_variable),
            Instruction::LDX_ZP(v) => zp_string("ldx", *v, addr_to_variable),
            Instruction::LDA_IMM(v) => imm_string("lda", *v),
            Instruction::TAX => String::from_str("tax"),
            Instruction::TAY => String::from_str("tay"),
            Instruction::LDY_ABS(v) => abs_string("ldy", *v, addr_to_variable),
            Instruction::LDA_ABS(v) => abs_string("lda", *v, addr_to_variable),
            Instruction::LDX_ABS(v) => abs_string("ldx", *v, addr_to_variable),
            Instruction::BCS_REL(_, l) => labeled_string("bcs", l),
            Instruction::LDA_IND_Y(v) => ind_y_string("lda", *v),
            Instruction::LDY_ZP_X(v) => zp_x_string("ldy", *v, addr_to_variable),
            Instruction::LDA_ZP_X(v) => zp_x_string("lda", *v, addr_to_variable),
            Instruction::LDA_ABS_Y(v) => abs_y_string("lda", *v, addr_to_variable),
            Instruction::LDY_ABS_X(v) => abs_x_string("ldy", *v, addr_to_variable),
            Instruction::LDA_ABS_X(v) => abs_x_string("lda", *v, addr_to_variable),
            Instruction::LDX_ABS_Y(v) => abs_y_string("ldx", *v, addr_to_variable),
            Instruction::CPY_IMM(v) => imm_string("cpy", *v),
            Instruction::CPY_ZP(v) => zp_string("cpy", *v, addr_to_variable),
            Instruction::CMP_ZP(v) => zp_string("cmp", *v, addr_to_variable),
            Instruction::DEC_ZP(v) => zp_string("dec", *v, addr_to_variable),
            Instruction::INY => String::from_str("iny"),
            Instruction::CMP_IMM(v) => imm_string("cmp", *v),
            Instruction::DEX => String::from_str("dex"),
            Instruction::CMP_ABS(v) => abs_string("cmp", *v, addr_to_variable),
            Instruction::DEC_ABS(v) => abs_string("dec", *v, addr_to_variable),
            Instruction::BNE_REL(_, l) => labeled_string("bne", l),
            Instruction::CMP_ZP_X(v) => zp_x_string("cmp", *v, addr_to_variable),
            Instruction::DEC_ZP_X(v) => zp_x_string("dec", *v, addr_to_variable),
            Instruction::CLD => String::from_str("cld"),
            Instruction::CMP_ABS_Y(v) => abs_y_string("cmp", *v, addr_to_variable),
            Instruction::CMP_ABS_X(v) => abs_x_string("cmp", *v, addr_to_variable),
            Instruction::DEC_ABS_X(v) => abs_x_string("dec", *v, addr_to_variable),
            Instruction::CPX_IMM(v) => imm_string("cpx", *v),
            Instruction::CPX_ZP(v) => zp_string("cpx", *v, addr_to_variable),
            Instruction::SBC_ZP(v) => zp_string("sbc", *v, addr_to_variable),
            Instruction::INC_ZP(v) => zp_string("inc", *v, addr_to_variable),
            Instruction::INX => String::from_str("inx"),
            Instruction::SBC_IMM(v) => imm_string("sbc", *v),
            Instruction::INC_ABS(v) => abs_string("inc", *v, addr_to_variable),
            Instruction::BEQ_REL(_, l) => labeled_string("beq", l),
            Instruction::INC_ZP_X(v) => zp_x_string("inc", *v, addr_to_variable),
            Instruction::SBC_ABS_X(v) => abs_x_string("sbc", *v, addr_to_variable),
            Instruction::INC_ABS_X(v) => abs_x_string("inc", *v, addr_to_variable),
            Instruction::JAM => String::from_str("jam"),
        }
    }
}

/// Name synthesis is deterministic and happens once per address: a fresh
/// zero-page or absolute operand address binds exactly its `ZP_`/`ABS_` name,
/// and re-encountering a bound address changes nothing and renders its
/// existing name.
pub proof fn lemma_variable_synthesis(v: u8, w: u16, m: Map<u16, VariableView>)
    ensures
        !m.contains_key(v as u16) ==> zp_map_after(v, m) == m.insert(
            v as u16,
            VariableView { name: zp_var_name(v), value: VariableValue::U8(v) },
        ),
        m.contains_key(v as u16) ==> zp_map_after(v, m) == m && zp_operand_text(v, m) == m[
            v as u16
        ].name,
        !m.contains_key(w) ==> abs_map_after(w, m) == m.insert(
            w,
            VariableView { name: abs_var_name(w), value: VariableValue::U16(w) },
        ),
        m.contains_key(w) ==> abs_map_after(w, m) == m && abs_operand_text(w, m) == m[w].name,
{
}

} // verus!

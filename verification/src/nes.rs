use vstd::prelude::*;

use crate::code::{AsmCode, Statement, as_byte, is_data_elem, listing_text};
use crate::disassembler::{Disassembler, AddrMapping, map_addr_to_offset};
use crate::errors::{DisassembleError, error_message};
use crate::instruction::Instruction;
use crate::text::{append_dec_u8, dec_u8};
use crate::variable::{Variable, VariableValue, VariableView, VariableMap};

verus! {

/// The container's fixed geometry: header size, bank sizes, and the address
/// the program banks are mapped at.
pub const NES_HEADER_LENGTH: usize = 16;

pub const NES_PRG_ROM_PAGE_LENGTH: usize = 16384;

pub const NES_CHR_ROM_PAGE_LENGTH: usize = 8192;

pub const NES_PRG_ROM_START_ADDRESS: u16 = 0x8000;

/// Whether the input opens with the container magic: `N`, `E`, `S`, 0x1a.
pub open spec fn nes_magic(data: Seq<u8>) -> bool {
    &&& data.len() >= 4
    &&& data[0] == 78
    &&& data[1] == 69
    &&& data[2] == 83
    &&& data[3] == 0x1a
}

/// Whether the first four cells of a store still hold the raw container
/// magic.
pub open spec fn cells_magic(cells: Seq<Statement>) -> bool {
    &&& cells.len() >= 4
    &&& cells[0].asm_code == AsmCode::DataHexU8(78u8)
    &&& cells[1].asm_code == AsmCode::DataHexU8(69u8)
    &&& cells[2].asm_code == AsmCode::DataHexU8(83u8)
    &&& cells[3].asm_code == AsmCode::DataHexU8(0x1au8)
}

/// The comment attached to each header byte.
pub open spec fn header_comment(i: int) -> Seq<char> {
    if i == 4 {
        "PRG ROM count"@
    } else if i == 5 {
        "CHR ROM count"@
    } else if i == 6 {
        "Flags 6
      ++++------ Mapper Number D0..D3
      ||||        1: Yes
      ||||        0: No
      ||||+----- Hard-wired four-screen mode
      |||||       1: Present between Header and PRG-ROM data
      |||||       0: Not present
      |||||+---- 512-byte Trainer
      ||||||      1: Present
      ||||||      0: Not present
      ||||||+--- \"Battery\" and other non-volatile memory
      |||||||     1: Vertical
      |||||||     0: Horizontal or mapper-controlled
      |||||||+-- Hard-wired nametable mirroring type
      NNNNFTBM"@
    } else if i == 7 {
        "Flags 7
      ++++------ Mapper Number D4..D7
      ||||++---- NES 2.0 identifier
      ||||||      3: Extended Console Type
      ||||||      2: Nintendo Playchoice 10
      ||||||      1: Nintendo Vs. System
      ||||||      0: Nintendo Entertainment System/Family Computer
      ||||||++-- Console type
      NNNN10TT"@
    } else if i == 8 {
        "Mapper MSB/Submapper
      ++++------ Submapper number
      ||||++++-- Mapper number D8..D11
      SSSSNNNN"@
    } else if i == 9 {
        "PRG-ROM/CHR-ROM size MSB
      ++++------ CHR-ROM size MSB
      ||||++++-- PRG-ROM size MSB
      CCCCPPPP"@
    } else if i == 10 {
        "PRG-RAM/EEPROM size            
  If the shift count is zero, there is no PRG-(NV)RAM.
  If the shift count is non-zero, the actual size is
  \"64 << shift count\" bytes, i.e. 8192 bytes for a shift count of 7.
      ++++------ PRG-NVRAM/EEPROM (non-volatile) shift count
      ||||++++-- PRG-RAM (volatile) shift count
      ppppPPPP"@
    } else if i == 11 {
        "CHR-RAM size
  If the shift count is zero, there is no CHR-(NV)RAM.
  If the shift count is non-zero, the actual size is
  \"64 << shift count\" bytes, i.e. 8192 bytes for a shift count of 7.
      ++++------ CHR-NVRAM size (non-volatile) shift count
      ||||++++-- CHR-RAM size (volatile) shift count
      ccccCCCC"@
    } else if i == 12 {
        "CPU/PPU Timing
            ++- CPU/PPU timing mode
            ||   0: RP2C02 (\"NTSC NES\")
            ||   1: RP2C07 (\"Licensed PAL NES\")
            ||   2: Multiple-region
            ||   3: UMC 6527P (\"Dendy\")
      ......VV"@
    } else if i == 13 {
        "When Byte 7 AND 3 =1: Vs. System Type
      ++++------ Vs. Hardware Type
      ||||++++-- Vs. PPU Type
      MMMMPPPP"@
    } else if i == 14 {
        "Miscellaneous ROMs
            ++- Number of miscellaneous ROMs present
      ......RR"@
    } else {
        "Default Expansion Device
        ++++++- Default Expansion Device
      ..DDDDDD"@
    }
}

/// The hardware register bindings seeded into a registry before
/// disassembling a cartridge.
pub open spec fn nes_seeded_vars(m: Map<u16, VariableView>) -> Map<u16, VariableView> {
    m.insert(0x2000, VariableView { name: "PPU_CTRL"@, value: VariableValue::U16(0x2000) })
        .insert(0x2001, VariableView { name: "PPU_MASK"@, value: VariableValue::U16(0x2001) })
        .insert(0x2002, VariableView { name: "PPU_STATUS"@, value: VariableValue::U16(0x2002) })
        .insert(0x2003, VariableView { name: "OAM_ADDR"@, value: VariableValue::U16(0x2003) })
        .insert(0x2004, VariableView { name: "OAM_DATA"@, value: VariableValue::U16(0x2004) })
        .insert(0x2005, VariableView { name: "PPU_SCROLL"@, value: VariableValue::U16(0x2005) })
        .insert(0x2006, VariableView { name: "PPU_ADDR"@, value: VariableValue::U16(0x2006) })
        .insert(0x2007, VariableView { name: "PPU_DATA"@, value: VariableValue::U16(0x2007) })
        .insert(0x4000, VariableView { name: "APU_PULSE_1_ENV"@, value: VariableValue::U16(0x4000) })
        .insert(
            0x4001,
            VariableView { name: "APU_PULSE_1_SWEEP"@, value: VariableValue::U16(0x4001) },
        )
        .insert(
            0x4002,
            VariableView { name: "APU_PULSE_1_TIMER"@, value: VariableValue::U16(0x4002) },
        )
        .insert(0x4003, VariableView { name: "APU_PULSE_1_LEN"@, value: VariableValue::U16(0x4003) })
        .insert(0x4004, VariableView { name: "APU_PULSE_2_ENV"@, value: VariableValue::U16(0x4004) })
        .insert(
            0x4005,
            VariableView { name: "APU_PULSE_2_SWEEP"@, value: VariableValue::U16(0x4005) },
        )
        .insert(
            0x4006,
            VariableView { name: "APU_PULSE_2_TIMER"@, value: VariableValue::U16(0x4006) },
        )
        .insert(0x4007, VariableView { name: "APU_PULSE_2_LEN"@, value: VariableValue::U16(0x4007) })
        .insert(
            0x4008,
            VariableView { name: "APU_TRIANGLE_LEN_CR"@, value: VariableValue::U16(0x4008) },
        )
        .insert(
            0x4009,
            VariableView { name: "APU_TRIANGLE_UNUSED"@, value: VariableValue::U16(0x4009) },
        )
        .insert(
            0x400a,
            VariableView { name: "APU_TRIANGLE_TIMER"@, value: VariableValue::U16(0x400a) },
        )
        .insert(
            0x400b,
            VariableView { name: "APU_TRIANGLE_LOAD"@, value: VariableValue::U16(0x400b) },
        )
        .insert(0x400c, VariableView { name: "APU_NOISE_ENV"@, value: VariableValue::U16(0x400c) })
        .insert(
            0x400d,
            VariableView { name: "APU_NOISE_UNUSED"@, value: VariableValue::U16(0x400d) },
        )
        .insert(0x400e, VariableView { name: "APU_NOISE_LP"@, value: VariableValue::U16(0x400e) })
        .insert(0x400f, VariableView { name: "APU_NOISE_LOAD"@, value: VariableValue::U16(0x400f) })
        .insert(0x4010, VariableView { name: "APU_DMC_IL__RRRR"@, value: VariableValue::U16(0x4010) })
        .insert(0x4011, VariableView { name: "APU_DMC_LOAD"@, value: VariableValue::U16(0x4011) })
        .insert(
            0x4012,
            VariableView { name: "APU_DMC_SAMPLE_ADDR"@, value: VariableValue::U16(0x4012) },
        )
        .insert(
            0x4013,
            VariableView { name: "APU_DMC_SAMPLE_LEN"@, value: VariableValue::U16(0x4013) },
        )
        .insert(0x4014, VariableView { name: "OAM_DMA"@, value: VariableValue::U16(0x4014) })
        .insert(
            0x4015,
            VariableView { name: "APU_CH_ENABLE_STATUS"@, value: VariableValue::U16(0x4015) },
        )
        .insert(
            0x4017,
            VariableView { name: "APU_ALL_FRAME_COUNTER"@, value: VariableValue::U16(0x4017) },
        )
}

/// The cartridge-aware front end: parses the container, then seeds and runs
/// the traversal once per vector per program bank.
pub struct NesDisassembler {
    d: Disassembler,
    prg_rom_count: u8,
    chr_rom_count: u8,
    flags6: u8,
    flags7: u8,
    mapper: u8,
    prg_chr_rom_size: u8,
    prg_ram_eeprom_size: u8,
    chr_ram_size: u8,
    cpu_ppu_timing: u8,
    flags13: u8,
    misc_roms: u8,
    default_expansion_device: u8,
}

impl NesDisassembler {
    /// Whether this input is a cartridge this front end handles.
    pub fn is_handled(data: &Vec<u8>) -> (r: bool)
        requires
            data@.len() >= 4,
        ensures
            r == nes_magic(data@),
    {
        data[0] == 78 && data[1] == 69 && data[2] == 83 && data[3] == 0x1a
    }

    fn set_variables(&mut self)
        requires
            old(self).d.code.wf(),
        ensures
            final(self).d.code.wf(),
            final(self).d.code.cells() == old(self).d.code.cells(),
            final(self).d.code.vars() == nes_seeded_vars(old(self).d.code.vars()),
            final(self).prg_rom_count == old(self).prg_rom_count,
            final(self).chr_rom_count == old(self).chr_rom_count,
    {
        self.d.code.set_variable(
            0x2000,
            Variable { name: String::from_str("PPU_CTRL"), value: VariableValue::U16(0x2000) },
        );
        self.d.code.set_variable(
            0x2001,
            Variable { name: String::from_str("PPU_MASK"), value: VariableValue::U16(0x2001) },
        );
        self.d.code.set_variable(
            0x2002,
            Variable { name: String::from_str("PPU_STATUS"), value: VariableValue::U16(0x2002) },
        );
        self.d.code.set_variable(
            0x2003,
            Variable { name: String::from_str("OAM_ADDR"), value: VariableValue::U16(0x2003) },
        );
        self.d.code.set_variable(
            0x2004,
            Variable { name: String::from_str("OAM_DATA"), value: VariableValue::U16(0x2004) },
        );
        self.d.code.set_variable(
            0x2005,
            Variable { name: String::from_str("PPU_SCROLL"), value: VariableValue::U16(0x2005) },
        );
        self.d.code.set_variable(
            0x2006,
            Variable { name: String::from_str("PPU_ADDR"), value: VariableValue::U16(0x2006) },
        );
        self.d.code.set_variable(
            0x2007,
            Variable { name: String::from_str("PPU_DATA"), value: VariableValue::U16(0x2007) },
        );
        self.d.code.set_variable(
            0x4000,
            Variable {
                name: String::from_str("APU_PULSE_1_ENV"),
                value: VariableValue::U16(0x4000),
            },
        );
        self.d.code.set_variable(
            0x4001,
            Variable {
                name: String::from_str("APU_PULSE_1_SWEEP"),
                value: VariableValue::U16(0x4001),
            },
        );
        self.d.code.set_variable(
            0x4002,
            Variable {
                name: String::from_str("APU_PULSE_1_TIMER"),
                value: VariableValue::U16(0x4002),
            },
        );
        self.d.code.set_variable(
            0x4003,
            Variable {
                name: String::from_str("APU_PULSE_1_LEN"),
                value: VariableValue::U16(0x4003),
            },
        );
        self.d.code.set_variable(
            0x4004,
            Variable {
                name: String::from_str("APU_PULSE_2_ENV"),
                value: VariableValue::U16(0x4004),
            },
        );
        self.d.code.set_variable(
            0x4005,
            Variable {
                name: String::from_str("APU_PULSE_2_SWEEP"),
                value: VariableValue::U16(0x4005),
            },
        );
        self.d.code.set_variable(
            0x4006,
            Variable {
                name: String::from_str("APU_PULSE_2_TIMER"),
                value: VariableValue::U16(0x4006),
            },
        );
        self.d.code.set_variable(
            0x4007,
            Variable {
                name: String::from_str("APU_PULSE_2_LEN"),
                value: VariableValue::U16(0x4007),
            },
        );
        self.d.code.set_variable(
            0x4008,
            Variable {
                name: String::from_str("APU_TRIANGLE_LEN_CR"),
                value: VariableValue::U16(0x4008),
            },
        );
        self.d.code.set_variable(
            0x4009,
            Variable {
                name: String::from_str("APU_TRIANGLE_UNUSED"),
                value: VariableValue::U16(0x4009),
            },
        );
        self.d.code.set_variable(
            0x400a,
            Variable {
                name: String::from_str("APU_TRIANGLE_TIMER"),
                value: VariableValue::U16(0x400a),
            },
        );
        self.d.code.set_variable(
            0x400b,
            Variable {
                name: String::from_str("APU_TRIANGLE_LOAD"),
                value: VariableValue::U16(0x400b),
            },
        );
        self.d.code.set_variable(
            0x400c,
            Variable {
                name: String::from_str("APU_NOISE_ENV"),
                value: VariableValue::U16(0x400c),
            },
        );
        self.d.code.set_variable(
            0x400d,
            Variable {
                name: String::from_str("APU_NOISE_UNUSED"),
                value: VariableValue::U16(0x400d),
            },
        );
        self.d.code.set_variable(
            0x400e,
            Variable { name: String::from_str("APU_NOISE_LP"), value: VariableValue::U16(0x400e) },
        );
        self.d.code.set_variable(
            0x400f,
            Variable {
                name: String::from_str("APU_NOISE_LOAD"),
                value: VariableValue::U16(0x400f),
            },
        );
        self.d.code.set_variable(
            0x4010,
            Variable {
                name: String::from_str("APU_DMC_IL__RRRR"),
                value: VariableValue::U16(0x4010),
            },
        );
        self.d.code.set_variable(
            0x4011,
            Variable { name: String::from_str("APU_DMC_LOAD"), value: VariableValue::U16(0x4011) },
        );
        self.d.code.set_variable(
            0x4012,
            Variable {
                name: String::from_str("APU_DMC_SAMPLE_ADDR"),
                value: VariableValue::U16(0x4012),
            },
        );
        self.d.code.set_variable(
            0x4013,
            Variable {
                name: String::from_str("APU_DMC_SAMPLE_LEN"),
                value: VariableValue::U16(0x4013),
            },
        );
        self.d.code.set_variable(
            0x4014,
            Variable { name: String::from_str("OAM_DMA"), value: VariableValue::U16(0x4014) },
        );
        self.d.code.set_variable(
            0x4015,
            Variable {
                name: String::from_str("APU_CH_ENABLE_STATUS"),
                value: VariableValue::U16(0x4015),
            },
        );
        self.d.code.set_variable(
            0x4017,
            Variable {
                name: String::from_str("APU_ALL_FRAME_COUNTER"),
                value: VariableValue::U16(0x4017),
            },
        );
    }
}

/// The store after the header parse has handled the magic and the fields
/// below `k`: the prefix reshaped, the rest untouched.
pub open spec fn header_steps(oldc: Seq<Statement>, cur: Seq<Statement>, k: int) -> bool {
    &&& cur.len() == oldc.len()
    &&& oldc.len() >= 16
    &&& 4 <= k <= 16
    &&& (cur[0].asm_code matches AsmCode::DataSeq(v) && v@.len() == 2 && (
    v@[0] matches AsmCode::DataString(t) && t@ == "NES"@) && v@[1] == AsmCode::DataHexU8(0x1au8))
    &&& (cur[0].segment matches Some(sg) && sg@ == "HEADER"@)
    &&& cur[0].comment == oldc[0].comment
    &&& cur[0].label == oldc[0].label
    &&& forall|i: int| 1 <= i < 4 ==> (#[trigger] cur[i]) == (Statement {
        asm_code: AsmCode::Used,
        ..oldc[i]
    })
    &&& forall|i: int| 4 <= i < k && i < 6 ==> (#[trigger] cur[i]).asm_code == AsmCode::DataU8(
        as_byte(oldc[i].asm_code).unwrap(),
    )
    &&& forall|i: int| 6 <= i < k ==> (#[trigger] cur[i]).asm_code == AsmCode::DataBinaryU8(
        as_byte(oldc[i].asm_code).unwrap(),
    )
    &&& forall|i: int| 4 <= i < k ==> ((#[trigger] cur[i]).comment matches Some(c) && c@
        == header_comment(i))
    &&& forall|i: int| 4 <= i < k ==> (#[trigger] cur[i]).segment == oldc[i].segment
        && cur[i].label == oldc[i].label
    &&& forall|i: int| k <= i < oldc.len() ==> (#[trigger] cur[i]) == oldc[i]
}

/// How the container parser reshapes the first sixteen cells: the magic as
/// one grouped line opening the `HEADER` segment, the two counts in decimal,
/// and every flag byte in binary, each with its documenting comment.
pub open spec fn header_parsed(oldc: Seq<Statement>, newc: Seq<Statement>) -> bool {
    &&& newc.len() == oldc.len()
    &&& oldc.len() >= 16
    &&& (newc[0].asm_code matches AsmCode::DataSeq(v) && v@.len() == 2 && (
    v@[0] matches AsmCode::DataString(t) && t@ == "NES"@) && v@[1] == AsmCode::DataHexU8(0x1au8))
    &&& (newc[0].segment matches Some(sg) && sg@ == "HEADER"@)
    &&& newc[0].comment == oldc[0].comment
    &&& newc[0].label == oldc[0].label
    &&& forall|i: int| 1 <= i < 4 ==> (#[trigger] newc[i]) == (Statement {
        asm_code: AsmCode::Used,
        ..oldc[i]
    })
    &&& forall|i: int| 4 <= i < 6 ==> (#[trigger] newc[i]).asm_code == AsmCode::DataU8(
        as_byte(oldc[i].asm_code).unwrap(),
    )
    &&& forall|i: int| 6 <= i < 16 ==> (#[trigger] newc[i]).asm_code == AsmCode::DataBinaryU8(
        as_byte(oldc[i].asm_code).unwrap(),
    )
    &&& forall|i: int| 4 <= i < 16 ==> ((#[trigger] newc[i]).comment matches Some(c) && c@
        == header_comment(i))
    &&& forall|i: int| 4 <= i < 16 ==> (#[trigger] newc[i]).segment == oldc[i].segment
        && newc[i].label == oldc[i].label
    &&& forall|i: int| 16 <= i < oldc.len() ==> (#[trigger] newc[i]) == oldc[i]
}

proof fn lemma_header_step(
    oldc: Seq<Statement>,
    pre: Seq<Statement>,
    post: Seq<Statement>,
    k: int,
    binary: bool,
)
    requires
        header_steps(oldc, pre, k),
        4 <= k < 16,
        as_byte(pre[k].asm_code) is Some,
        post.len() == pre.len(),
        forall|i: int| 0 <= i < pre.len() && i != k ==> post[i] == #[trigger] pre[i],
        post[k].asm_code == (if binary {
            AsmCode::DataBinaryU8(as_byte(pre[k].asm_code).unwrap())
        } else {
            AsmCode::DataU8(as_byte(pre[k].asm_code).unwrap())
        }),
        (post[k].comment matches Some(c) && c@ == header_comment(k)),
        post[k].segment == pre[k].segment,
        post[k].label == pre[k].label,
        binary <==> k >= 6,
    ensures
        header_steps(oldc, post, k + 1),
{
    assert(pre[k] == oldc[k]);
    assert(post[0] == pre[0]);
    assert forall|i: int| 1 <= i < 4 implies #[trigger] post[i] == (Statement {
        asm_code: AsmCode::Used,
        ..oldc[i]
    }) by {
        assert(post[i] == pre[i]);
    }
    assert forall|i: int| 4 <= i < k + 1 && i < 6 implies (#[trigger] post[i]).asm_code
        == AsmCode::DataU8(as_byte(oldc[i].asm_code).unwrap()) by {
        if i < k {
            assert(post[i] == pre[i]);
        }
    }
    assert forall|i: int| 6 <= i < k + 1 implies (#[trigger] post[i]).asm_code
        == AsmCode::DataBinaryU8(as_byte(oldc[i].asm_code).unwrap()) by {
        if i < k {
            assert(post[i] == pre[i]);
        }
    }
    assert forall|i: int| 4 <= i < k + 1 implies ((#[trigger] post[i]).comment matches Some(c)
        && c@ == header_comment(i)) by {
        if i < k {
            assert(post[i] == pre[i]);
        }
    }
    assert forall|i: int| 4 <= i < k + 1 implies (#[trigger] post[i]).segment == oldc[i].segment
        && post[i].label == oldc[i].label by {
        if i < k {
            assert(post[i] == pre[i]);
        }
    }
    assert forall|i: int| k + 1 <= i < oldc.len() implies (#[trigger] post[i]) == oldc[i] by {
        assert(post[i] == pre[i]);
    }
}

impl NesDisassembler {
    /// Parses the sixteen header bytes: checks the magic, reads the bank
    /// counts, and reclassifies every header cell for display.
    fn parse_header(&mut self) -> (r: Result<(), DisassembleError>)
        requires
            old(self).d.code.wf(),
            old(self).d.code.cells().len() >= 16,
        ensures
            final(self).d.code.wf(),
            final(self).d.code.cells().len() == old(self).d.code.cells().len(),
            final(self).d.code.vars() == old(self).d.code.vars(),
            !cells_magic(old(self).d.code.cells()) ==> ((r matches Err(
                DisassembleError::ParseError(m),
            ) && m@ == "invalid nes header"@) && final(self).d.code.cells() == old(
                self,
            ).d.code.cells() && *final(self) == *old(self)),
            (cells_magic(old(self).d.code.cells()) && (forall|i: int|
                4 <= i < 16 ==> as_byte((#[trigger] old(self).d.code.cells()[i]).asm_code)
                    is Some)) ==> (r is Ok && header_parsed(
                old(self).d.code.cells(),
                final(self).d.code.cells(),
            ) && final(self).prg_rom_count == as_byte(old(self).d.code.cells()[4].asm_code).unwrap()
                && final(self).chr_rom_count == as_byte(
                old(self).d.code.cells()[5].asm_code,
            ).unwrap()),
            r matches Err(e) ==> (error_message(e) == "invalid nes header"@ || error_message(e)
                == "unexpected asm code"@),
    {
        if !(self.d.code.is_eq_u8(0, 78) && self.d.code.is_eq_u8(1, 69) && self.d.code.is_eq_u8(
            2,
            83,
        ) && self.d.code.is_eq_u8(3, 0x1a)) {
            return Err(DisassembleError::ParseError(String::from_str("invalid nes header")));
        }
        let mut grouped: Vec<AsmCode> = Vec::new();
        grouped.push(AsmCode::DataString(String::from_str("NES")));
        grouped.push(AsmCode::DataHexU8(0x1a));
        proof {
            assert(grouped@.len() == 2);
            assert(is_data_elem(grouped@[0]));
            assert(is_data_elem(grouped@[1]));
        }
        match self.d.code.replace(0, 4, AsmCode::DataSeq(grouped)) {
            Ok(_) => {},
            Err(e) => {
                proof {
                    assert(false);
                }
                return Err(e);
            },
        }
        let ghost after_replace = self.d.code.cells();
        self.d.code.set_segment(0, "HEADER");
        proof {
            assert forall|i: int| 1 <= i < 4 implies #[trigger] self.d.code.cells()[i] == (
            Statement { asm_code: AsmCode::Used, ..old(self).d.code.cells()[i] }) by {
                assert(self.d.code.cells()[i] == after_replace[i]);
                assert(after_replace[i] == (Statement {
                    asm_code: AsmCode::Used,
                    ..old(self).d.code.cells()[i]
                }));
            }
            assert(header_steps(old(self).d.code.cells(), self.d.code.cells(), 4));
        }
        let ghost pre_4 = self.d.code.cells();
        self.prg_rom_count = match self.d.code.replace_with_u8(4) {
            Ok(v) => v,
            Err(e) => {
                return Err(e);
            },
        };
        self.d.code.set_comment(4, "PRG ROM count");
        proof {
            lemma_header_step(old(self).d.code.cells(), pre_4, self.d.code.cells(), 4, false);
        }
        let ghost pre_5 = self.d.code.cells();
        self.chr_rom_count = match self.d.code.replace_with_u8(5) {
            Ok(v) => v,
            Err(e) => {
                return Err(e);
            },
        };
        self.d.code.set_comment(5, "CHR ROM count");
        proof {
            lemma_header_step(old(self).d.code.cells(), pre_5, self.d.code.cells(), 5, false);
        }
        let ghost pre_6 = self.d.code.cells();
        self.flags6 = match self.d.code.replace_with_binary_u8(6) {
            Ok(v) => v,
            Err(e) => {
                return Err(e);
            },
        };
        self.d.code.set_comment(
            6,
            "Flags 6
      ++++------ Mapper Number D0..D3
      ||||        1: Yes
      ||||        0: No
      ||||+----- Hard-wired four-screen mode
      |||||       1: Present between Header and PRG-ROM data
      |||||       0: Not present
      |||||+---- 512-byte Trainer
      ||||||      1: Present
      ||||||      0: Not present
      ||||||+--- \"Battery\" and other non-volatile memory
      |||||||     1: Vertical
      |||||||     0: Horizontal or mapper-controlled
      |||||||+-- Hard-wired nametable mirroring type
      NNNNFTBM",
        );
        proof {
            lemma_header_step(old(self).d.code.cells(), pre_6, self.d.code.cells(), 6, true);
        }
        let ghost pre_7 = self.d.code.cells();
        self.flags7 = match self.d.code.replace_with_binary_u8(7) {
            Ok(v) => v,
            Err(e) => {
                return Err(e);
            },
        };
        self.d.code.set_comment(
            7,
            "Flags 7
      ++++------ Mapper Number D4..D7
      ||||++---- NES 2.0 identifier
      ||||||      3: Extended Console Type
      ||||||      2: Nintendo Playchoice 10
      ||||||      1: Nintendo Vs. System
      ||||||      0: Nintendo Entertainment System/Family Computer
      ||||||++-- Console type
      NNNN10TT",
        );
        proof {
            lemma_header_step(old(self).d.code.cells(), pre_7, self.d.code.cells(), 7, true);
        }
        let ghost pre_8 = self.d.code.cells();
        self.mapper = match self.d.code.replace_with_binary_u8(8) {
            Ok(v) => v,
            Err(e) => {
                return Err(e);
            },
        };
        self.d.code.set_comment(
            8,
            "Mapper MSB/Submapper
      ++++------ Submapper number
      ||||++++-- Mapper number D8..D11
      SSSSNNNN",
        );
        proof {
            lemma_header_step(old(self).d.code.cells(), pre_8, self.d.code.cells(), 8, true);
        }
        let ghost pre_9 = self.d.code.cells();
        self.prg_chr_rom_size = match self.d.code.replace_with_binary_u8(9) {
            Ok(v) => v,
            Err(e) => {
                return Err(e);
            },
        };
        self.d.code.set_comment(
            9,
            "PRG-ROM/CHR-ROM size MSB
      ++++------ CHR-ROM size MSB
      ||||++++-- PRG-ROM size MSB
      CCCCPPPP",
        );
        proof {
            lemma_header_step(old(self).d.code.cells(), pre_9, self.d.code.cells(), 9, true);
        }
        let ghost pre_10 = self.d.code.cells();
        self.prg_ram_eeprom_size = match self.d.code.replace_with_binary_u8(10) {
            Ok(v) => v,
            Err(e) => {
                return Err(e);
            },
        };
        self.d.code.set_comment(
            10,
            "PRG-RAM/EEPROM size            
  If the shift count is zero, there is no PRG-(NV)RAM.
  If the shift count is non-zero, the actual size is
  \"64 << shift count\" bytes, i.e. 8192 bytes for a shift count of 7.
      ++++------ PRG-NVRAM/EEPROM (non-volatile) shift count
      ||||++++-- PRG-RAM (volatile) shift count
      ppppPPPP",
        );
        proof {
            lemma_header_step(old(self).d.code.cells(), pre_10, self.d.code.cells(), 10, true);
        }
        let ghost pre_11 = self.d.code.cells();
        self.chr_ram_size = match self.d.code.replace_with_binary_u8(11) {
            Ok(v) => v,
            Err(e) => {
                return Err(e);
            },
        };
        self.d.code.set_comment(
            11,
            "CHR-RAM size
  If the shift count is zero, there is no CHR-(NV)RAM.
  If the shift count is non-zero, the actual size is
  \"64 << shift count\" bytes, i.e. 8192 bytes for a shift count of 7.
      ++++------ CHR-NVRAM size (non-volatile) shift count
      ||||++++-- CHR-RAM size (volatile) shift count
      ccccCCCC",
        );
        proof {
            lemma_header_step(old(self).d.code.cells(), pre_11, self.d.code.cells(), 11, true);
        }
        let ghost pre_12 = self.d.code.cells();
        self.cpu_ppu_timing = match self.d.code.replace_with_binary_u8(12) {
            Ok(v) => v,
            Err(e) => {
                return Err(e);
            },
        };
        self.d.code.set_comment(
            12,
            "CPU/PPU Timing
            ++- CPU/PPU timing mode
            ||   0: RP2C02 (\"NTSC NES\")
            ||   1: RP2C07 (\"Licensed PAL NES\")
            ||   2: Multiple-region
            ||   3: UMC 6527P (\"Dendy\")
      ......VV",
        );
        proof {
            lemma_header_step(old(self).d.code.cells(), pre_12, self.d.code.cells(), 12, true);
        }
        let ghost pre_13 = self.d.code.cells();
        self.flags13 = match self.d.code.replace_with_binary_u8(13) {
            Ok(v) => v,
            Err(e) => {
                return Err(e);
            },
        };
        self.d.code.set_comment(
            13,
            "When Byte 7 AND 3 =1: Vs. System Type
      ++++------ Vs. Hardware Type
      ||||++++-- Vs. PPU Type
      MMMMPPPP",
        );
        proof {
            lemma_header_step(old(self).d.code.cells(), pre_13, self.d.code.cells(), 13, true);
        }
        let ghost pre_14 = self.d.code.cells();
        self.misc_roms = match self.d.code.replace_with_binary_u8(14) {
            Ok(v) => v,
            Err(e) => {
                return Err(e);
            },
        };
        self.d.code.set_comment(
            14,
            "Miscellaneous ROMs
            ++- Number of miscellaneous ROMs present
      ......RR",
        );
        proof {
            lemma_header_step(old(self).d.code.cells(), pre_14, self.d.code.cells(), 14, true);
        }
        let ghost pre_15 = self.d.code.cells();
        self.default_expansion_device = match self.d.code.replace_with_binary_u8(15) {
            Ok(v) => v,
            Err(e) => {
                return Err(e);
            },
        };
        self.d.code.set_comment(
            15,
            "Default Expansion Device
        ++++++- Default Expansion Device
      ..DDDDDD",
        );
        proof {
            lemma_header_step(old(self).d.code.cells(), pre_15, self.d.code.cells(), 15, true);
        }
        Ok(())
    }
}

/// One grouped display row: the head cell holds the sixteen original cells
/// as one data sequence, carrying no comment or label of its own, and the
/// fifteen cells behind it are bare tombstones.
pub open spec fn chr_row_grouped(oldc: Seq<Statement>, cur: Seq<Statement>, row: int) -> bool {
    &&& 0 <= row
    &&& row + 16 <= cur.len()
    &&& cur.len() == oldc.len()
    &&& (cur[row].asm_code matches AsmCode::DataSeq(v) && v@.len() == 16 && (forall|k: int|
        0 <= k < 16 ==> v@[k] == (#[trigger] oldc[row + k]).asm_code))
    &&& cur[row].comment is None
    &&& cur[row].label is None
    &&& forall|k: int| 1 <= k < 16 ==> #[trigger] cur[row + k] == crate::code::used_stmt()
}

/// The whole character region regrouped: every sixteen-byte row of every
/// bank grouped, bank `b`'s first cell opening segment `CHRROM{b}`, and no
/// other row carrying a segment.
pub open spec fn chr_grouped(oldc: Seq<Statement>, cur: Seq<Statement>, start: int, banks: int) -> bool {
    &&& forall|b: int, r: int|
        #![trigger chr_row_grouped(oldc, cur, start + b * 8192 + 16 * r)]
        0 <= b < banks && 0 <= r < 512 ==> chr_row_grouped(oldc, cur, start + b * 8192 + 16 * r)
    &&& forall|b: int| 0 <= b < banks ==> ((#[trigger] cur[start + b * 8192]).segment matches Some(
        sg,
    ) && sg@ == "CHRROM"@ + dec_u8(b as u8))
    &&& forall|b: int, r: int|
        #![trigger cur[start + b * 8192 + 16 * r]]
        0 <= b < banks && 1 <= r < 512 ==> cur[start + b * 8192 + 16 * r].segment is None
}

/// A grouped row stays grouped while its sixteen cells are untouched.
proof fn lemma_row_grouped_stable(
    oldc: Seq<Statement>,
    pre: Seq<Statement>,
    post: Seq<Statement>,
    row: int,
)
    requires
        chr_row_grouped(oldc, pre, row),
        post.len() == pre.len(),
        forall|k: int| 0 <= k < 16 ==> post[row + k] == #[trigger] pre[row + k],
    ensures
        chr_row_grouped(oldc, post, row),
{
    assert(post[row + 0] == pre[row + 0]);
    assert(post[row] == pre[row]);
    assert forall|k: int| 1 <= k < 16 implies #[trigger] post[row + k]
        == crate::code::used_stmt() by {
        assert(post[row + k] == pre[row + k]);
    }
}

/// The fixed mapping the cartridge front end hands every traversal.
pub open spec fn nes_mapping() -> AddrMapping {
    AddrMapping {
        load_addr: NES_PRG_ROM_START_ADDRESS,
        header_len: NES_HEADER_LENGTH,
        bank_len: NES_PRG_ROM_PAGE_LENGTH,
    }
}

/// The little-endian word a vector slot held in the original store.
pub open spec fn vector_value(oldc: Seq<Statement>, o: int) -> u16 {
    crate::disassembler::joint16(
        as_byte(oldc[o].asm_code).unwrap(),
        as_byte(oldc[o + 1].asm_code).unwrap(),
    )
}

/// A vector slot folded into one displayed word: the head cell holds the
/// original little-endian word with the vector's name as comment, and the
/// high byte's cell is consumed.
pub open spec fn vector_decoded(
    oldc: Seq<Statement>,
    cur: Seq<Statement>,
    o: int,
    name: Seq<char>,
) -> bool {
    &&& 0 <= o
    &&& o + 1 < cur.len()
    &&& cur.len() == oldc.len()
    &&& as_byte(oldc[o].asm_code) is Some
    &&& as_byte(oldc[o + 1].asm_code) is Some
    &&& cur[o].asm_code == AsmCode::DataHexU16(vector_value(oldc, o))
    &&& (cur[o].comment matches Some(c) && c@ == name)
    &&& cur[o + 1].asm_code is Used
}

/// The traversal from a vector ran: its entry, if mappable and in range, is
/// not left holding an undecoded byte the table recognizes.
pub open spec fn vector_explored(oldc: Seq<Statement>, cur: Seq<Statement>, o: int) -> bool {
    let m = map_addr_to_offset(nes_mapping(), vector_value(oldc, o));
    m is Some && 0 <= m.unwrap() < cur.len() ==> !(as_byte(
        cur[m.unwrap()].asm_code,
    ) matches Some(bb) && crate::disassembler::handled(bb))
}

/// Everything seeding one program bank leaves behind: the three vectors
/// folded, named and explored, and the bank base opening its segment unless
/// a traversal consumed that cell.
pub open spec fn bank_seeded(oldc: Seq<Statement>, cur: Seq<Statement>, b: int) -> bool {
    let base = NES_HEADER_LENGTH + b * NES_PRG_ROM_PAGE_LENGTH;
    &&& vector_decoded(oldc, cur, base + NES_PRG_ROM_PAGE_LENGTH - 6, "NMI"@)
    &&& vector_decoded(oldc, cur, base + NES_PRG_ROM_PAGE_LENGTH - 4, "RESET"@)
    &&& vector_decoded(oldc, cur, base + NES_PRG_ROM_PAGE_LENGTH - 2, "IRQ"@)
    &&& vector_explored(oldc, cur, base + NES_PRG_ROM_PAGE_LENGTH - 6)
    &&& vector_explored(oldc, cur, base + NES_PRG_ROM_PAGE_LENGTH - 4)
    &&& vector_explored(oldc, cur, base + NES_PRG_ROM_PAGE_LENGTH - 2)
    &&& ((cur[base].segment matches Some(sg) && sg@ == "PRGROM"@ + dec_u8(b as u8))
        || cur[base].asm_code is Used)
}

/// The label prefix bank `b`'s traversals run under.
pub open spec fn bank_prefix(b: int) -> Seq<char> {
    "prgrom"@ + dec_u8(b as u8)
}

/// Every cell the seeding decoded holds what the decode table yields for the
/// original bytes, under the concrete prefix of one of the banks.
pub open spec fn table_decoded_banks(oldc: Seq<Statement>, cur: Seq<Statement>, prg: int) -> bool {
    forall|i: int|
        0 <= i < cur.len() && (#[trigger] cur[i]).asm_code is Instruction && !(0 <= i < oldc.len()
            && oldc[i].asm_code is Instruction) ==> (cur[i].asm_code matches AsmCode::Instruction(
            ins,
        ) && exists|b: int|
            0 <= b < prg && #[trigger] crate::disassembler::installed_from_table(
                oldc,
                i,
                bank_prefix(b),
                ins,
            ))
}

/// A label text one bank's traversals can produce: the bank's entry labels
/// or one of its target labels.
pub open spec fn bank_label(l: Seq<char>, b: int) -> bool {
    ||| l == crate::disassembler::entry_label_text(bank_prefix(b), "nmi"@)
    ||| l == crate::disassembler::entry_label_text(bank_prefix(b), "reset"@)
    ||| l == crate::disassembler::entry_label_text(bank_prefix(b), "irq"@)
    ||| exists|t: u16| l == #[trigger] crate::disassembler::label_text(bank_prefix(b), t)
}

/// Every label the seeding leaves is the cell's original label, gone with a
/// consumed cell, or a label of one concrete bank's traversals — so labels
/// of different banks never collide.
pub open spec fn labels_from_banks(oldc: Seq<Statement>, cur: Seq<Statement>, prg: int) -> bool {
    forall|i: int|
        0 <= i < cur.len() ==> ((#[trigger] cur[i]).label == oldc[i].label || cur[i].label is None
            || (cur[i].label matches Some(l) && (exists|b: int|
                0 <= b < prg && #[trigger] bank_label(l@, b))))
}

/// One traversal under bank `b`'s prefix lifts both bank-scoped facts.
proof fn lemma_bank_traversal_lift(
    oldc: Seq<Statement>,
    pre: Seq<Statement>,
    post: Seq<Statement>,
    b: int,
    prg: int,
    name: Seq<char>,
)
    requires
        crate::disassembler::bytes_stable(oldc, pre),
        table_decoded_banks(oldc, pre, prg),
        labels_from_banks(oldc, pre, prg),
        crate::disassembler::engine_preserves(pre, post),
        crate::disassembler::table_decoded(pre, post, bank_prefix(b)),
        crate::disassembler::labels_from(pre, post, bank_prefix(b), name),
        0 <= b < prg,
        name == "nmi"@ || name == "reset"@ || name == "irq"@,
    ensures
        crate::disassembler::bytes_stable(oldc, post),
        table_decoded_banks(oldc, post, prg),
        labels_from_banks(oldc, post, prg),
{
    crate::disassembler::lemma_preserves_bytes_stable(pre, post);
    crate::disassembler::lemma_bytes_stable_trans(oldc, pre, post);
    assert forall|i: int|
        0 <= i < post.len() && (#[trigger] post[i]).asm_code is Instruction && !(0 <= i
            < oldc.len() && oldc[i].asm_code is Instruction) implies (
    post[i].asm_code matches AsmCode::Instruction(ins) && exists|b2: int|
        0 <= b2 < prg && #[trigger] crate::disassembler::installed_from_table(
            oldc,
            i,
            bank_prefix(b2),
            ins,
        )) by {
        if pre[i].asm_code is Instruction {
            assert(post[i].asm_code == pre[i].asm_code);
            let ins = pre[i].asm_code->Instruction_0;
            let b2 = choose|b2: int|
                0 <= b2 < prg && crate::disassembler::installed_from_table(
                    oldc,
                    i,
                    bank_prefix(b2),
                    ins,
                );
            assert(crate::disassembler::installed_from_table(oldc, i, bank_prefix(b2), ins));
        } else {
            let ins = post[i].asm_code->Instruction_0;
            assert(crate::disassembler::installed_from_table(pre, i, bank_prefix(b), ins));
            lemma_installed_lift(oldc, pre, i, bank_prefix(b), ins);
            assert(crate::disassembler::installed_from_table(oldc, i, bank_prefix(b), ins));
        }
    }
    assert forall|i: int|
        0 <= i < post.len() implies ((#[trigger] post[i]).label == oldc[i].label || post[i].label
        is None || (post[i].label matches Some(l) && (exists|b2: int|
            0 <= b2 < prg && #[trigger] bank_label(l@, b2)))) by {
        if post[i].label == pre[i].label {
        } else if post[i].label is None {
        } else {
            let l = post[i].label.unwrap();
            assert(bank_label(l@, b));
        }
    }
}

/// Table consistency stated against an intermediate store lifts to the
/// original one while the read bytes are original.
proof fn lemma_installed_lift(
    oldc: Seq<Statement>,
    mid: Seq<Statement>,
    i: int,
    prefix: Seq<char>,
    ins: Instruction,
)
    requires
        crate::disassembler::bytes_stable(oldc, mid),
        crate::disassembler::installed_from_table(mid, i, prefix, ins),
    ensures
        crate::disassembler::installed_from_table(oldc, i, prefix, ins),
{
    let a = choose|a: u16| crate::disassembler::installed_at_address(mid, i, a, prefix, ins);
    assert(crate::disassembler::installed_at_address(mid, i, a, prefix, ins));
    let op = as_byte(mid[i].asm_code).unwrap();
    assert(mid[i].asm_code == oldc[i].asm_code);
    let alen = crate::disassembler::spec_operand_len(op).unwrap() as int;
    if alen >= 1 {
        assert(as_byte(mid[i + 1].asm_code) is Some);
        assert(mid[i + 1].asm_code == oldc[i + 1].asm_code);
    }
    if alen >= 2 {
        assert(as_byte(mid[i + 2].asm_code) is Some);
        assert(mid[i + 2].asm_code == oldc[i + 2].asm_code);
    }
    assert(crate::disassembler::operand_byte(oldc, i, 1, alen)
        == crate::disassembler::operand_byte(mid, i, 1, alen));
    assert(crate::disassembler::operand_byte(oldc, i, 2, alen)
        == crate::disassembler::operand_byte(mid, i, 2, alen));
    assert(crate::disassembler::installed_at_address(oldc, i, a, prefix, ins));
}

/// A pointwise pass that only folds data or opens a segment lifts both
/// bank-scoped facts: it decodes nothing and clears rather than writes
/// labels.
proof fn lemma_bank_pointwise_lift(
    oldc: Seq<Statement>,
    pre: Seq<Statement>,
    post: Seq<Statement>,
    prg: int,
)
    requires
        crate::disassembler::bytes_stable(oldc, pre),
        table_decoded_banks(oldc, pre, prg),
        labels_from_banks(oldc, pre, prg),
        post.len() == pre.len(),
        forall|i: int| 0 <= i < post.len() ==> ((#[trigger] post[i]) == pre[i] || (post[i].asm_code
            == pre[i].asm_code && post[i].label == pre[i].label) || (!(post[i].asm_code
            is Instruction) && !(as_byte(post[i].asm_code) is Some) && (post[i].label
            == pre[i].label || post[i].label is None))),
    ensures
        crate::disassembler::bytes_stable(oldc, post),
        table_decoded_banks(oldc, post, prg),
        labels_from_banks(oldc, post, prg),
{
    assert forall|i: int|
        0 <= i < post.len() && as_byte((#[trigger] post[i]).asm_code) is Some implies
        post[i].asm_code == oldc[i].asm_code by {
        assert(post[i].asm_code == pre[i].asm_code);
    }
}

/// A folded vector survives any later pass: its word is no byte, so nothing
/// reclassifies it, and only consumption could clear its comment.
proof fn lemma_vector_decoded_stable(
    oldc: Seq<Statement>,
    pre: Seq<Statement>,
    post: Seq<Statement>,
    o: int,
    name: Seq<char>,
)
    requires
        vector_decoded(oldc, pre, o, name),
        crate::disassembler::engine_preserves(pre, post),
    ensures
        vector_decoded(oldc, post, o, name),
{
    assert(post[o].asm_code == pre[o].asm_code);
    assert(post[o].comment == pre[o].comment);
    assert(post[o + 1].asm_code is Used);
}

/// A cell holding no byte the table recognizes keeps that property across
/// any pass that rewrites no byte.
proof fn lemma_not_handled_stable(pre: Seq<Statement>, post: Seq<Statement>, o: int)
    requires
        crate::disassembler::bytes_stable(pre, post),
        0 <= o < pre.len(),
        !(as_byte(pre[o].asm_code) matches Some(bb) && crate::disassembler::handled(bb)),
    ensures
        !(as_byte(post[o].asm_code) matches Some(bb) && crate::disassembler::handled(bb)),
{
}

/// A bank's segment banner survives any later traversal, unless the cell is
/// consumed outright.
proof fn lemma_segment_or_used_stable(
    pre: Seq<Statement>,
    post: Seq<Statement>,
    o: int,
    sgname: Seq<char>,
)
    requires
        0 <= o < pre.len(),
        ((pre[o].segment matches Some(sg) && sg@ == sgname) || pre[o].asm_code is Used),
        crate::disassembler::engine_preserves(pre, post),
    ensures
        ((post[o].segment matches Some(sg) && sg@ == sgname) || post[o].asm_code is Used),
{
}

/// A folded vector survives a pass that leaves its two cells untouched.
proof fn lemma_vector_decoded_pointwise(
    oldc: Seq<Statement>,
    pre: Seq<Statement>,
    post: Seq<Statement>,
    o: int,
    name: Seq<char>,
)
    requires
        vector_decoded(oldc, pre, o, name),
        post.len() == pre.len(),
        post[o] == pre[o],
        post[o + 1] == pre[o + 1],
    ensures
        vector_decoded(oldc, post, o, name),
{
}

/// An explored vector entry stays explored across a pass that rewrites no
/// byte.
proof fn lemma_not_handled_stable_at(
    oldc: Seq<Statement>,
    pre: Seq<Statement>,
    post: Seq<Statement>,
    o: int,
)
    requires
        vector_explored(oldc, pre, o),
        crate::disassembler::bytes_stable(pre, post),
    ensures
        vector_explored(oldc, post, o),
{
    let m = map_addr_to_offset(nes_mapping(), vector_value(oldc, o));
    if m is Some && 0 <= m.unwrap() < post.len() {
        if as_byte(post[m.unwrap()].asm_code) is Some {
            assert(post[m.unwrap()].asm_code == pre[m.unwrap()].asm_code);
        }
    }
}

/// Folding one vector keeps byte stability, table consistency, and every
/// earlier bank's seeding, and leaves that vector folded.
proof fn lemma_vector_step(
    oldc: Seq<Statement>,
    pre: Seq<Statement>,
    post: Seq<Statement>,
    o: int,
    name: Seq<char>,
    bank: int,
    prg: int,
)
    requires
        crate::disassembler::bytes_stable(oldc, pre),
        table_decoded_banks(oldc, pre, prg),
        labels_from_banks(oldc, pre, prg),
        post.len() == pre.len(),
        0 <= o,
        o + 1 < pre.len(),
        NES_HEADER_LENGTH + bank * NES_PRG_ROM_PAGE_LENGTH <= o,
        0 <= bank,
        as_byte(pre[o].asm_code) is Some,
        as_byte(pre[o + 1].asm_code) is Some,
        forall|i: int| 0 <= i < pre.len() && i != o && i != o + 1 ==> post[i] == (
        #[trigger] pre[i]),
        post[o].asm_code == AsmCode::DataHexU16(
            crate::disassembler::joint16(
                as_byte(pre[o].asm_code).unwrap(),
                as_byte(pre[o + 1].asm_code).unwrap(),
            ),
        ),
        (post[o].comment matches Some(c) && c@ == name),
        post[o].label is None,
        post[o + 1] == crate::code::used_stmt(),
        forall|b: int| 0 <= b < bank ==> #[trigger] bank_seeded(oldc, pre, b),
    ensures
        crate::disassembler::bytes_stable(oldc, post),
        table_decoded_banks(oldc, post, prg),
        labels_from_banks(oldc, post, prg),
        vector_decoded(oldc, post, o, name),
        vector_value(oldc, o) == crate::disassembler::joint16(
            as_byte(pre[o].asm_code).unwrap(),
            as_byte(pre[o + 1].asm_code).unwrap(),
        ),
        forall|b: int| 0 <= b < bank ==> #[trigger] bank_seeded(oldc, post, b),
{
    assert(pre[o].asm_code == oldc[o].asm_code);
    assert(pre[o + 1].asm_code == oldc[o + 1].asm_code);
    lemma_bank_pointwise_lift(oldc, pre, post, prg);
    assert(crate::disassembler::bytes_stable(pre, post));
    assert forall|b: int| 0 <= b < bank implies #[trigger] bank_seeded(oldc, post, b) by {
        assert(bank_seeded(oldc, pre, b));
        let base_b = NES_HEADER_LENGTH + b * NES_PRG_ROM_PAGE_LENGTH;
        assert(base_b + NES_PRG_ROM_PAGE_LENGTH <= NES_HEADER_LENGTH + bank
            * NES_PRG_ROM_PAGE_LENGTH);
        lemma_vector_decoded_pointwise(oldc, pre, post, base_b + NES_PRG_ROM_PAGE_LENGTH - 6,
        "NMI"@);
        lemma_vector_decoded_pointwise(oldc, pre, post, base_b + NES_PRG_ROM_PAGE_LENGTH - 4,
        "RESET"@);
        lemma_vector_decoded_pointwise(oldc, pre, post, base_b + NES_PRG_ROM_PAGE_LENGTH - 2,
        "IRQ"@);
        lemma_not_handled_stable_at(oldc, pre, post, base_b + NES_PRG_ROM_PAGE_LENGTH - 6);
        lemma_not_handled_stable_at(oldc, pre, post, base_b + NES_PRG_ROM_PAGE_LENGTH - 4);
        lemma_not_handled_stable_at(oldc, pre, post, base_b + NES_PRG_ROM_PAGE_LENGTH - 2);
        assert(post[base_b] == pre[base_b]);
    }
}

/// One traversal keeps byte stability, table consistency (lifted to the
/// original store), and every earlier bank's seeding.
proof fn lemma_traversal_step(
    oldc: Seq<Statement>,
    pre: Seq<Statement>,
    post: Seq<Statement>,
    bank: int,
    prg: int,
    name: Seq<char>,
)
    requires
        crate::disassembler::bytes_stable(oldc, pre),
        table_decoded_banks(oldc, pre, prg),
        labels_from_banks(oldc, pre, prg),
        crate::disassembler::engine_preserves(pre, post),
        crate::disassembler::table_decoded(pre, post, bank_prefix(bank)),
        crate::disassembler::labels_from(pre, post, bank_prefix(bank), name),
        0 <= bank < prg,
        name == "nmi"@ || name == "reset"@ || name == "irq"@,
        forall|b: int| 0 <= b < bank ==> #[trigger] bank_seeded(oldc, pre, b),
    ensures
        crate::disassembler::bytes_stable(oldc, post),
        table_decoded_banks(oldc, post, prg),
        labels_from_banks(oldc, post, prg),
        forall|b: int| 0 <= b < bank ==> #[trigger] bank_seeded(oldc, post, b),
{
    lemma_bank_traversal_lift(oldc, pre, post, bank, prg, name);
    crate::disassembler::lemma_preserves_bytes_stable(pre, post);
    assert forall|b: int| 0 <= b < bank implies #[trigger] bank_seeded(oldc, post, b) by {
        assert(bank_seeded(oldc, pre, b));
        let base_b = NES_HEADER_LENGTH + b * NES_PRG_ROM_PAGE_LENGTH;
        lemma_vector_decoded_stable(oldc, pre, post, base_b + NES_PRG_ROM_PAGE_LENGTH - 6, "NMI"@);
        lemma_vector_decoded_stable(oldc, pre, post, base_b + NES_PRG_ROM_PAGE_LENGTH - 4,
        "RESET"@);
        lemma_vector_decoded_stable(oldc, pre, post, base_b + NES_PRG_ROM_PAGE_LENGTH - 2, "IRQ"@);
        lemma_not_handled_stable_at(oldc, pre, post, base_b + NES_PRG_ROM_PAGE_LENGTH - 6);
        lemma_not_handled_stable_at(oldc, pre, post, base_b + NES_PRG_ROM_PAGE_LENGTH - 4);
        lemma_not_handled_stable_at(oldc, pre, post, base_b + NES_PRG_ROM_PAGE_LENGTH - 2);
        lemma_segment_or_used_stable(pre, post, base_b, "PRGROM"@ + dec_u8(b as u8));
    }
}

/// After the traversal from a vector returns, its entry holds no undecoded
/// byte the table recognizes.
proof fn lemma_entry_not_left_raw(
    oldc: Seq<Statement>,
    pre: Seq<Statement>,
    post: Seq<Statement>,
    slot: int,
    v: u16,
)
    requires
        v == vector_value(oldc, slot),
        crate::disassembler::engine_preserves(pre, post),
        ({
            let m = map_addr_to_offset(nes_mapping(), v);
            m is Some && 0 <= m.unwrap() < pre.len() && (as_byte(
                pre[m.unwrap()].asm_code,
            ) matches Some(b) && crate::disassembler::handled(b)) ==> post[m.unwrap()].asm_code
                is Instruction
        }),
    ensures
        vector_explored(oldc, post, slot),
{
    let m = map_addr_to_offset(nes_mapping(), v);
    if m is Some && 0 <= m.unwrap() < post.len() {
        let e = m.unwrap();
        if as_byte(post[e].asm_code) is Some {
            assert(post[e].asm_code == pre[e].asm_code);
        }
    }
}

/// Opening the bank's segment completes its seeding.
proof fn lemma_bank_done(
    oldc: Seq<Statement>,
    pre: Seq<Statement>,
    post: Seq<Statement>,
    bank: int,
    base: int,
    o_nmi: int,
    o_reset: int,
    o_irq: int,
)
    requires
        base == NES_HEADER_LENGTH + bank * NES_PRG_ROM_PAGE_LENGTH,
        o_nmi == base + NES_PRG_ROM_PAGE_LENGTH - 6,
        o_reset == base + NES_PRG_ROM_PAGE_LENGTH - 4,
        o_irq == base + NES_PRG_ROM_PAGE_LENGTH - 2,
        0 <= bank < 256,
        vector_decoded(oldc, pre, o_nmi, "NMI"@),
        vector_decoded(oldc, pre, o_reset, "RESET"@),
        vector_decoded(oldc, pre, o_irq, "IRQ"@),
        vector_explored(oldc, pre, o_nmi),
        vector_explored(oldc, pre, o_reset),
        vector_explored(oldc, pre, o_irq),
        post.len() == pre.len(),
        forall|i: int| 0 <= i < pre.len() && i != base ==> post[i] == #[trigger] pre[i],
        (post[base].segment matches Some(sg) && sg@ == "PRGROM"@ + dec_u8(bank as u8)),
        crate::disassembler::bytes_stable(pre, post),
    ensures
        bank_seeded(oldc, post, bank),
{
    lemma_vector_decoded_pointwise(oldc, pre, post, o_nmi, "NMI"@);
    lemma_vector_decoded_pointwise(oldc, pre, post, o_reset, "RESET"@);
    lemma_vector_decoded_pointwise(oldc, pre, post, o_irq, "IRQ"@);
    lemma_not_handled_stable_at(oldc, pre, post, o_nmi);
    lemma_not_handled_stable_at(oldc, pre, post, o_reset);
    lemma_not_handled_stable_at(oldc, pre, post, o_irq);
}

/// An earlier bank's seeding survives a later bank's segment banner.
proof fn lemma_bank_seeded_pointwise(
    oldc: Seq<Statement>,
    pre: Seq<Statement>,
    post: Seq<Statement>,
    b: int,
    changed: int,
)
    requires
        bank_seeded(oldc, pre, b),
        0 <= b,
        NES_HEADER_LENGTH + (b + 1) * NES_PRG_ROM_PAGE_LENGTH <= changed,
        post.len() == pre.len(),
        forall|i: int| 0 <= i < pre.len() && i != changed ==> post[i] == #[trigger] pre[i],
        crate::disassembler::bytes_stable(pre, post),
    ensures
        bank_seeded(oldc, post, b),
{
    let base_b = NES_HEADER_LENGTH + b * NES_PRG_ROM_PAGE_LENGTH;
    lemma_vector_decoded_pointwise(oldc, pre, post, base_b + NES_PRG_ROM_PAGE_LENGTH - 6, "NMI"@);
    lemma_vector_decoded_pointwise(oldc, pre, post, base_b + NES_PRG_ROM_PAGE_LENGTH - 4,
    "RESET"@);
    lemma_vector_decoded_pointwise(oldc, pre, post, base_b + NES_PRG_ROM_PAGE_LENGTH - 2, "IRQ"@);
    lemma_not_handled_stable_at(oldc, pre, post, base_b + NES_PRG_ROM_PAGE_LENGTH - 6);
    lemma_not_handled_stable_at(oldc, pre, post, base_b + NES_PRG_ROM_PAGE_LENGTH - 4);
    lemma_not_handled_stable_at(oldc, pre, post, base_b + NES_PRG_ROM_PAGE_LENGTH - 2);
    assert(post[base_b] == pre[base_b]);
}

/// The store as first built over the raw input.
pub open spec fn fresh_cells(data: Seq<u8>) -> Seq<Statement> {
    Seq::new(
        data.len(),
        |i: int|
            Statement {
                asm_code: AsmCode::DataHexU8(data[i]),
                comment: None,
                segment: None,
                label: None,
            },
    )
}

/// What the character pass leaves: nothing at all without character banks,
/// else the region grouped and everything outside it untouched.
pub open spec fn chr_stage(c1: Seq<Statement>, c2: Seq<Statement>, prg: int, chr: int) -> bool {
    if chr == 0 {
        c2 == c1
    } else {
        let cs = NES_HEADER_LENGTH + prg * NES_PRG_ROM_PAGE_LENGTH;
        &&& c2.len() == c1.len()
        &&& chr_grouped(c1, c2, cs, chr)
        &&& forall|i: int|
            0 <= i < c1.len() && !(cs <= i < cs + chr * NES_CHR_ROM_PAGE_LENGTH) ==> c2[i] == (
            #[trigger] c1[i])
    }
}

/// What seeding the entry points leaves: every bank seeded, every decode
/// table-consistent, every remaining byte original.
pub open spec fn entry_stage(c2: Seq<Statement>, c3: Seq<Statement>, prg: int) -> bool {
    &&& c3.len() == c2.len()
    &&& crate::disassembler::bytes_stable(c2, c3)
    &&& table_decoded_banks(c2, c3, prg)
    &&& labels_from_banks(c2, c3, prg)
    &&& forall|b: int| 0 <= b < prg ==> #[trigger] bank_seeded(c2, c3, b)
}

impl NesDisassembler {
    /// Reads one little-endian 16-bit vector out of two byte cells, folding
    /// them into a single displayed word annotated with the vector's name.
    fn decode_vector(&mut self, offset: usize, name: &str) -> (r: Result<u16, DisassembleError>)
        requires
            old(self).d.code.wf(),
            offset + 1 < old(self).d.code.cells().len(),
        ensures
            final(self).d.code.wf(),
            final(self).d.code.cells().len() == old(self).d.code.cells().len(),
            final(self).d.code.vars() == old(self).d.code.vars(),
            final(self).prg_rom_count == old(self).prg_rom_count,
            final(self).chr_rom_count == old(self).chr_rom_count,
            (as_byte(old(self).d.code.cells()[offset as int].asm_code) matches Some(lo) && (as_byte(
                old(self).d.code.cells()[offset + 1].asm_code,
            ) matches Some(hi))) ==> ({
                let lo = as_byte(old(self).d.code.cells()[offset as int].asm_code).unwrap();
                let hi = as_byte(old(self).d.code.cells()[offset + 1].asm_code).unwrap();
                &&& r == Ok::<u16, DisassembleError>(crate::disassembler::joint16(lo, hi))
                &&& forall|i: int|
                    0 <= i < old(self).d.code.cells().len() && i != offset && i != offset + 1
                        ==> final(self).d.code.cells()[i] == (#[trigger] old(self).d.code.cells()[
                    i])
                &&& final(self).d.code.cells()[offset as int].asm_code == AsmCode::DataHexU16(
                    crate::disassembler::joint16(lo, hi),
                )
                &&& (final(self).d.code.cells()[offset as int].comment matches Some(c) && c@
                    == name@)
                &&& final(self).d.code.cells()[offset as int].label is None
                &&& final(self).d.code.cells()[offset as int].segment is None
                &&& final(self).d.code.cells()[offset + 1] == crate::code::used_stmt()
            }),
            r matches Err(e) ==> error_message(e) == "unexpected asm code"@,
            r is Ok ==> (as_byte(old(self).d.code.cells()[offset as int].asm_code) is Some
                && as_byte(old(self).d.code.cells()[offset + 1].asm_code) is Some),
    {
        let _n = self.d.code.len();
        proof {
            assert(old(self).d.code.cells().len() <= usize::MAX);
        }
        let lo_stmt = match self.d.code.take(offset) {
            Ok(st) => st,
            Err(e) => {
                proof {
                    assert(false);
                }
                return Err(e);
            },
        };
        let lo = match lo_stmt.asm_code.to_u8() {
            Ok(v) => v,
            Err(e) => {
                return Err(e);
            },
        };
        let hi_stmt = match self.d.code.take(offset + 1) {
            Ok(st) => st,
            Err(e) => {
                proof {
                    assert(false);
                }
                return Err(e);
            },
        };
        let hi = match hi_stmt.asm_code.to_u8() {
            Ok(v) => v,
            Err(e) => {
                return Err(e);
            },
        };
        let addr: u16 = (lo as u16) | ((hi as u16) << 8);
        proof {
            assert(addr == crate::disassembler::joint16(lo, hi)) by (bit_vector)
                requires
                    addr == (lo as u16) | ((hi as u16) << 8),
            ;
        }
        match self.d.code.replace(offset, offset + 2, AsmCode::DataHexU16(addr)) {
            Ok(_) => {},
            Err(e) => {
                proof {
                    assert(false);
                }
                return Err(e);
            },
        }
        self.d.code.set_comment(offset, name);
        Ok(addr)
    }

    /// Groups the character banks into sixteen-byte display rows, one grouped
    /// cell per row, and opens one segment per bank.
    #[verifier::rlimit(60)]
    fn parse_chr_rom(&mut self) -> (r: Result<(), DisassembleError>)
        requires
            old(self).d.code.wf(),
        ensures
            final(self).d.code.wf(),
            final(self).d.code.cells().len() == old(self).d.code.cells().len(),
            final(self).d.code.vars() == old(self).d.code.vars(),
            final(self).prg_rom_count == old(self).prg_rom_count,
            final(self).chr_rom_count == old(self).chr_rom_count,
            old(self).d.code.cells().len() < NES_HEADER_LENGTH + old(self).prg_rom_count
                * NES_PRG_ROM_PAGE_LENGTH + old(self).chr_rom_count * NES_CHR_ROM_PAGE_LENGTH
                && old(self).chr_rom_count > 0 ==> r is Err,
            old(self).chr_rom_count == 0 ==> (r is Ok && final(self).d.code.cells() == old(
                self,
            ).d.code.cells()),
            (old(self).d.code.cells().len() >= NES_HEADER_LENGTH + old(self).prg_rom_count
                * NES_PRG_ROM_PAGE_LENGTH + old(self).chr_rom_count * NES_CHR_ROM_PAGE_LENGTH && (
            forall|i: int|
                NES_HEADER_LENGTH + old(self).prg_rom_count * NES_PRG_ROM_PAGE_LENGTH <= i
                    < NES_HEADER_LENGTH + old(self).prg_rom_count * NES_PRG_ROM_PAGE_LENGTH + old(
                    self,
                ).chr_rom_count * NES_CHR_ROM_PAGE_LENGTH ==> is_data_elem(
                    (#[trigger] old(self).d.code.cells()[i]).asm_code,
                ))) ==> (r is Ok && chr_grouped(
                old(self).d.code.cells(),
                final(self).d.code.cells(),
                NES_HEADER_LENGTH + old(self).prg_rom_count * NES_PRG_ROM_PAGE_LENGTH,
                old(self).chr_rom_count as int,
            ) && (forall|i: int|
                0 <= i < old(self).d.code.cells().len() && !(NES_HEADER_LENGTH + old(
                    self,
                ).prg_rom_count * NES_PRG_ROM_PAGE_LENGTH <= i < NES_HEADER_LENGTH + old(
                    self,
                ).prg_rom_count * NES_PRG_ROM_PAGE_LENGTH + old(self).chr_rom_count
                    * NES_CHR_ROM_PAGE_LENGTH) ==> final(self).d.code.cells()[i] == (#[trigger] old(
                    self,
                ).d.code.cells()[i]))),
            r matches Err(e) ==> ((error_message(e) == "file too short"@ && old(
                self,
            ).chr_rom_count > 0 && old(self).d.code.cells().len() < NES_HEADER_LENGTH + old(
                self,
            ).prg_rom_count * NES_PRG_ROM_PAGE_LENGTH + old(self).chr_rom_count
                * NES_CHR_ROM_PAGE_LENGTH) || (error_message(e) == "unexpected asm code"@ && old(
                self,
            ).d.code.cells().len() >= NES_HEADER_LENGTH + old(self).prg_rom_count
                * NES_PRG_ROM_PAGE_LENGTH + old(self).chr_rom_count * NES_CHR_ROM_PAGE_LENGTH)),
    {
        let n = self.d.code.len();
        let chr_rom_start: usize = NES_HEADER_LENGTH + (self.prg_rom_count as usize)
            * NES_PRG_ROM_PAGE_LENGTH;
        let needed: usize = chr_rom_start + (self.chr_rom_count as usize)
            * NES_CHR_ROM_PAGE_LENGTH;
        if self.chr_rom_count > 0 && n < needed {
            return Err(DisassembleError::ParseError(String::from_str("file too short")));
        }
        let mut addr: usize = chr_rom_start;
        let mut bank: usize = 0;
        let banks = self.chr_rom_count as usize;
        while bank < banks
            invariant
                self.d.code.wf(),
                self.d.code.cells().len() == old(self).d.code.cells().len(),
                self.d.code.vars() == old(self).d.code.vars(),
                self.prg_rom_count == old(self).prg_rom_count,
                self.chr_rom_count == old(self).chr_rom_count,
                banks == old(self).chr_rom_count,
                chr_rom_start == NES_HEADER_LENGTH + old(self).prg_rom_count
                    * NES_PRG_ROM_PAGE_LENGTH,
                needed == chr_rom_start + banks * NES_CHR_ROM_PAGE_LENGTH,
                bank <= banks,
                addr == chr_rom_start + bank * NES_CHR_ROM_PAGE_LENGTH,
                banks > 0 ==> needed <= old(self).d.code.cells().len(),
                forall|i: int|
                    0 <= i < old(self).d.code.cells().len() && !(chr_rom_start <= i < addr)
                        ==> self.d.code.cells()[i] == (#[trigger] old(self).d.code.cells()[i]),
                forall|b: int, r: int|
                    #![trigger chr_row_grouped(old(self).d.code.cells(), self.d.code.cells(), chr_rom_start + b * 8192 + 16 * r)]
                    0 <= b < bank && 0 <= r < 512 ==> chr_row_grouped(
                        old(self).d.code.cells(),
                        self.d.code.cells(),
                        chr_rom_start + b * 8192 + 16 * r,
                    ),
                forall|b: int| 0 <= b < bank ==> ((#[trigger] self.d.code.cells()[chr_rom_start + b
                    * 8192]).segment matches Some(sg) && sg@ == "CHRROM"@ + dec_u8(b as u8)),
                forall|b: int, r: int|
                    #![trigger self.d.code.cells()[chr_rom_start + b * 8192 + 16 * r]]
                    0 <= b < bank && 1 <= r < 512 ==> self.d.code.cells()[chr_rom_start + b * 8192
                        + 16 * r].segment is None,
            decreases banks - bank,
        {
            let bank_start = addr;
            let mut row: usize = 0;
            while row < 512
                invariant
                    self.d.code.wf(),
                    self.d.code.cells().len() == old(self).d.code.cells().len(),
                    self.d.code.vars() == old(self).d.code.vars(),
                    self.prg_rom_count == old(self).prg_rom_count,
                    self.chr_rom_count == old(self).chr_rom_count,
                    banks == old(self).chr_rom_count,
                    chr_rom_start == NES_HEADER_LENGTH + old(self).prg_rom_count
                        * NES_PRG_ROM_PAGE_LENGTH,
                    needed == chr_rom_start + banks * NES_CHR_ROM_PAGE_LENGTH,
                    bank < banks,
                    bank_start == chr_rom_start + bank * NES_CHR_ROM_PAGE_LENGTH,
                    row <= 512,
                    addr == bank_start + 16 * row,
                    needed <= old(self).d.code.cells().len(),
                    forall|i: int|
                        0 <= i < old(self).d.code.cells().len() && !(chr_rom_start <= i < addr)
                            ==> self.d.code.cells()[i] == (#[trigger] old(self).d.code.cells()[i]),
                    forall|b: int, r: int|
                        #![trigger chr_row_grouped(old(self).d.code.cells(), self.d.code.cells(), chr_rom_start + b * 8192 + 16 * r)]
                        0 <= b < bank && 0 <= r < 512 ==> chr_row_grouped(
                            old(self).d.code.cells(),
                            self.d.code.cells(),
                            chr_rom_start + b * 8192 + 16 * r,
                        ),
                    forall|b: int| 0 <= b < bank ==> ((#[trigger] self.d.code.cells()[chr_rom_start
                        + b * 8192]).segment matches Some(sg) && sg@ == "CHRROM"@ + dec_u8(
                        b as u8,
                    )),
                    forall|b: int, r: int|
                        #![trigger self.d.code.cells()[chr_rom_start + b * 8192 + 16 * r]]
                        0 <= b < bank && 1 <= r < 512 ==> self.d.code.cells()[chr_rom_start + b
                            * 8192 + 16 * r].segment is None,
                    forall|r: int|
                        #![trigger chr_row_grouped(old(self).d.code.cells(), self.d.code.cells(), bank_start + 16 * r)]
                        0 <= r < row ==> chr_row_grouped(
                            old(self).d.code.cells(),
                            self.d.code.cells(),
                            bank_start + 16 * r,
                        ),
                    forall|r: int|
                        #![trigger self.d.code.cells()[bank_start + 16 * r]]
                        0 <= r < row ==> self.d.code.cells()[bank_start + 16 * r].segment is None,
                decreases 512 - row,
            {
                let ghost pre_row = self.d.code.cells();
                let mut group: Vec<AsmCode> = Vec::new();
                let mut j: usize = 0;
                while j < 16
                    invariant
                        self.d.code.wf(),
                        self.d.code.cells().len() == old(self).d.code.cells().len(),
                        self.d.code.vars() == old(self).d.code.vars(),
                        self.prg_rom_count == old(self).prg_rom_count,
                        self.chr_rom_count == old(self).chr_rom_count,
                        chr_rom_start == NES_HEADER_LENGTH + old(self).prg_rom_count
                            * NES_PRG_ROM_PAGE_LENGTH,
                        banks == old(self).chr_rom_count,
                        needed == chr_rom_start + banks * NES_CHR_ROM_PAGE_LENGTH,
                        banks > 0,
                        j <= 16,
                        group@.len() == j,
                        chr_rom_start <= addr,
                        addr + 16 <= needed <= old(self).d.code.cells().len(),
                        forall|t: int| 0 <= t < j ==> is_data_elem(#[trigger] group@[t]),
                        forall|t: int| 0 <= t < j ==> group@[t] == (#[trigger] old(
                            self,
                        ).d.code.cells()[addr + t]).asm_code,
                        forall|k: int| 0 <= k < j ==> #[trigger] self.d.code.cells()[addr + k]
                            == crate::code::used_stmt(),
                        forall|i: int|
                            0 <= i < old(self).d.code.cells().len() && !(addr <= i < addr + j)
                                ==> self.d.code.cells()[i] == #[trigger] pre_row[i],
                        forall|i: int|
                            0 <= i < old(self).d.code.cells().len() && !(chr_rom_start <= i < addr
                                + j) ==> self.d.code.cells()[i] == (#[trigger] old(
                                self,
                            ).d.code.cells()[i]),
                    decreases 16 - j,
                {
                    let st = match self.d.code.take(addr + j) {
                        Ok(st) => st,
                        Err(e) => {
                            proof {
                                assert(false);
                            }
                            return Err(e);
                        },
                    };
                    proof {
                        assert(st == old(self).d.code.cells()[addr + j]);
                    }
                    if !st.asm_code.is_data_element() {
                        proof {
                            assert(!is_data_elem(old(self).d.code.cells()[addr + j].asm_code));
                        }
                        return Err(
                            DisassembleError::ParseError(String::from_str("unexpected asm code")),
                        );
                    }
                    group.push(st.asm_code);
                    j = j + 1;
                }
                match self.d.code.set(
                    addr,
                    Statement {
                        asm_code: AsmCode::DataSeq(group),
                        comment: None,
                        segment: None,
                        label: None,
                    },
                ) {
                    Ok(_) => {},
                    Err(e) => {
                        proof {
                            assert(false);
                        }
                        return Err(e);
                    },
                }
                proof {
                    let oldcs = old(self).d.code.cells();
                    let cur = self.d.code.cells();
                    assert(chr_row_grouped(oldcs, cur, addr as int));
                    assert forall|i: int|
                        0 <= i < oldcs.len() && !(addr <= i < addr + 16) implies cur[i] == (
                    #[trigger] pre_row[i]) by {
                        assert(cur[i] == old(self).d.code.cells()[i] || true);
                    }
                    assert forall|b: int, r: int|
                        #![trigger chr_row_grouped(oldcs, cur, chr_rom_start + b * 8192 + 16 * r)]
                        0 <= b < bank && 0 <= r < 512 implies chr_row_grouped(
                        oldcs,
                        cur,
                        chr_rom_start + b * 8192 + 16 * r,
                    ) by {
                        let idx = chr_rom_start + b * 8192 + 16 * r;
                        assert(idx + 16 <= bank_start);
                        assert(chr_row_grouped(oldcs, pre_row, idx));
                        assert forall|k: int| 0 <= k < 16 implies cur[idx + k] == (
                        #[trigger] pre_row[idx + k]) by {
                            assert(!(addr <= idx + k < addr + 16));
                        }
                        lemma_row_grouped_stable(oldcs, pre_row, cur, idx);
                    }
                    assert forall|b: int| 0 <= b < bank implies ((#[trigger] cur[chr_rom_start + b
                        * 8192]).segment matches Some(sg) && sg@ == "CHRROM"@ + dec_u8(
                        b as u8,
                    )) by {
                        assert(cur[chr_rom_start + b * 8192] == pre_row[chr_rom_start + b * 8192]);
                    }
                    assert forall|b: int, r: int|
                        #![trigger cur[chr_rom_start + b * 8192 + 16 * r]]
                        0 <= b < bank && 1 <= r < 512 implies cur[chr_rom_start + b * 8192 + 16
                        * r].segment is None by {
                        assert(cur[chr_rom_start + b * 8192 + 16 * r] == pre_row[chr_rom_start + b
                            * 8192 + 16 * r]);
                    }
                    assert forall|r: int|
                        #![trigger chr_row_grouped(oldcs, cur, bank_start + 16 * r)]
                        0 <= r < row + 1 implies chr_row_grouped(oldcs, cur, bank_start + 16
                        * r) by {
                        if r < row {
                            assert(chr_row_grouped(oldcs, pre_row, bank_start + 16 * r));
                            assert forall|k: int| 0 <= k < 16 implies cur[bank_start + 16 * r + k]
                                == (#[trigger] pre_row[bank_start + 16 * r + k]) by {
                                assert(!(addr <= bank_start + 16 * r + k < addr + 16));
                            }
                            lemma_row_grouped_stable(oldcs, pre_row, cur, bank_start + 16 * r);
                        } else {
                            assert(bank_start + 16 * r == addr);
                        }
                    }
                    assert forall|r: int|
                        #![trigger cur[bank_start + 16 * r]]
                        0 <= r < row + 1 implies cur[bank_start + 16 * r].segment is None by {
                        if r < row {
                            assert(cur[bank_start + 16 * r] == pre_row[bank_start + 16 * r]);
                        } else {
                            assert(bank_start + 16 * r == addr);
                        }
                    }
                }
                addr = addr + 16;
                row = row + 1;
            }
            proof {
                assert(bank < 256);
            }
            let mut seg = String::from_str("CHRROM");
            if bank < 256 {
                append_dec_u8(&mut seg, bank as u8);
            }
            let ghost pre_seg = self.d.code.cells();
            self.d.code.set_segment(bank_start, seg.as_str());
            proof {
                let oldcs = old(self).d.code.cells();
                let cur = self.d.code.cells();
                assert(seg@ == "CHRROM"@ + dec_u8(bank as u8));
                assert forall|b: int, r: int|
                    #![trigger chr_row_grouped(oldcs, cur, chr_rom_start + b * 8192 + 16 * r)]
                    0 <= b < bank + 1 && 0 <= r < 512 implies chr_row_grouped(
                    oldcs,
                    cur,
                    chr_rom_start + b * 8192 + 16 * r,
                ) by {
                    let idx = chr_rom_start + b * 8192 + 16 * r;
                    if b < bank {
                        assert(chr_row_grouped(oldcs, pre_seg, idx));
                    } else {
                        assert(idx == bank_start + 16 * r);
                        assert(chr_row_grouped(oldcs, pre_seg, idx));
                    }
                    assert forall|k: int| 0 <= k < 16 implies cur[idx + k] == (
                    #[trigger] pre_seg[idx + k]) || (idx + k == bank_start && cur[idx + k].asm_code
                        == pre_seg[idx + k].asm_code && cur[idx + k].comment == pre_seg[idx
                        + k].comment && cur[idx + k].label == pre_seg[idx + k].label) by {
                    }
                    assert(cur[idx].asm_code == pre_seg[idx].asm_code);
                    assert(cur[idx].comment == pre_seg[idx].comment);
                    assert(cur[idx].label == pre_seg[idx].label);
                    assert forall|k: int| 1 <= k < 16 implies #[trigger] cur[idx + k]
                        == crate::code::used_stmt() by {
                        assert(idx + k != bank_start);
                        assert(cur[idx + k] == pre_seg[idx + k]);
                    }
                }
                assert forall|b: int| 0 <= b < bank + 1 implies ((#[trigger] cur[chr_rom_start + b
                    * 8192]).segment matches Some(sg2) && sg2@ == "CHRROM"@ + dec_u8(b as u8)) by {
                    if b < bank {
                        assert(chr_rom_start + b * 8192 != bank_start);
                        assert(cur[chr_rom_start + b * 8192] == pre_seg[chr_rom_start + b * 8192]);
                    } else {
                        assert(chr_rom_start + b * 8192 == bank_start);
                    }
                }
                assert forall|b: int, r: int|
                    #![trigger cur[chr_rom_start + b * 8192 + 16 * r]]
                    0 <= b < bank + 1 && 1 <= r < 512 implies cur[chr_rom_start + b * 8192 + 16
                    * r].segment is None by {
                    assert(chr_rom_start + b * 8192 + 16 * r != bank_start);
                    assert(cur[chr_rom_start + b * 8192 + 16 * r] == pre_seg[chr_rom_start + b
                        * 8192 + 16 * r]);
                }
            }
            bank = bank + 1;
        }
        proof {
            assert(chr_grouped(
                old(self).d.code.cells(),
                self.d.code.cells(),
                chr_rom_start as int,
                banks as int,
            ));
            if banks == 0 {
                assert(self.d.code.cells() =~= old(self).d.code.cells());
            }
        }
        Ok(())
    }

    /// Reads the three vectors at the top of each program bank, folds each
    /// into a named word, runs the traversal from each under the bank's label
    /// prefix, and opens the bank's segment.
    #[verifier::rlimit(100)]
    fn disassemble_entry_points(&mut self) -> (r: Result<(), DisassembleError>)
        requires
            old(self).d.code.wf(),
            old(self).d.code.cells().len() <= 0x1_0000_0000,
        ensures
            final(self).d.code.wf(),
            final(self).d.code.cells().len() == old(self).d.code.cells().len(),
            final(self).d.code.vars() == old(self).d.code.vars(),
            final(self).prg_rom_count == old(self).prg_rom_count,
            final(self).chr_rom_count == old(self).chr_rom_count,
            r is Ok ==> crate::disassembler::bytes_stable(
                old(self).d.code.cells(),
                final(self).d.code.cells(),
            ),
            r is Ok ==> table_decoded_banks(
                old(self).d.code.cells(),
                final(self).d.code.cells(),
                old(self).prg_rom_count as int,
            ),
            r is Ok ==> labels_from_banks(
                old(self).d.code.cells(),
                final(self).d.code.cells(),
                old(self).prg_rom_count as int,
            ),
            r is Ok ==> (forall|b: int|
                0 <= b < old(self).prg_rom_count ==> #[trigger] bank_seeded(
                    old(self).d.code.cells(),
                    final(self).d.code.cells(),
                    b,
                )),
            r matches Err(e) ==> (e is WrappedError || error_message(e) == "unexpected asm code"@
                || (error_message(e) == "file too short"@ && old(self).prg_rom_count > 0 && old(
                    self,
                ).d.code.cells().len() < NES_HEADER_LENGTH + old(self).prg_rom_count
                    * NES_PRG_ROM_PAGE_LENGTH)),
            (old(self).d.code.cells().len() < NES_HEADER_LENGTH + old(self).prg_rom_count
                * NES_PRG_ROM_PAGE_LENGTH && old(self).prg_rom_count > 0) ==> (r matches Err(e)
                && error_message(e) == "file too short"@),
    {
        let ghost oldcs = old(self).d.code.cells();
        let n = self.d.code.len();
        let mapping = AddrMapping {
            load_addr: NES_PRG_ROM_START_ADDRESS,
            header_len: NES_HEADER_LENGTH,
            bank_len: NES_PRG_ROM_PAGE_LENGTH,
        };
        proof {
            assert(mapping == nes_mapping());
        }
        let banks = self.prg_rom_count as usize;
        if banks > 0 && n < NES_HEADER_LENGTH + banks * NES_PRG_ROM_PAGE_LENGTH {
            return Err(DisassembleError::ParseError(String::from_str("file too short")));
        }
        let mut offset: usize = NES_HEADER_LENGTH;
        let mut bank: usize = 0;
        while bank < banks
            invariant
                oldcs == old(self).d.code.cells(),
                self.d.code.wf(),
                mapping.wf(),
                mapping == nes_mapping(),
                self.d.code.cells().len() == oldcs.len(),
                oldcs.len() <= 0x1_0000_0000,
                self.d.code.vars() == old(self).d.code.vars(),
                self.prg_rom_count == old(self).prg_rom_count,
                self.chr_rom_count == old(self).chr_rom_count,
                banks == old(self).prg_rom_count,
                bank <= banks,
                offset == NES_HEADER_LENGTH + bank * NES_PRG_ROM_PAGE_LENGTH,
                banks > 0 ==> NES_HEADER_LENGTH + banks * NES_PRG_ROM_PAGE_LENGTH <= oldcs.len(),
                crate::disassembler::bytes_stable(oldcs, self.d.code.cells()),
                table_decoded_banks(oldcs, self.d.code.cells(), banks as int),
                labels_from_banks(oldcs, self.d.code.cells(), banks as int),
                forall|b: int| 0 <= b < bank ==> #[trigger] bank_seeded(
                    oldcs,
                    self.d.code.cells(),
                    b,
                ),
            decreases banks - bank,
        {
            let ghost base = offset as int;
            let o_nmi = offset + NES_PRG_ROM_PAGE_LENGTH - 6;
            let o_reset = offset + NES_PRG_ROM_PAGE_LENGTH - 4;
            let o_irq = offset + NES_PRG_ROM_PAGE_LENGTH - 2;
            let ghost g0 = self.d.code.cells();
            let nmi = match self.decode_vector(o_nmi, "NMI") {
                Ok(v) => v,
                Err(e) => {
                    return Err(e);
                },
            };
            let ghost g1 = self.d.code.cells();
            proof {
                lemma_vector_step(oldcs, g0, g1, o_nmi as int, "NMI"@, bank as int, banks as int);
            }
            let reset = match self.decode_vector(o_reset, "RESET") {
                Ok(v) => v,
                Err(e) => {
                    return Err(e);
                },
            };
            let ghost g2 = self.d.code.cells();
            proof {
                lemma_vector_step(oldcs, g1, g2, o_reset as int, "RESET"@, bank as int, banks as int);
                lemma_vector_decoded_pointwise(oldcs, g1, g2, o_nmi as int, "NMI"@);
            }
            let irq = match self.decode_vector(o_irq, "IRQ") {
                Ok(v) => v,
                Err(e) => {
                    return Err(e);
                },
            };
            let ghost g3 = self.d.code.cells();
            proof {
                lemma_vector_step(oldcs, g2, g3, o_irq as int, "IRQ"@, bank as int, banks as int);
                lemma_vector_decoded_pointwise(oldcs, g2, g3, o_nmi as int, "NMI"@);
                lemma_vector_decoded_pointwise(oldcs, g2, g3, o_reset as int, "RESET"@);
                assert(nmi == vector_value(oldcs, o_nmi as int));
                assert(reset == vector_value(oldcs, o_reset as int));
                assert(irq == vector_value(oldcs, o_irq as int));
            }
            let mut prefix = String::from_str("prgrom");
            proof {
                assert(bank < 256);
            }
            if bank < 256 {
                append_dec_u8(&mut prefix, bank as u8);
            }
            proof {
                assert(prefix@ == bank_prefix(bank as int));
            }
            match self.d.disassemble(nmi, "nmi", prefix.as_str(), &mapping) {
                Ok(_) => {},
                Err(e) => {
                    return Err(e);
                },
            }
            let ghost g4 = self.d.code.cells();
            proof {
                lemma_traversal_step(oldcs, g3, g4, bank as int, banks as int, "nmi"@);
                lemma_vector_decoded_stable(oldcs, g3, g4, o_nmi as int, "NMI"@);
                lemma_vector_decoded_stable(oldcs, g3, g4, o_reset as int, "RESET"@);
                lemma_vector_decoded_stable(oldcs, g3, g4, o_irq as int, "IRQ"@);
                lemma_entry_not_left_raw(oldcs, g3, g4, o_nmi as int, nmi);
            }
            match self.d.disassemble(reset, "reset", prefix.as_str(), &mapping) {
                Ok(_) => {},
                Err(e) => {
                    return Err(e);
                },
            }
            let ghost g5 = self.d.code.cells();
            proof {
                lemma_traversal_step(oldcs, g4, g5, bank as int, banks as int, "reset"@);
                lemma_vector_decoded_stable(oldcs, g4, g5, o_nmi as int, "NMI"@);
                lemma_vector_decoded_stable(oldcs, g4, g5, o_reset as int, "RESET"@);
                lemma_vector_decoded_stable(oldcs, g4, g5, o_irq as int, "IRQ"@);
                crate::disassembler::lemma_preserves_bytes_stable(g4, g5);
                lemma_not_handled_stable_at(oldcs, g4, g5, o_nmi as int);
                lemma_entry_not_left_raw(oldcs, g4, g5, o_reset as int, reset);
            }
            match self.d.disassemble(irq, "irq", prefix.as_str(), &mapping) {
                Ok(_) => {},
                Err(e) => {
                    return Err(e);
                },
            }
            let ghost g6 = self.d.code.cells();
            proof {
                lemma_traversal_step(oldcs, g5, g6, bank as int, banks as int, "irq"@);
                lemma_vector_decoded_stable(oldcs, g5, g6, o_nmi as int, "NMI"@);
                lemma_vector_decoded_stable(oldcs, g5, g6, o_reset as int, "RESET"@);
                lemma_vector_decoded_stable(oldcs, g5, g6, o_irq as int, "IRQ"@);
                crate::disassembler::lemma_preserves_bytes_stable(g5, g6);
                lemma_not_handled_stable_at(oldcs, g5, g6, o_nmi as int);
                lemma_not_handled_stable_at(oldcs, g5, g6, o_reset as int);
                lemma_entry_not_left_raw(oldcs, g5, g6, o_irq as int, irq);
            }
            let mut seg = String::from_str("PRGROM");
            if bank < 256 {
                append_dec_u8(&mut seg, bank as u8);
            }
            self.d.code.set_segment(offset, seg.as_str());
            let ghost g7 = self.d.code.cells();
            proof {
                assert(seg@ == "PRGROM"@ + dec_u8(bank as u8));
                assert forall|i: int| 0 <= i < g6.len() && i != base implies g7[i] == (
                #[trigger] g6[i]) by {}
                assert(g7[base].asm_code == g6[base].asm_code);
                assert(g7[base].label == g6[base].label);
                assert(crate::disassembler::bytes_stable(g6, g7));
                lemma_bank_pointwise_lift(oldcs, g6, g7, banks as int);
                lemma_bank_done(oldcs, g6, g7, bank as int, base, o_nmi as int, o_reset as int,
                o_irq as int);
                assert forall|b: int| 0 <= b < bank + 1 implies #[trigger] bank_seeded(
                    oldcs,
                    g7,
                    b,
                ) by {
                    if b < bank {
                        lemma_bank_seeded_pointwise(oldcs, g6, g7, b, base);
                    }
                }
            }
            offset = offset + NES_PRG_ROM_PAGE_LENGTH;
            bank = bank + 1;
        }
        Ok(())
    }

    /// Disassembles one cartridge image into its full symbolic listing.
    pub fn disassemble(data: Vec<u8>) -> (r: Result<String, DisassembleError>)
        requires
            data@.len() <= 0x1_0000_0000,
        ensures
            (data@.len() < 16 || !nes_magic(data@)) ==> (r matches Err(
                DisassembleError::ParseError(m),
            ) && m@ == "invalid nes header"@),
            (data@.len() >= 16 && nes_magic(data@) && data@.len() < NES_HEADER_LENGTH + data@[4]
                * NES_PRG_ROM_PAGE_LENGTH + data@[5] * NES_CHR_ROM_PAGE_LENGTH) ==> (r matches Err(
                e,
            ) && (error_message(e) == "file too short"@)),
            (data@.len() >= 16 && nes_magic(data@) && data@.len() >= NES_HEADER_LENGTH + data@[4]
                * NES_PRG_ROM_PAGE_LENGTH + data@[5] * NES_CHR_ROM_PAGE_LENGTH) ==> (r is Ok || (
            r matches Err(e) && (e is WrappedError || error_message(e)
                == "unexpected asm code"@))),
            r matches Ok(t) ==> (exists|c1: Seq<Statement>, c2: Seq<Statement>, c3: Seq<Statement>|
                {
                    &&& #[trigger] header_parsed(fresh_cells(data@), c1)
                    &&& #[trigger] chr_stage(c1, c2, data@[4] as int, data@[5] as int)
                    &&& #[trigger] entry_stage(c2, c3, data@[4] as int)
                    &&& t@ == listing_text(c3, nes_seeded_vars(Map::empty()))
                }),
    {
        let mut d = NesDisassembler {
            d: Disassembler::new(data),
            prg_rom_count: 0,
            chr_rom_count: 0,
            flags6: 0,
            flags7: 0,
            mapper: 0,
            prg_chr_rom_size: 0,
            prg_ram_eeprom_size: 0,
            chr_ram_size: 0,
            cpu_ppu_timing: 0,
            flags13: 0,
            misc_roms: 0,
            default_expansion_device: 0,
        };
        proof {
            assert(d.d.code.cells() =~= fresh_cells(data@));
        }
        if d.d.code.len() < 16 {
            return Err(DisassembleError::ParseError(String::from_str("invalid nes header")));
        }
        d.set_variables();
        match d.parse_header() {
            Ok(_) => {},
            Err(e) => {
                return Err(e);
            },
        }
        let ghost c1 = d.d.code.cells();
        match d.parse_chr_rom() {
            Ok(_) => {},
            Err(e) => {
                return Err(e);
            },
        }
        let ghost c2 = d.d.code.cells();
        proof {
            if d.chr_rom_count == 0 {
                assert(c2 =~= c1);
            }
            assert(chr_stage(c1, c2, data@[4] as int, data@[5] as int));
        }
        match d.disassemble_entry_points() {
            Ok(_) => {},
            Err(e) => {
                return Err(e);
            },
        }
        let ghost c3 = d.d.code.cells();
        proof {
            assert(entry_stage(c2, c3, data@[4] as int));
            assert(d.d.code.vars() =~= nes_seeded_vars(Map::empty()));
        }
        let out = d.d.code.write();
        proof {
            assert(header_parsed(fresh_cells(data@), c1));
            assert(out@ == listing_text(c3, nes_seeded_vars(Map::empty())));
        }
        Ok(out)
    }
}

/// Dispatches raw input to the container front end that handles it; input in
/// no recognized format is refused.
pub fn disassemble(data: Vec<u8>) -> (r: Result<String, DisassembleError>)
    requires
        data@.len() <= 0x1_0000_0000,
    ensures
        !nes_magic(data@) ==> (r matches Err(DisassembleError::ParseError(m)) && m@
            == "unhandled file format"@),
        (nes_magic(data@) && data@.len() < 16) ==> (r matches Err(DisassembleError::ParseError(m))
            && m@ == "invalid nes header"@),
        (nes_magic(data@) && data@.len() >= 16 && data@.len() < NES_HEADER_LENGTH + data@[4]
            * NES_PRG_ROM_PAGE_LENGTH + data@[5] * NES_CHR_ROM_PAGE_LENGTH) ==> (r matches Err(e)
            && (error_message(e) == "file too short"@)),
        (nes_magic(data@) && data@.len() >= 16 && data@.len() >= NES_HEADER_LENGTH + data@[4]
            * NES_PRG_ROM_PAGE_LENGTH + data@[5] * NES_CHR_ROM_PAGE_LENGTH) ==> (r is Ok || (
        r matches Err(e) && (e is WrappedError || error_message(e) == "unexpected asm code"@))),
        r matches Ok(t) ==> (exists|c1: Seq<Statement>, c2: Seq<Statement>, c3: Seq<Statement>|
            {
                &&& #[trigger] header_parsed(fresh_cells(data@), c1)
                &&& #[trigger] chr_stage(c1, c2, data@[4] as int, data@[5] as int)
                &&& #[trigger] entry_stage(c2, c3, data@[4] as int)
                &&& t@ == listing_text(c3, nes_seeded_vars(Map::empty()))
            }),
{
    if data.len() >= 4 && NesDisassembler::is_handled(&data) {
        NesDisassembler::disassemble(data)
    } else {
        Err(DisassembleError::ParseError(String::from_str("unhandled file format")))
    }
}

} // verus!

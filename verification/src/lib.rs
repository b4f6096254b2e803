//! A 6502 disassembler: turns a raw machine-code image into a re-assemblable
//! symbolic listing by following every statically known control-flow edge
//! from a set of entry addresses, decoding no location twice.
//!
//! The store ([`code`]) owns one cell per input byte and only ever
//! reclassifies cells: a raw byte becomes typed data or an instruction, and
//! the bytes an instruction consumes become tombstones. The decode engine
//! ([`disassembler`]) walks the store along jumps, calls and branches,
//! using the cell classification itself as its visited marker. The
//! serializer walks the store once, naming operand addresses on the way
//! ([`variable`]) and emitting one line per surviving cell. A cartridge
//! front end ([`nes`]) seeds the traversal from a container's vectors, and
//! [`linker`] reads the linker-configuration format.

pub mod code;
pub mod disassembler;
pub mod errors;
pub mod instruction;
pub mod linker;
pub mod nes;
pub mod text;
pub mod variable;

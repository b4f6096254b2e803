use vstd::prelude::*;

use crate::errors::DisassembleError;
use vstd::assert_by_contradiction;
use crate::instruction::{Instruction, instr_text, instr_map_after};
use crate::text::{hex2_upper, hex4_upper, dec_u8, bin8, append_hex2_upper, append_hex4_upper,
    append_dec_u8, append_bin8, append_padded_25, push_char, pad25};
use crate::variable::{Variable, VariableView, VariableMap, value_text};

verus! {

/// One cell of the store: a raw or typed data byte, a grouped data sequence,
/// a decoded instruction, or a tombstone (`Used`) marking a byte consumed by
/// a neighboring instruction or group.
#[derive(Debug)]
pub enum AsmCode {
    DataHexU8(u8),
    DataHexU16(u16),
    DataU8(u8),
    DataBinaryU8(u8),
    DataString(String),
    DataSeq(Vec<AsmCode>),
    Instruction(Instruction),
    Used,
}

/// The numeric value of a byte-like cell.
pub open spec fn as_byte(c: AsmCode) -> Option<u8> {
    match c {
        AsmCode::DataHexU8(v) => Some(v),
        AsmCode::DataU8(v) => Some(v),
        AsmCode::DataBinaryU8(v) => Some(v),
        _ => None,
    }
}

/// Whether a cell may stand inside a data sequence.
pub open spec fn is_data_elem(c: AsmCode) -> bool {
    match c {
        AsmCode::DataHexU8(_) => true,
        AsmCode::DataU8(_) => true,
        AsmCode::DataBinaryU8(_) => true,
        AsmCode::DataString(_) => true,
        _ => false,
    }
}

/// Well-formedness of a cell: a data sequence holds data elements only.
pub open spec fn asm_wf(c: AsmCode) -> bool {
    match c {
        AsmCode::DataSeq(v) => forall|i: int| 0 <= i < v@.len() ==> is_data_elem(#[trigger] v@[i]),
        _ => true,
    }
}

/// The text of one element inside a data sequence.
pub open spec fn data_elem_text(c: AsmCode) -> Seq<char> {
    match c {
        AsmCode::DataHexU8(v) => "$"@ + hex2_upper(v),
        AsmCode::DataU8(v) => dec_u8(v),
        AsmCode::DataBinaryU8(v) => bin8(v),
        AsmCode::DataString(s) => "\""@ + s@ + "\""@,
        _ => Seq::empty(),
    }
}

/// The comma-joined text of a data sequence's elements.
pub open spec fn seq_items_text(v: Seq<AsmCode>) -> Seq<char>
    decreases v.len(),
{
    if v.len() == 0 {
        Seq::empty()
    } else if v.len() == 1 {
        data_elem_text(v[0])
    } else {
        seq_items_text(v.drop_last()) + ", "@ + data_elem_text(v.last())
    }
}

/// The text of a cell under a given registry. A tombstone renders as nothing.
pub open spec fn asm_text(c: AsmCode, m: Map<u16, VariableView>) -> Seq<char> {
    match c {
        AsmCode::DataHexU8(v) => ".byte $"@ + hex2_upper(v),
        AsmCode::DataHexU16(w) => ".byte $"@ + hex4_upper(w),
        AsmCode::DataU8(v) => ".byte "@ + dec_u8(v),
        AsmCode::DataBinaryU8(v) => ".byte "@ + bin8(v),
        AsmCode::DataString(s) => ".byte \""@ + s@ + "\""@,
        AsmCode::DataSeq(v) => ".byte "@ + seq_items_text(v@),
        AsmCode::Instruction(i) => "    "@ + instr_text(i, m),
        AsmCode::Used => Seq::empty(),
    }
}

/// The registry after rendering a cell: only an instruction can bind a fresh
/// operand address.
pub open spec fn asm_map_after(c: AsmCode, m: Map<u16, VariableView>) -> Map<u16, VariableView> {
    match c {
        AsmCode::Instruction(i) => instr_map_after(i, m),
        _ => m,
    }
}

/// Rendering a tombstone yields the empty string, whatever the registry holds.
pub proof fn lemma_tombstone_renders_empty(m: Map<u16, VariableView>)
    ensures
        asm_text(AsmCode::Used, m) == Seq::<char>::empty(),
{
}

fn data_elem_string(c: &AsmCode) -> (r: String)
    requires
        is_data_elem(*c),
    ensures
        r@ == data_elem_text(*c),
{
    match c {
        AsmCode::DataHexU8(v) => {
            let mut s = String::from_str("$");
            append_hex2_upper(&mut s, *v);
            s
        },
        AsmCode::DataU8(v) => {
            let mut s = String::new();
            append_dec_u8(&mut s, *v);
            s
        },
        AsmCode::DataBinaryU8(v) => {
            let mut s = String::new();
            append_bin8(&mut s, *v);
            s
        },
        AsmCode::DataString(t) => {
            let mut s = String::from_str("\"");
            s.append(t.as_str());
            s.append("\"");
            s
        },
        _ => {
            // excluded by the precondition
            String::new()
        },
    }
}

impl AsmCode {
    /// Whether this cell may stand inside a data sequence.
    pub fn is_data_element(&self) -> (r: bool)
        ensures
            r == is_data_elem(*self),
    {
        match self {
            AsmCode::DataHexU8(_) => true,
            AsmCode::DataU8(_) => true,
            AsmCode::DataBinaryU8(_) => true,
            AsmCode::DataString(_) => true,
            _ => false,
        }
    }

    /// Whether this cell is a raw (still undecoded) byte equal to `arg`.
    pub fn is_eq_u8(&self, arg: u8) -> (r: bool)
        ensures
            r == (*self matches AsmCode::DataHexU8(v) && v == arg),
    {
        if let AsmCode::DataHexU8(v) = self {
            return *v == arg;
        }
        return false;
    }

    /// The numeric value of a byte-like cell; reading a consumed or decoded
    /// cell is refused.
    pub fn to_u8(&self) -> (r: Result<u8, DisassembleError>)
        ensures
            as_byte(*self) matches Some(v) ==> r == Ok::<u8, DisassembleError>(v),
            as_byte(*self) is None ==> (r matches Err(DisassembleError::ParseError(m)) && m@
                == "unexpected asm code"@),
    {
        match self {
            AsmCode::DataHexU8(v) => Ok(*v),
            AsmCode::DataU8(v) => Ok(*v),
            AsmCode::DataBinaryU8(v) => Ok(*v),
            _ => Err(DisassembleError::ParseError(String::from_str("unexpected asm code"))),
        }
    }

    /// Renders the cell, binding any fresh operand address in the registry.
    pub fn to_write_string(&self, addr_to_variable: &mut VariableMap) -> (r: String)
        requires
            asm_wf(*self),
            old(addr_to_variable).wf(),
        ensures
            final(addr_to_variable).wf(),
            r@ == asm_text(*self, old(addr_to_variable)@),
            final(addr_to_variable)@ == asm_map_after(*self, old(addr_to_variable)@),
    {
        match self {
            AsmCode::DataHexU8(v) => {
                let mut s = String::from_str(".byte $");
                append_hex2_upper(&mut s, *v);
                s
            },
            AsmCode::DataHexU16(w) => {
                let mut s = String::from_str(".byte $");
                append_hex4_upper(&mut s, *w);
                s
            },
            AsmCode::DataU8(v) => {
                let mut s = String::from_str(".byte ");
                append_dec_u8(&mut s, *v);
                s
            },
            AsmCode::DataBinaryU8(v) => {
                let mut s = String::from_str(".byte ");
                append_bin8(&mut s, *v);
                s
            },
            AsmCode::DataString(t) => {
                let mut s = String::from_str(".byte \"");
                s.append(t.as_str());
                s.append("\"");
                s
            },
            AsmCode::DataSeq(v) => {
                let mut s = String::from_str(".byte ");
                let n = v.len();
                let mut i: usize = 0;
                while i < n
                    invariant
                        n == v@.len(),
                        i <= n,
                        forall|j: int| 0 <= j < n ==> is_data_elem(#[trigger] v@[j]),
                        s@ == ".byte "@ + seq_items_text(v@.take(i as int)),
                    decreases n - i,
                {
                    if i > 0 {
                        s.append(", ");
                    }
                    let t = data_elem_string(&v[i]);
                    s.append(t.as_str());
                    proof {
                        let taken = v@.take(i + 1);
                        assert(taken.drop_last() =~= v@.take(i as int));
                        assert(taken.last() == v@[i as int]);
                        if i == 0 {
                            assert(seq_items_text(taken) == data_elem_text(v@[0]));
                            assert(s@ =~= ".byte "@ + seq_items_text(taken));
                        } else {
                            assert(seq_items_text(taken) == seq_items_text(v@.take(i as int))
                                + ", "@ + data_elem_text(v@[i as int]));
                            assert(s@ =~= ".byte "@ + seq_items_text(taken));
                        }
                    }
                    i = i + 1;
                }
                proof {
                    assert(v@.take(n as int) =~= v@);
                }
                s
            },
            AsmCode::Instruction(instr) => {
                let mut s = String::from_str("    ");
                let t = instr.to_write_string(addr_to_variable);
                s.append(t.as_str());
                s
            },
            AsmCode::Used => String::new(),
        }
    }
}

/// One cell together with its annotations.
pub struct Statement {
    pub asm_code: AsmCode,
    pub comment: Option<String>,
    pub segment: Option<String>,
    pub label: Option<String>,
}

/// Well-formedness of a statement: its cell is well formed.
pub open spec fn stmt_wf(st: Statement) -> bool {
    asm_wf(st.asm_code)
}

/// A fresh tombstone statement, carrying no annotations.
pub open spec fn used_stmt() -> Statement {
    Statement { asm_code: AsmCode::Used, comment: None, segment: None, label: None }
}

/// The store: one statement per file offset, and the address-to-name
/// registry. Created once from the raw bytes; cells are only ever
/// reclassified, never added or removed.
pub struct Code {
    stmts: Vec<Statement>,
    addr_to_variable: VariableMap,
}

impl Code {
    /// The statements, one per offset.
    pub closed spec fn cells(&self) -> Seq<Statement> {
        self.stmts@
    }

    /// The registered bindings.
    pub closed spec fn vars(&self) -> Map<u16, VariableView> {
        self.addr_to_variable@
    }

    /// Internal invariant: the registry and every cell are well formed.
    pub closed spec fn wf(&self) -> bool {
        &&& self.addr_to_variable.wf()
        &&& forall|i: int| 0 <= i < self.stmts@.len() ==> stmt_wf(#[trigger] self.stmts@[i])
    }

    /// Builds the store over the raw input: one raw byte cell per offset,
    /// no annotations, no bindings.
    pub fn new(data: Vec<u8>) -> (r: Code)
        ensures
            r.wf(),
            r.cells().len() == data@.len(),
            forall|i: int| 0 <= i < data@.len() ==> #[trigger] r.cells()[i] == (Statement {
                asm_code: AsmCode::DataHexU8(data@[i]),
                comment: None,
                segment: None,
                label: None,
            }),
            r.vars() == Map::<u16, VariableView>::empty(),
    {
        let n = data.len();
        let mut stmts: Vec<Statement> = Vec::new();
        let mut i: usize = 0;
        while i < n
            invariant
                n == data@.len(),
                i <= n,
                stmts@.len() == i,
                forall|j: int| 0 <= j < i ==> #[trigger] stmts@[j] == (Statement {
                    asm_code: AsmCode::DataHexU8(data@[j]),
                    comment: None,
                    segment: None,
                    label: None,
                }),
            decreases n - i,
        {
            stmts.push(
                Statement {
                    asm_code: AsmCode::DataHexU8(data[i]),
                    comment: None,
                    segment: None,
                    label: None,
                },
            );
            i = i + 1;
        }
        Code { stmts, addr_to_variable: VariableMap::new() }
    }

    /// Pre-binds an address to a name, replacing any earlier binding.
    pub fn set_variable(&mut self, addr: u16, variable: Variable)
        requires
            old(self).wf(),
        ensures
            final(self).wf(),
            final(self).cells() == old(self).cells(),
            final(self).vars() == old(self).vars().insert(addr, variable@),
    {
        self.addr_to_variable.insert(addr, variable);
    }

    /// Whether the cell at `offset` is a raw byte equal to `d`.
    pub fn is_eq_u8(&self, offset: usize, d: u8) -> (r: bool)
        requires
            offset < self.cells().len(),
        ensures
            r == (self.cells()[offset as int].asm_code matches AsmCode::DataHexU8(v) && v == d),
    {
        self.stmts[offset].asm_code.is_eq_u8(d)
    }

    /// Removes and returns the statement at `offset`, leaving a bare
    /// tombstone in its place.
    pub fn take(&mut self, offset: usize) -> (r: Result<Statement, DisassembleError>)
        requires
            old(self).wf(),
            offset < old(self).cells().len(),
        ensures
            final(self).wf(),
            r matches Ok(st) && st == old(self).cells()[offset as int],
            final(self).cells() == old(self).cells().update(offset as int, used_stmt()),
            final(self).vars() == old(self).vars(),
    {
        let mut st = Statement { asm_code: AsmCode::Used, comment: None, segment: None, label: None };
        core::mem::swap(&mut st, &mut self.stmts[offset]);
        proof {
            assert(stmt_wf(used_stmt()));
        }
        Ok(st)
    }

    /// The numeric value of the byte-like cell at `offset`; fails if that
    /// cell was already consumed or decoded.
    pub fn get_u8(&self, offset: usize) -> (r: Result<u8, DisassembleError>)
        requires
            offset < self.cells().len(),
        ensures
            as_byte(self.cells()[offset as int].asm_code) matches Some(v) ==> r == Ok::<
                u8,
                DisassembleError,
            >(v),
            as_byte(self.cells()[offset as int].asm_code) is None ==> (r matches Err(
                DisassembleError::ParseError(m),
            ) && m@ == "unexpected asm code"@),
    {
        self.stmts[offset].asm_code.to_u8()
    }

    /// The value at `offset` read as a signed byte.
    pub fn get_i8(&self, offset: usize) -> (r: Result<i8, DisassembleError>)
        requires
            offset < self.cells().len(),
        ensures
            as_byte(self.cells()[offset as int].asm_code) matches Some(v) ==> r == Ok::<
                i8,
                DisassembleError,
            >(v as i8),
            as_byte(self.cells()[offset as int].asm_code) is None ==> r is Err,
    {
        match self.get_u8(offset) {
            Ok(v) => Ok(v as i8),
            Err(e) => Err(e),
        }
    }

    /// Replaces the whole statement at `offset`.
    pub fn set(&mut self, offset: usize, stmt: Statement) -> (r: Result<(), DisassembleError>)
        requires
            old(self).wf(),
            offset < old(self).cells().len(),
            stmt_wf(stmt),
        ensures
            final(self).wf(),
            r is Ok,
            final(self).cells() == old(self).cells().update(offset as int, stmt),
            final(self).vars() == old(self).vars(),
    {
        let mut st = stmt;
        core::mem::swap(&mut st, &mut self.stmts[offset]);
        Ok(())
    }

    /// Tombstones the cells in `[start, end)` and installs `new_code` at
    /// `start`. Annotations are kept; only the cells are reclassified.
    pub fn replace(&mut self, start: usize, end: usize, new_code: AsmCode) -> (r: Result<
        (),
        DisassembleError,
    >)
        requires
            old(self).wf(),
            start < old(self).cells().len(),
            start <= end <= old(self).cells().len(),
            asm_wf(new_code),
        ensures
            final(self).wf(),
            r is Ok,
            final(self).cells().len() == old(self).cells().len(),
            forall|i: int| 0 <= i < old(self).cells().len() && !(start <= i < end) && i != start
                ==> final(self).cells()[i] == #[trigger] old(self).cells()[i],
            forall|i: int| start < i < end ==> #[trigger] final(self).cells()[i] == (Statement {
                asm_code: AsmCode::Used,
                ..old(self).cells()[i]
            }),
            final(self).cells()[start as int] == (Statement {
                asm_code: new_code,
                ..old(self).cells()[start as int]
            }),
            final(self).vars() == old(self).vars(),
    {
        let mut i: usize = start;
        while i < end
            invariant
                old(self).wf(),
                self.wf(),
                start <= i <= end,
                start <= end <= old(self).cells().len(),
                self.stmts@.len() == old(self).cells().len(),
                self.addr_to_variable == old(self).addr_to_variable,
                forall|j: int| 0 <= j < old(self).cells().len() && !(start <= j < i)
                    ==> self.stmts@[j] == #[trigger] old(self).cells()[j],
                forall|j: int| start <= j < i ==> #[trigger] self.stmts@[j] == (Statement {
                    asm_code: AsmCode::Used,
                    ..old(self).cells()[j]
                }),
            decreases end - i,
        {
            self.stmts[i].asm_code = AsmCode::Used;
            i = i + 1;
        }
        self.stmts[start].asm_code = new_code;
        Ok(())
    }

    /// Reclassifies the byte at `offset` to render in decimal, returning its
    /// value; fails if the cell is not byte-like.
    pub fn replace_with_u8(&mut self, offset: usize) -> (r: Result<u8, DisassembleError>)
        requires
            old(self).wf(),
            offset < old(self).cells().len(),
        ensures
            final(self).wf(),
            final(self).vars() == old(self).vars(),
            match as_byte(old(self).cells()[offset as int].asm_code) {
                Some(v) => r == Ok::<u8, DisassembleError>(v) && final(self).cells() == old(
                    self,
                ).cells().update(
                    offset as int,
                    Statement { asm_code: AsmCode::DataU8(v), ..old(self).cells()[offset as int] },
                ),
                None => (r matches Err(DisassembleError::ParseError(m)) && m@
                    == "unexpected asm code"@) && final(self).cells() == old(self).cells(),
            },
    {
        let v = match self.get_u8(offset) {
            Ok(v) => v,
            Err(e) => {
                return Err(e);
            },
        };
        self.stmts[offset].asm_code = AsmCode::DataU8(v);
        Ok(v)
    }

    /// Reclassifies the byte at `offset` to render in binary, returning its
    /// value; fails if the cell is not byte-like.
    pub fn replace_with_binary_u8(&mut self, offset: usize) -> (r: Result<u8, DisassembleError>)
        requires
            old(self).wf(),
            offset < old(self).cells().len(),
        ensures
            final(self).wf(),
            final(self).vars() == old(self).vars(),
            match as_byte(old(self).cells()[offset as int].asm_code) {
                Some(v) => r == Ok::<u8, DisassembleError>(v) && final(self).cells() == old(
                    self,
                ).cells().update(
                    offset as int,
                    Statement {
                        asm_code: AsmCode::DataBinaryU8(v),
                        ..old(self).cells()[offset as int]
                    },
                ),
                None => (r matches Err(DisassembleError::ParseError(m)) && m@
                    == "unexpected asm code"@) && final(self).cells() == old(self).cells(),
            },
    {
        let v = match self.get_u8(offset) {
            Ok(v) => v,
            Err(e) => {
                return Err(e);
            },
        };
        self.stmts[offset].asm_code = AsmCode::DataBinaryU8(v);
        Ok(v)
    }

    /// Tombstones the `args_len` operand cells after `offset` (clearing their
    /// annotations, as consumed bytes carry none) and classifies the whole
    /// range as one instruction at its head. Returns the number of cells the
    /// instruction covers.
    pub fn replace_with_instr(&mut self, offset: usize, args_len: usize, instr: Instruction) -> (r:
        Result<usize, DisassembleError>)
        requires
            old(self).wf(),
            offset + args_len < old(self).cells().len(),
        ensures
            final(self).wf(),
            r == Ok::<usize, DisassembleError>((args_len + 1) as usize),
            final(self).vars() == old(self).vars(),
            final(self).cells().len() == old(self).cells().len(),
            forall|i: int| 0 <= i < old(self).cells().len() && !(offset <= i <= offset + args_len)
                ==> final(self).cells()[i] == #[trigger] old(self).cells()[i],
            forall|i: int| offset < i <= offset + args_len ==> #[trigger] final(self).cells()[i]
                == used_stmt(),
            final(self).cells()[offset as int] == (Statement {
                asm_code: AsmCode::Instruction(instr),
                ..old(self).cells()[offset as int]
            }),
    {
        let n = self.stmts.len();
        proof {
            assert(old(self).cells().len() <= usize::MAX);
        }
        let mut i: usize = 0;
        while i < args_len
            invariant
                old(self).wf(),
                self.wf(),
                i <= args_len,
                offset + args_len < old(self).cells().len(),
                old(self).cells().len() <= usize::MAX,
                self.stmts@.len() == old(self).cells().len(),
                self.vars() == old(self).vars(),
                forall|j: int| 0 <= j < old(self).cells().len() && !(offset < j <= offset + i)
                    ==> self.stmts@[j] == #[trigger] old(self).cells()[j],
                forall|j: int| offset < j <= offset + i ==> #[trigger] self.stmts@[j]
                    == used_stmt(),
            decreases args_len - i,
        {
            match self.take(offset + i + 1) {
                Ok(_) => {},
                Err(e) => {
                    return Err(e);
                },
            }
            i = i + 1;
        }
        match self.replace(offset, offset + args_len + 1, AsmCode::Instruction(instr)) {
            Ok(_) => {},
            Err(e) => {
                return Err(e);
            },
        }
        proof {
            assert forall|j: int| offset < j <= offset + args_len implies #[trigger] self.stmts@[j]
                == used_stmt() by {
                assert(self.stmts@[j] == Statement { asm_code: AsmCode::Used, ..used_stmt() });
            }
        }
        Ok(args_len + 1)
    }

    /// Attaches a comment to the statement at `offset`.
    pub fn set_comment(&mut self, offset: usize, comment: &str)
        requires
            old(self).wf(),
            offset < old(self).cells().len(),
        ensures
            final(self).wf(),
            final(self).vars() == old(self).vars(),
            final(self).cells().len() == old(self).cells().len(),
            forall|i: int|
                #![trigger final(self).cells()[i]]
                #![trigger old(self).cells()[i]]
                0 <= i < old(self).cells().len() && i != offset ==> final(self).cells()[i] == old(
                    self,
                ).cells()[i],
            final(self).cells()[offset as int].asm_code == old(self).cells()[
                offset as int
            ].asm_code,
            (final(self).cells()[offset as int].comment matches Some(t) && t@ == comment@),
            final(self).cells()[offset as int].segment == old(self).cells()[offset as int].segment,
            final(self).cells()[offset as int].label == old(self).cells()[offset as int].label,
    {
        self.stmts[offset].comment = Some(comment.to_owned());
    }

    /// Marks the statement at `offset` as the start of a named segment.
    pub fn set_segment(&mut self, offset: usize, segment: &str)
        requires
            old(self).wf(),
            offset < old(self).cells().len(),
        ensures
            final(self).wf(),
            final(self).vars() == old(self).vars(),
            final(self).cells().len() == old(self).cells().len(),
            forall|i: int|
                #![trigger final(self).cells()[i]]
                #![trigger old(self).cells()[i]]
                0 <= i < old(self).cells().len() && i != offset ==> final(self).cells()[i] == old(
                    self,
                ).cells()[i],
            final(self).cells()[offset as int].asm_code == old(self).cells()[
                offset as int
            ].asm_code,
            (final(self).cells()[offset as int].segment matches Some(t) && t@ == segment@),
            final(self).cells()[offset as int].comment == old(self).cells()[offset as int].comment,
            final(self).cells()[offset as int].label == old(self).cells()[offset as int].label,
    {
        self.stmts[offset].segment = Some(segment.to_owned());
    }

    /// Attaches a label to the statement at `offset`.
    pub fn set_label(&mut self, offset: usize, label: &str)
        requires
            old(self).wf(),
            offset < old(self).cells().len(),
        ensures
            final(self).wf(),
            final(self).vars() == old(self).vars(),
            final(self).cells().len() == old(self).cells().len(),
            forall|i: int|
                #![trigger final(self).cells()[i]]
                #![trigger old(self).cells()[i]]
                0 <= i < old(self).cells().len() && i != offset ==> final(self).cells()[i] == old(
                    self,
                ).cells()[i],
            final(self).cells()[offset as int].asm_code == old(self).cells()[
                offset as int
            ].asm_code,
            (final(self).cells()[offset as int].label matches Some(t) && t@ == label@),
            final(self).cells()[offset as int].comment == old(self).cells()[offset as int].comment,
            final(self).cells()[offset as int].segment == old(self).cells()[offset as int].segment,
    {
        self.stmts[offset].label = Some(label.to_owned());
    }

    /// How many cells the store holds: one per byte of the input.
    pub fn len(&self) -> (r: usize)
        ensures
            r == self.cells().len(),
    {
        self.stmts.len()
    }

    /// Whether the cell at `offset` holds a decoded instruction: the mark the
    /// traversal uses to recognize a location it has already visited.
    pub fn is_instruction(&self, offset: usize) -> (r: bool)
        requires
            offset < self.cells().len(),
        ensures
            r == (self.cells()[offset as int].asm_code is Instruction),
    {
        if let AsmCode::Instruction(_) = self.stmts[offset].asm_code {
            return true;
        }
        return false;
    }

    /// Whether the cell at `offset` is a tombstone.
    pub fn is_used(&self, offset: usize) -> (r: bool)
        requires
            offset < self.cells().len(),
        ensures
            r == (self.cells()[offset as int].asm_code is Used),
    {
        if let AsmCode::Used = self.stmts[offset].asm_code {
            return true;
        }
        return false;
    }
}

// ---------------------------------------------------------------------------
// Comment formatting
// ---------------------------------------------------------------------------
/// A comment with each line break turned into a break plus a `; ` prefix for
/// the following line.
pub open spec fn expand_comment(s: Seq<char>) -> Seq<char>
    decreases s.len(),
{
    if s.len() == 0 {
        Seq::empty()
    } else {
        (if s[0] == '\n' {
            "\n; "@
        } else {
            seq![s[0]]
        }) + expand_comment(s.drop_first())
    }
}

/// The view of an optional string.
pub open spec fn option_str_view(o: Option<String>) -> Option<Seq<char>> {
    match o {
        Some(s) => Some(s@),
        None => None,
    }
}

/// A rendered line together with its comment: a one-line comment trails the
/// padded line; a multi-line comment becomes a block above it.
pub open spec fn with_comment_text(first: Seq<char>, comment: Option<Seq<char>>) -> Seq<char> {
    match comment {
        None => first,
        Some(c) => if c.contains('\n') {
            "\n; "@ + expand_comment(c) + "\n"@ + pad25(first)
        } else {
            pad25(first) + " ; "@ + c
        },
    }
}

fn contains_newline(t: &str) -> (r: bool)
    ensures
        r == t@.contains('\n'),
{
    broadcast use vstd::string::next_postcondition, vstd::string::axiom_spec_iter;

    let mut it = t.chars();
    let ghost mut n: int = 0;
    loop
        invariant
            0 <= n <= t@.len(),
            vstd::std_specs::iter::IteratorSpec::remaining(&it) == t@.skip(n),
            vstd::std_specs::iter::IteratorSpec::obeys_prophetic_iter_laws(&it),
            forall|j: int| 0 <= j < n ==> t@[j] != '\n',
        decreases t@.len() - n,
    {
        let c = it.next();
        match c {
            Some(ch) => {
                proof {
                    assert(t@.skip(n)[0] == t@[n]);
                    assert(t@.skip(n).drop_first() =~= t@.skip(n + 1));
                }
                if ch == '\n' {
                    proof {
                        assert(t@[n] == '\n');
                    }
                    return true;
                }
                proof {
                    n = n + 1;
                }
            },
            None => {
                proof {
                    assert(t@.skip(n).len() == 0);
                    assert_by_contradiction!(!t@.contains('\n'), {
                        let j = choose|j: int| 0 <= j < t@.len() && t@[j] == '\n';
                        assert(t@[j] != '\n');
                    });
                }
                return false;
            },
        }
    }
}

fn expand_comment_string(t: &str) -> (r: String)
    ensures
        r@ == expand_comment(t@),
{
    broadcast use vstd::string::next_postcondition, vstd::string::axiom_spec_iter;

    let mut out = String::new();
    let mut it = t.chars();
    let ghost mut n: int = 0;
    loop
        invariant
            0 <= n <= t@.len(),
            vstd::std_specs::iter::IteratorSpec::remaining(&it) == t@.skip(n),
            vstd::std_specs::iter::IteratorSpec::obeys_prophetic_iter_laws(&it),
            out@ + expand_comment(t@.skip(n)) == expand_comment(t@),
        decreases t@.len() - n,
    {
        let c = it.next();
        match c {
            Some(ch) => {
                proof {
                    assert(t@.skip(n)[0] == t@[n]);
                    assert(t@.skip(n).drop_first() =~= t@.skip(n + 1));
                }
                let ghost before = out@;
                if ch == '\n' {
                    out.append("\n; ");
                } else {
                    push_char(&mut out, ch);
                }
                proof {
                    let rep: Seq<char> = if ch == '\n' {
                        "\n; "@
                    } else {
                        seq![ch]
                    };
                    assert(expand_comment(t@.skip(n)) == rep + expand_comment(t@.skip(n + 1)));
                    assert(out@ + expand_comment(t@.skip(n + 1)) =~= before + expand_comment(
                        t@.skip(n),
                    ));
                    n = n + 1;
                }
            },
            None => {
                proof {
                    assert(t@.skip(n).len() == 0);
                    assert(out@ =~= out@ + expand_comment(t@.skip(n)));
                }
                return out;
            },
        }
    }
}

// ---------------------------------------------------------------------------
// Serialization
// ---------------------------------------------------------------------------
/// The registry after rendering the cells from index `i` on, starting from
/// `m`: the bindings a full rendering pass leaves behind.
pub open spec fn sat_from(cells: Seq<Statement>, i: int, m: Map<u16, VariableView>) -> Map<
    u16,
    VariableView,
>
    decreases cells.len() - i,
{
    if i < 0 || i >= cells.len() {
        m
    } else {
        sat_from(cells, i + 1, asm_map_after(cells[i].asm_code, m))
    }
}

/// The banner emitted when a statement opens a named segment.
pub open spec fn banner_text(segment: Option<Seq<char>>) -> Seq<char> {
    match segment {
        None => Seq::empty(),
        Some(sg) => "\n; -------------------------- "@ + sg + " -----------------------\n.segment \""@
            + sg + "\"\n"@,
    }
}

/// The line emitted when a statement carries a label.
pub open spec fn label_line_text(label: Option<Seq<char>>) -> Seq<char> {
    match label {
        None => Seq::empty(),
        Some(l) => l + ":\n"@,
    }
}

/// Everything one statement contributes to the listing: nothing at all for a
/// tombstone; otherwise its banner, its label line, and its rendered line.
pub open spec fn stmt_block_text(st: Statement, m: Map<u16, VariableView>) -> Seq<char> {
    if st.asm_code is Used {
        Seq::empty()
    } else {
        banner_text(option_str_view(st.segment)) + label_line_text(option_str_view(st.label))
            + with_comment_text(asm_text(st.asm_code, m), option_str_view(st.comment)) + "\n"@
    }
}

/// A tombstone contributes nothing to the listing: not even a blank line.
pub proof fn lemma_tombstone_silent(st: Statement, m: Map<u16, VariableView>)
    requires
        st.asm_code is Used,
    ensures
        stmt_block_text(st, m) == Seq::<char>::empty(),
{
}

/// The listing body from cell `i` on, threading the registry through each
/// rendered cell.
pub open spec fn emit_from(cells: Seq<Statement>, i: int, m: Map<u16, VariableView>) -> Seq<char>
    decreases cells.len() - i,
{
    if i < 0 || i >= cells.len() {
        Seq::empty()
    } else {
        stmt_block_text(cells[i], m) + emit_from(cells, i + 1, asm_map_after(cells[i].asm_code, m))
    }
}

/// One `.define` line: the padded name and its value.
pub open spec fn define_line_text(v: VariableView) -> Seq<char> {
    ".define "@ + pad25(v.name) + " = "@ + value_text(v.value) + "\n"@
}

/// The `.define` block for the keys in `ks`.
pub open spec fn defines_text(m: Map<u16, VariableView>, ks: Seq<u16>) -> Seq<char>
    decreases ks.len(),
{
    if ks.len() == 0 {
        Seq::empty()
    } else {
        (if m.contains_key(ks[0]) {
            define_line_text(m[ks[0]])
        } else {
            Seq::empty()
        }) + defines_text(m, ks.drop_first())
    }
}

/// The strictly ascending listing of exactly the bound addresses.
pub open spec fn is_canon_keys(m: Map<u16, VariableView>, ks: Seq<u16>) -> bool {
    &&& forall|i: int, j: int| #![trigger ks[i], ks[j]] 0 <= i < j < ks.len() ==> ks[i] < ks[j]
    &&& forall|k: u16| #[trigger] ks.contains(k) <==> m.contains_key(k)
}

/// The one strictly ascending listing of a registry's addresses.
pub open spec fn sorted_keys_of(m: Map<u16, VariableView>) -> Seq<u16> {
    choose|ks: Seq<u16>| is_canon_keys(m, ks)
}

/// Two strictly ascending sequences with the same members are the same.
proof fn lemma_strict_sorted_unique(s1: Seq<u16>, s2: Seq<u16>)
    requires
        forall|i: int, j: int| #![trigger s1[i], s1[j]] 0 <= i < j < s1.len() ==> s1[i] < s1[j],
        forall|i: int, j: int| #![trigger s2[i], s2[j]] 0 <= i < j < s2.len() ==> s2[i] < s2[j],
        forall|k: u16| s1.contains(k) <==> s2.contains(k),
    ensures
        s1 == s2,
    decreases s1.len(),
{
    if s1.len() == 0 {
        if s2.len() > 0 {
            assert(s2.contains(s2[0]));
            assert(s1.contains(s2[0]));
        }
        assert(s1 =~= s2);
    } else {
        assert(s1.contains(s1[0]));
        assert(s2.contains(s1[0]));
        if s2.len() == 0 {
            assert(false);
        }
        let i1 = choose|i: int| 0 <= i < s2.len() && s2[i] == s1[0];
        assert(s2[0] <= s2[i1]);
        assert(s2.contains(s2[0]));
        assert(s1.contains(s2[0]));
        let i2 = choose|i: int| 0 <= i < s1.len() && s1[i] == s2[0];
        assert(s1[0] <= s1[i2]);
        assert(s1[0] == s2[0]);
        let t1 = s1.drop_first();
        let t2 = s2.drop_first();
        assert forall|k: u16| t1.contains(k) implies t2.contains(k) by {
            let i = choose|i: int| 0 <= i < t1.len() && t1[i] == k;
            assert(s1[i + 1] == k);
            assert(s1[0] < k);
            assert(s1.contains(k));
            assert(s2.contains(k));
            let j = choose|j: int| 0 <= j < s2.len() && s2[j] == k;
            assert(j != 0);
            assert(t2[j - 1] == k);
        }
        assert forall|k: u16| t2.contains(k) implies t1.contains(k) by {
            let i = choose|i: int| 0 <= i < t2.len() && t2[i] == k;
            assert(s2[i + 1] == k);
            assert(s2[0] < k);
            assert(s2.contains(k));
            assert(s1.contains(k));
            let j = choose|j: int| 0 <= j < s1.len() && s1[j] == k;
            assert(j != 0);
            assert(t1[j - 1] == k);
        }
        assert(forall|i: int, j: int| #![trigger t1[i], t1[j]] 0 <= i < j < t1.len() ==> t1[i]
            < t1[j]) by {
            assert(forall|i: int| 0 <= i < t1.len() ==> t1[i] == s1[i + 1]);
        }
        assert(forall|i: int, j: int| #![trigger t2[i], t2[j]] 0 <= i < j < t2.len() ==> t2[i]
            < t2[j]) by {
            assert(forall|i: int| 0 <= i < t2.len() ==> t2[i] == s2[i + 1]);
        }
        lemma_strict_sorted_unique(t1, t2);
        assert(forall|i: int| 1 <= i < s1.len() ==> s1[i] == t1[i - 1]);
        assert(forall|i: int| 1 <= i < s2.len() ==> s2[i] == t2[i - 1]);
        assert(s1 =~= s2);
    }
}

/// The whole listing of a store: the `.define` block over the saturated
/// registry (every operand address bound), then every non-tombstone cell in
/// offset order.
pub open spec fn listing_text(cells: Seq<Statement>, m0: Map<u16, VariableView>) -> Seq<char> {
    let msat = sat_from(cells, 0, m0);
    defines_text(msat, sorted_keys_of(msat)) + emit_from(cells, 0, msat)
}

/// Relies on itertools' `sorted`: the same elements, in ascending order.
#[verifier::external_body]
fn sorted_u16s(v: Vec<u16>) -> (r: Vec<u16>)
    ensures
        r@.to_multiset() == v@.to_multiset(),
        forall|i: int, j: int| #![trigger r@[i], r@[j]] 0 <= i < j < r@.len() ==> r@[i] <= r@[j],
{
    itertools::Itertools::sorted(v.into_iter()).collect()
}

impl Code {
    fn with_comment(first: String, comment: &Option<String>) -> (r: String)
        ensures
            r@ == with_comment_text(first@, option_str_view(*comment)),
    {
        match comment {
            Some(c) => {
                if contains_newline(c.as_str()) {
                    let mut s = String::from_str("\n; ");
                    let e = expand_comment_string(c.as_str());
                    s.append(e.as_str());
                    s.append("\n");
                    append_padded_25(&mut s, first.as_str());
                    proof {
                        assert(s@ =~= with_comment_text(first@, option_str_view(*comment)));
                    }
                    s
                } else {
                    let mut s = String::new();
                    append_padded_25(&mut s, first.as_str());
                    s.append(" ; ");
                    s.append(c.as_str());
                    proof {
                        assert(s@ =~= with_comment_text(first@, option_str_view(*comment)));
                    }
                    s
                }
            },
            None => first,
        }
    }

    /// Renders the one statement at `offset` with an empty registry, its
    /// comment attached, binding nothing.
    pub fn to_string(&self, offset: usize) -> (r: Result<String, DisassembleError>)
        requires
            self.wf(),
            offset < self.cells().len(),
        ensures
            (r matches Ok(t) && t@ == with_comment_text(
                asm_text(self.cells()[offset as int].asm_code, Map::empty()),
                option_str_view(self.cells()[offset as int].comment),
            )),
    {
        let mut empty_map = VariableMap::new();
        proof {
            assert(stmt_wf(self.stmts@[offset as int]));
        }
        let rendered = self.stmts[offset].asm_code.to_write_string(&mut empty_map);
        Ok(Code::with_comment(rendered, &self.stmts[offset].comment))
    }

    /// Serializes the whole store: first every binding a rendering pass
    /// leaves behind as `.define` lines in ascending address order, then
    /// every non-tombstone cell in offset order, with segment banners and
    /// label lines where present.
    #[verifier::rlimit(50)]
    pub fn write(&self) -> (r: String)
        requires
            self.wf(),
        ensures
            r@ == listing_text(self.cells(), self.vars()),
    {
        broadcast use vstd::seq_lib::group_to_multiset_ensures;

        let ghost cells = self.cells();
        let ghost m0 = self.vars();
        let ghost msat = sat_from(cells, 0, m0);
        let mut map = self.addr_to_variable.duplicate();
        let n = self.stmts.len();
        let mut i: usize = 0;
        while i < n
            invariant
                self.wf(),
                n == self.stmts@.len(),
                i <= n,
                map.wf(),
                sat_from(self.cells(), i as int, map@) == sat_from(self.cells(), 0, self.vars()),
            decreases n - i,
        {
            proof {
                assert(stmt_wf(self.stmts@[i as int]));
            }
            let _ = self.stmts[i].asm_code.to_write_string(&mut map);
            i = i + 1;
        }
        proof {
            assert(map@ == msat);
        }
        let keys = map.keys();
        let sorted = sorted_u16s(keys);
        proof {
            keys@.lemma_multiset_has_no_duplicates();
            sorted@.lemma_multiset_has_no_duplicates_conv();
            assert forall|k: u16| #[trigger] sorted@.contains(k) <==> msat.contains_key(k) by {
                assert(sorted@.contains(k) <==> sorted@.to_multiset().count(k) > 0);
                assert(keys@.contains(k) <==> keys@.to_multiset().count(k) > 0);
            }
            assert(is_canon_keys(msat, sorted@));
            assert(exists|ks: Seq<u16>| is_canon_keys(msat, ks)) by {
                assert(is_canon_keys(msat, sorted@));
            }
            let ks = sorted_keys_of(msat);
            assert(is_canon_keys(msat, ks));
            lemma_strict_sorted_unique(sorted@, ks);
        }
        let mut out = String::new();
        proof {
            assert(sorted@.skip(0) =~= sorted@);
            assert(out@ + defines_text(msat, sorted@) =~= defines_text(msat, sorted@));
        }
        let kn = sorted.len();
        let mut ki: usize = 0;
        while ki < kn
            invariant
                map.wf(),
                map@ == msat,
                kn == sorted@.len(),
                ki <= kn,
                out@ + defines_text(msat, sorted@.skip(ki as int)) == defines_text(msat, sorted@),
            decreases kn - ki,
        {
            let ghost before = out@;
            let k = sorted[ki];
            match map.get(k) {
                Some(v) => {
                    out.append(".define ");
                    append_padded_25(&mut out, v.name.as_str());
                    out.append(" = ");
                    let vt = v.value.to_write_string();
                    out.append(vt.as_str());
                    out.append("\n");
                    proof {
                        assert(out@ =~= before + define_line_text(msat[k]));
                    }
                },
                None => {},
            }
            proof {
                let rest = sorted@.skip(ki as int);
                assert(rest[0] == sorted@[ki as int]);
                assert(rest.drop_first() =~= sorted@.skip(ki as int + 1));
                assert(defines_text(msat, rest) == (if msat.contains_key(rest[0]) {
                    define_line_text(msat[rest[0]])
                } else {
                    Seq::empty()
                }) + defines_text(msat, sorted@.skip(ki as int + 1)));
                assert(out@ + defines_text(msat, sorted@.skip(ki as int + 1)) =~= before
                    + defines_text(msat, rest));
            }
            ki = ki + 1;
        }
        proof {
            assert(sorted@.skip(kn as int).len() == 0);
            assert(out@ =~= out@ + defines_text(msat, sorted@.skip(kn as int)));
            assert(out@ == defines_text(msat, sorted@));
            assert(defines_text(msat, sorted@) == defines_text(msat, sorted_keys_of(msat)));
        }
        let ghost defines_part = out@;
        let mut i2: usize = 0;
        while i2 < n
            invariant
                self.wf(),
                n == self.stmts@.len(),
                i2 <= n,
                map.wf(),
                out@ + emit_from(self.cells(), i2 as int, map@) == defines_part + emit_from(
                    self.cells(),
                    0,
                    msat,
                ),
            decreases n - i2,
        {
            let ghost before = out@;
            let ghost mbefore = map@;
            let st = &self.stmts[i2];
            proof {
                assert(stmt_wf(self.stmts@[i2 as int]));
            }
            let is_used_cell = match &st.asm_code {
                AsmCode::Used => true,
                _ => false,
            };
            if !is_used_cell {
                match &st.segment {
                    Some(sg) => {
                        out.append("\n; -------------------------- ");
                        out.append(sg.as_str());
                        out.append(" -----------------------\n.segment \"");
                        out.append(sg.as_str());
                        out.append("\"\n");
                    },
                    None => {},
                }
                match &st.label {
                    Some(l) => {
                        out.append(l.as_str());
                        out.append(":\n");
                    },
                    None => {},
                }
                let rendered = st.asm_code.to_write_string(&mut map);
                let line = Code::with_comment(rendered, &st.comment);
                out.append(line.as_str());
                out.append("\n");
                proof {
                    assert(out@ =~= before + stmt_block_text(self.cells()[i2 as int], mbefore));
                }
            } else {
                proof {
                    assert(out@ =~= before + stmt_block_text(self.cells()[i2 as int], mbefore));
                }
            }
            proof {
                let c = self.cells();
                assert(emit_from(c, i2 as int, mbefore) == stmt_block_text(c[i2 as int], mbefore)
                    + emit_from(c, i2 as int + 1, asm_map_after(c[i2 as int].asm_code, mbefore)));
                assert(map@ == asm_map_after(c[i2 as int].asm_code, mbefore));
                assert(out@ + emit_from(c, i2 as int + 1, map@) =~= before + emit_from(
                    c,
                    i2 as int,
                    mbefore,
                ));
            }
            i2 = i2 + 1;
        }
        proof {
            assert(out@ =~= out@ + emit_from(self.cells(), n as int, map@));
            assert(out@ =~= listing_text(self.cells(), self.vars()));
        }
        out
    }
}

} // verus!

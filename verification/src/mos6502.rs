use vstd::prelude::*;

use ::mos6502::instruction::Nmos6502;
use ::mos6502::Variant;

use crate::listing::{list, listing, Lister};
use crate::text::{hex, pad_right, push_hex, push_padded};

verus! {

/// The 6502 addressing modes that the disassembler tells apart.
#[derive(Clone, Copy, Debug, PartialEq, Eq, Structural)]
pub enum AddrMode {
    Accumulator,
    Implied,
    Immediate,
    ZeroPage,
    ZeroPageX,
    ZeroPageY,
    Relative,
    Absolute,
    AbsoluteX,
    AbsoluteY,
    BuggyIndirect,
    Indirect,
    IndexedIndirectX,
    IndirectIndexedY,
    /// A mode of the CMOS variants, which the NMOS decoder does not give.
    Other,
}

/// What the `mos6502` crate's NMOS decoder makes of an opcode: the
/// instruction's name (as its `Debug` form prints it) and the position of
/// its addressing mode in the crate's `AddressingMode` enum; `None` for the
/// opcodes it leaves undecoded.
pub uninterp spec fn nmos_decode(opcode: u8) -> Option<(Seq<char>, u8)>;

/// Calls `<Nmos6502 as Variant>::decode` and hands its result out as plain
/// values: the instruction's `Debug` text and the addressing mode's
/// position in its enum (`as u8`). The decoder is a fixed table, a function
/// of the opcode alone.
#[verifier::external_body]
fn decode_nmos(opcode: u8) -> (r: Option<(String, u8)>)
    ensures
        r is None <==> nmos_decode(opcode) is None,
        r matches Some((name, mode)) ==> nmos_decode(opcode) == Some((name@, mode)),
{
    match Nmos6502::decode(opcode) {
        Some((instr, am)) => Some((format!("{:?}", instr), am as u8)),
        None => None,
    }
}

/// The addressing mode at position `index` of the `mos6502` crate's
/// `AddressingMode` enum (the order in which the crate declares it).
pub open spec fn mode_at(index: u8) -> AddrMode {
    match index {
        0 => AddrMode::Accumulator,
        1 => AddrMode::Implied,
        2 => AddrMode::Immediate,
        3 => AddrMode::ZeroPage,
        4 => AddrMode::ZeroPageX,
        5 => AddrMode::ZeroPageY,
        6 => AddrMode::Relative,
        7 => AddrMode::Absolute,
        8 => AddrMode::AbsoluteX,
        9 => AddrMode::AbsoluteY,
        10 => AddrMode::BuggyIndirect,
        11 => AddrMode::Indirect,
        12 => AddrMode::IndexedIndirectX,
        13 => AddrMode::IndirectIndexedY,
        _ => AddrMode::Other,
    }
}

/// The addressing mode at position `index` of the crate's enum.
pub fn addr_mode(index: u8) -> (m: AddrMode)
    ensures
        m == mode_at(index),
{
    match index {
        0 => AddrMode::Accumulator,
        1 => AddrMode::Implied,
        2 => AddrMode::Immediate,
        3 => AddrMode::ZeroPage,
        4 => AddrMode::ZeroPageX,
        5 => AddrMode::ZeroPageY,
        6 => AddrMode::Relative,
        7 => AddrMode::Absolute,
        8 => AddrMode::AbsoluteX,
        9 => AddrMode::AbsoluteY,
        10 => AddrMode::BuggyIndirect,
        11 => AddrMode::Indirect,
        12 => AddrMode::IndexedIndirectX,
        13 => AddrMode::IndirectIndexedY,
        _ => AddrMode::Other,
    }
}

/// The number of operand bytes of an addressing mode.
pub open spec fn operand_bytes(mode: AddrMode) -> nat {
    match mode {
        AddrMode::Immediate | AddrMode::ZeroPage | AddrMode::ZeroPageX | AddrMode::ZeroPageY
        | AddrMode::Relative | AddrMode::IndexedIndirectX | AddrMode::IndirectIndexedY => 1,
        AddrMode::Absolute | AddrMode::AbsoluteX | AddrMode::AbsoluteY | AddrMode::Indirect
        | AddrMode::BuggyIndirect => 2,
        _ => 0,
    }
}

/// Return the number of operand bytes for a given addressing mode.
pub fn extra_bytes(mode: AddrMode) -> (n: usize)
    ensures
        n == operand_bytes(mode),
{
    match mode {
        AddrMode::Immediate | AddrMode::ZeroPage | AddrMode::ZeroPageX | AddrMode::ZeroPageY
        | AddrMode::Relative | AddrMode::IndexedIndirectX | AddrMode::IndirectIndexedY => 1,
        AddrMode::Absolute | AddrMode::AbsoluteX | AddrMode::AbsoluteY | AddrMode::Indirect
        | AddrMode::BuggyIndirect => 2,
        _ => 0,
    }
}

/// A one-byte operand in standard 6502 notation.
pub open spec fn operand_byte_text(mode: Option<AddrMode>, val: u8) -> Seq<char> {
    let v = hex(val as nat, 2);
    match mode {
        Some(AddrMode::Immediate) => " #$"@ + v,
        Some(AddrMode::ZeroPageX) => " $"@ + v + ",X"@,
        Some(AddrMode::ZeroPageY) => " $"@ + v + ",Y"@,
        Some(AddrMode::IndexedIndirectX) => " ($"@ + v + ",X)"@,
        Some(AddrMode::IndirectIndexedY) => " ($"@ + v + "),Y"@,
        _ => " $"@ + v,
    }
}

/// A two-byte operand in standard 6502 notation.
pub open spec fn operand_word_text(mode: Option<AddrMode>, word: u16) -> Seq<char> {
    let v = hex(word as nat, 4);
    match mode {
        Some(AddrMode::AbsoluteX) => " $"@ + v + ",X"@,
        Some(AddrMode::AbsoluteY) => " $"@ + v + ",Y"@,
        Some(AddrMode::Indirect) | Some(AddrMode::BuggyIndirect) => " ($"@ + v + ")"@,
        _ => " $"@ + v,
    }
}

/// Format a single-byte operand in standard 6502 notation.
pub fn format_operand_byte(mode: Option<AddrMode>, val: u8) -> (s: String)
    ensures
        s@ == operand_byte_text(mode, val),
{
    let mut s = String::new();
    match mode {
        Some(AddrMode::Immediate) => {
            s.append(" #$");
            push_hex(&mut s, val as usize, 2);
        },
        Some(AddrMode::ZeroPageX) => {
            s.append(" $");
            push_hex(&mut s, val as usize, 2);
            s.append(",X");
        },
        Some(AddrMode::ZeroPageY) => {
            s.append(" $");
            push_hex(&mut s, val as usize, 2);
            s.append(",Y");
        },
        Some(AddrMode::IndexedIndirectX) => {
            s.append(" ($");
            push_hex(&mut s, val as usize, 2);
            s.append(",X)");
        },
        Some(AddrMode::IndirectIndexedY) => {
            s.append(" ($");
            push_hex(&mut s, val as usize, 2);
            s.append("),Y");
        },
        _ => {
            s.append(" $");
            push_hex(&mut s, val as usize, 2);
        },
    }
    assert(s@ =~= operand_byte_text(mode, val));
    s
}

/// Format a two-byte operand in standard 6502 notation.
pub fn format_operand_word(mode: Option<AddrMode>, word: u16) -> (s: String)
    ensures
        s@ == operand_word_text(mode, word),
{
    let mut s = String::new();
    match mode {
        Some(AddrMode::AbsoluteX) => {
            s.append(" $");
            push_hex(&mut s, word as usize, 4);
            s.append(",X");
        },
        Some(AddrMode::AbsoluteY) => {
            s.append(" $");
            push_hex(&mut s, word as usize, 4);
            s.append(",Y");
        },
        Some(AddrMode::Indirect) | Some(AddrMode::BuggyIndirect) => {
            s.append(" ($");
            push_hex(&mut s, word as usize, 4);
            s.append(")");
        },
        _ => {
            s.append(" $");
            push_hex(&mut s, word as usize, 4);
        },
    }
    assert(s@ =~= operand_word_text(mode, word));
    s
}

/// The byte at offset `i` from `pc`, the tape wrapping around.
pub open spec fn at(t: Seq<u8>, pc: nat, i: nat) -> u8 {
    t[((pc + i) % t.len()) as int]
}

/// The hex dump of the first `n` bytes from `pc`, separated by spaces.
pub open spec fn dump(t: Seq<u8>, pc: nat, n: nat) -> Seq<char>
    decreases n,
{
    if n <= 1 {
        hex(at(t, pc, 0) as nat, 2)
    } else {
        dump(t, pc, (n - 1) as nat) + " "@ + hex(at(t, pc, (n - 1) as nat) as nat, 2)
    }
}

/// The line for the instruction at `pc`, given what the decoder made of its
/// opcode, and the instruction's size.
pub open spec fn line_text(t: Seq<u8>, pc: nat, decoded: Option<(Seq<char>, u8)>) -> (
    Seq<char>,
    nat,
) {
    let (name, mode) = match decoded {
        Some((n, m)) => (n, Some(mode_at(m))),
        None => ("???"@, None),
    };
    let size = match mode {
        Some(m) => 1 + operand_bytes(m),
        None => 1,
    };
    let operand = if size == 2 {
        operand_byte_text(mode, at(t, pc, 1))
    } else if size == 3 {
        operand_word_text(mode, (at(t, pc, 1) + 256 * at(t, pc, 2)) as u16)
    } else {
        ""@
    };
    (hex(pc, 4) + ": "@ + pad_right(dump(t, pc, size), 12) + " "@ + name + operand + "\n"@, size)
}

/// The line for the instruction at `pc`, given what the decoder made of its
/// opcode, and the instruction's size.
pub fn format_line(t: &[u8], pc: usize, decoded: Option<(String, u8)>) -> (r: (String, usize))
    requires
        pc < t@.len() <= isize::MAX,
    ensures
        (r.0@, r.1 as nat) == line_text(
            t@,
            pc as nat,
            match decoded {
                Some((n, m)) => Some((n@, m)),
                None => None,
            },
        ),
{
    let ghost d = match &decoded {
        Some((n, m)) => Some((n@, *m)),
        None => None::<(Seq<char>, u8)>,
    };
    let len = t.len();
    let mut s = String::new();
    let (name, mode, size) = match decoded {
        Some((n, m)) => {
            let am = addr_mode(m);
            (n, Some(am), 1 + extra_bytes(am))
        },
        None => (String::new(), None, 1),
    };
    let mut bytes = String::new();
    push_hex(&mut bytes, t[pc] as usize, 2);
    proof {
        vstd::arithmetic::div_mod::lemma_small_mod(pc as nat, len as nat);
        assert(at(t@, pc as nat, 0) == t@[pc as int]);
    }
    let mut i: usize = 1;
    while i < size
        invariant
            1 <= i <= size <= 3,
            pc < len == t@.len() <= isize::MAX,
            bytes@ == dump(t@, pc as nat, i as nat),
        decreases size - i,
    {
        bytes.append(" ");
        push_hex(&mut bytes, t[(pc + i) % len] as usize, 2);
        i = i + 1;
    }
    push_hex(&mut s, pc, 4);
    s.append(": ");
    push_padded(&mut s, bytes.as_str(), 12);
    s.append(" ");
    if mode.is_some() {
        s.append(name.as_str());
    } else {
        s.append("???");
    }
    if size == 2 {
        let operand = format_operand_byte(mode, t[(pc + 1) % len]);
        s.append(operand.as_str());
    } else if size == 3 {
        let lo = t[(pc + 1) % len];
        let hi = t[(pc + 2) % len];
        let word = (lo as u16) | ((hi as u16) << 8);
        assert(word == (lo + 256 * hi) as u16) by (bit_vector)
            requires
                word == (lo as u16) | ((hi as u16) << 8),
        ;
        let operand = format_operand_word(mode, word);
        s.append(operand.as_str());
    }
    s.append("\n");
    proof {
        reveal_strlit("");
    }
    assert(s@ =~= line_text(t@, pc as nat, d).0);
    (s, size)
}

/// The MOS 6502 machine code (NMOS variant including illegal opcodes), as
/// the disassembler reads it.
pub struct NmosCode;

impl Lister for NmosCode {
    open spec fn spec_line(t: Seq<u8>, pc: nat) -> (Seq<char>, nat) {
        line_text(t, pc, nmos_decode(t[pc as int]))
    }

    fn line(t: &[u8], pc: usize) -> (r: (String, usize)) {
        let decoded = decode_nmos(t[pc]);
        format_line(t, pc, decoded)
    }
}

/// Pretty-print a disassembly of a 6502 tape: one line per instruction, with
/// its address, its bytes, its mnemonic and its operand in standard 6502
/// notation; operands wrap around the end of the tape.
pub fn disassemble(tape: &[u8]) -> (out: String)
    requires
        tape@.len() <= isize::MAX,
    ensures
        out@ == listing::<NmosCode>(tape@, 0),
{
    list::<NmosCode>(tape)
}

} // verus!

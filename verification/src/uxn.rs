use vstd::prelude::*;

use crate::listing::{list, listing, Lister};
use crate::text::{hex, pad_right, push_hex, push_padded};

verus! {

/// The Uxn stack machine's byte code, as the disassembler reads it.
///
/// All 256 byte values decode to operations. 0x00 is BRK; 0x20, 0x40 and
/// 0x60 are JCI, JMI and JSI, and 0x80, 0xa0, 0xc0 and 0xe0 are LIT, LIT2,
/// LITr and LIT2r, which take immediate bytes. Every other byte has its base
/// operation in bits 0-4 and its modes in bits 5 (short, `2`), 6 (return,
/// `r`) and 7 (keep, `k`).
pub struct UxnCode;

/// The name of base operation `base` (1 to 31).
pub open spec fn base_name(base: u8) -> Seq<char> {
    match base {
        1 => "INC"@,
        2 => "POP"@,
        3 => "NIP"@,
        4 => "SWP"@,
        5 => "ROT"@,
        6 => "DUP"@,
        7 => "OVR"@,
        8 => "EQU"@,
        9 => "NEQ"@,
        10 => "GTH"@,
        11 => "LTH"@,
        12 => "JMP"@,
        13 => "JCN"@,
        14 => "JSR"@,
        15 => "STH"@,
        16 => "LDZ"@,
        17 => "STZ"@,
        18 => "LDR"@,
        19 => "STR"@,
        20 => "LDA"@,
        21 => "STA"@,
        22 => "DEI"@,
        23 => "DEO"@,
        24 => "ADD"@,
        25 => "SUB"@,
        26 => "MUL"@,
        27 => "DIV"@,
        28 => "AND"@,
        29 => "ORA"@,
        30 => "EOR"@,
        31 => "SFT"@,
        _ => "???"@,
    }
}

fn base_name_str(base: u8) -> (s: &'static str)
    ensures
        s@ == base_name(base),
{
    match base {
        1 => "INC",
        2 => "POP",
        3 => "NIP",
        4 => "SWP",
        5 => "ROT",
        6 => "DUP",
        7 => "OVR",
        8 => "EQU",
        9 => "NEQ",
        10 => "GTH",
        11 => "LTH",
        12 => "JMP",
        13 => "JCN",
        14 => "JSR",
        15 => "STH",
        16 => "LDZ",
        17 => "STZ",
        18 => "LDR",
        19 => "STR",
        20 => "LDA",
        21 => "STA",
        22 => "DEI",
        23 => "DEO",
        24 => "ADD",
        25 => "SUB",
        26 => "MUL",
        27 => "DIV",
        28 => "AND",
        29 => "ORA",
        30 => "EOR",
        31 => "SFT",
        _ => "???",
    }
}

/// The mnemonic of an opcode without its mode suffix, and how many
/// immediate bytes follow it.
pub open spec fn op_name(opcode: u8) -> (Seq<char>, nat) {
    if opcode == 0x00 {
        ("BRK"@, 0)
    } else if opcode == 0x20 {
        ("JCI"@, 2)
    } else if opcode == 0x40 {
        ("JMI"@, 2)
    } else if opcode == 0x60 {
        ("JSI"@, 2)
    } else if opcode == 0x80 {
        ("LIT"@, 1)
    } else if opcode == 0xa0 {
        ("LIT2"@, 2)
    } else if opcode == 0xc0 {
        ("LITr"@, 1)
    } else if opcode == 0xe0 {
        ("LIT2r"@, 2)
    } else {
        (base_name(opcode & 0x1f), 0)
    }
}

/// Decode a Uxn opcode into its mnemonic and the number of immediate
/// operand bytes.
pub fn disasm_opcode(opcode: u8) -> (r: (&'static str, usize))
    ensures
        (r.0@, r.1 as nat) == op_name(opcode),
{
    if opcode == 0x00 {
        ("BRK", 0)
    } else if opcode == 0x20 {
        ("JCI", 2)
    } else if opcode == 0x40 {
        ("JMI", 2)
    } else if opcode == 0x60 {
        ("JSI", 2)
    } else if opcode == 0x80 {
        ("LIT", 1)
    } else if opcode == 0xa0 {
        ("LIT2", 2)
    } else if opcode == 0xc0 {
        ("LITr", 1)
    } else if opcode == 0xe0 {
        ("LIT2r", 2)
    } else {
        (base_name_str(opcode & 0x1f), 0)
    }
}

/// The mode suffix of an opcode: `2` for short, `k` for keep, `r` for
/// return, in that order; nothing for the special opcodes (base 0).
pub open spec fn suffix(opcode: u8) -> Seq<char> {
    if opcode & 0x1f == 0 {
        ""@
    } else {
        let short = opcode & 0x20 != 0;
        let keep = opcode & 0x80 != 0;
        let ret = opcode & 0x40 != 0;
        (if short {
            "2"@
        } else {
            ""@
        }) + (if keep {
            "k"@
        } else {
            ""@
        }) + (if ret {
            "r"@
        } else {
            ""@
        })
    }
}

/// Format the mode suffix of an opcode.
pub fn mode_suffix(opcode: u8) -> (s: &'static str)
    ensures
        s@ == suffix(opcode),
{
    proof {
        reveal_strlit("");
        reveal_strlit("2");
        reveal_strlit("k");
        reveal_strlit("r");
        reveal_strlit("2k");
        reveal_strlit("2r");
        reveal_strlit("kr");
        reveal_strlit("2kr");
    }
    if opcode & 0x1f == 0 {
        return "";
    }
    let short = opcode & 0x20 != 0;
    let keep = opcode & 0x80 != 0;
    let ret = opcode & 0x40 != 0;
    let s = if !short && !keep && !ret {
        ""
    } else if short && !keep && !ret {
        "2"
    } else if !short && keep && !ret {
        "k"
    } else if !short && !keep && ret {
        "r"
    } else if short && keep && !ret {
        "2k"
    } else if short && !keep && ret {
        "2r"
    } else if !short && keep && ret {
        "kr"
    } else {
        "2kr"
    };
    assert(s@ =~= suffix(opcode));
    s
}

/// The byte at offset `i` from `pc`, the tape wrapping around.
pub open spec fn at(t: Seq<u8>, pc: nat, i: nat) -> nat {
    t[((pc + i) % t.len()) as int] as nat
}

/// The hex dump of the opcode at `pc` and its `n` immediate bytes.
pub open spec fn dump(t: Seq<u8>, pc: nat, n: nat) -> Seq<char>
    decreases n,
{
    if n == 0 {
        hex(t[pc as int] as nat, 2)
    } else {
        dump(t, pc, (n - 1) as nat) + " "@ + hex(at(t, pc, n), 2)
    }
}

/// The operand shown after the mnemonic for `n` immediate bytes.
pub open spec fn operand(t: Seq<u8>, pc: nat, n: nat) -> Seq<char> {
    if n == 1 {
        " $"@ + hex(at(t, pc, 1), 2)
    } else if n == 2 {
        " $"@ + hex(at(t, pc, 1), 2) + hex(at(t, pc, 2), 2)
    } else {
        ""@
    }
}

impl Lister for UxnCode {
    open spec fn spec_line(t: Seq<u8>, pc: nat) -> (Seq<char>, nat) {
        let opcode = t[pc as int];
        let (name, n) = op_name(opcode);
        (
            hex(pc, 4) + ": "@ + pad_right(dump(t, pc, n), 12) + " "@ + name + suffix(opcode)
                + operand(t, pc, n) + "\n"@,
            1 + n,
        )
    }

    fn line(t: &[u8], pc: usize) -> (r: (String, usize)) {
        let len = t.len();
        let opcode = t[pc];
        let (name, n) = disasm_opcode(opcode);
        let mut bytes = String::new();
        push_hex(&mut bytes, opcode as usize, 2);
        let mut i: usize = 1;
        while i <= n
            invariant
                1 <= i <= n + 1,
                n <= 2,
                pc < len == t@.len() <= isize::MAX,
                bytes@ == dump(t@, pc as nat, (i - 1) as nat),
            decreases n + 1 - i,
        {
            bytes.append(" ");
            push_hex(&mut bytes, t[(pc + i) % len] as usize, 2);
            i = i + 1;
        }
        let mut s = String::new();
        push_hex(&mut s, pc, 4);
        s.append(": ");
        push_padded(&mut s, bytes.as_str(), 12);
        s.append(" ");
        s.append(name);
        s.append(mode_suffix(opcode));
        if n == 1 {
            s.append(" $");
            push_hex(&mut s, t[(pc + 1) % len] as usize, 2);
        } else if n == 2 {
            s.append(" $");
            push_hex(&mut s, t[(pc + 1) % len] as usize, 2);
            push_hex(&mut s, t[(pc + 2) % len] as usize, 2);
        }
        s.append("\n");
        proof {
            reveal_strlit("");
        }
        assert(s@ =~= Self::spec_line(t@, pc as nat).0);
        (s, 1 + n)
    }
}

/// Pretty-print a disassembly of a Uxn tape: one line per operation, with
/// its address, its bytes, its mnemonic and mode suffix, and its immediate
/// operand.
pub fn disassemble(tape: &[u8]) -> (out: String)
    requires
        tape@.len() <= isize::MAX,
    ensures
        out@ == listing::<UxnCode>(tape@, 0),
{
    list::<UxnCode>(tape)
}

} // verus!

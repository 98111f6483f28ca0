use vstd::prelude::*;

use crate::listing::{list, listing, Lister};
use crate::stepper::{run, run_solo, Stepper};
use crate::substrate::Substrate;
use crate::text::{dec, hex, push_dec, push_hex};
use crate::word::{doubled8, halved, lemma_byte_arith, lemma_shifts8};

verus! {

/// The EDVAC (Electronic Discrete Variable Automatic Computer, 1951) substrate.
///
/// EDVAC's theoretical design, described in von Neumann's "First Draft of a
/// Report on the EDVAC" (1945), defined the stored-program / von Neumann
/// architecture. The original machine used 44-bit words and mercury delay-line
/// memory.
///
/// The defining feature is the **four-address instruction format**: every
/// instruction specifies two operand addresses (A, B), a result destination
/// (C), and the address of the next instruction (D). There is no implicit
/// program counter increment: the flow of control is always explicit.
///
/// Adaptation for byte tape:
/// - 5-byte instructions: 1 byte opcode + 4 single-byte addresses
/// - Data values are `u8` with wrapping arithmetic
/// - All addresses are taken modulo `tape.len()`
///
/// State:
/// - `pc`: program counter (byte offset), starts at 0
pub struct Edvac;

/// The register of a running EDVAC program.
#[derive(Clone, Copy)]
pub struct EdvacState {
    pub pc: usize,
}

/// The meaning of one EDVAC instruction: with A, B, C the operand bytes
/// taken modulo the tape length, C receives the result and D is the next
/// instruction.
pub open spec fn edvac_next(s: EdvacState, t: Seq<u8>) -> (bool, EdvacState, Seq<u8>) {
    let len = t.len();
    if s.pc + 4 >= len {
        (false, s, t)
    } else {
        let pc = s.pc as int;
        let opcode = t[pc] & 0x0F;
        let a = (t[pc + 1] as nat % len) as int;
        let b = (t[pc + 2] as nat % len) as int;
        let c = (t[pc + 3] as nat % len) as int;
        let d = EdvacState { pc: (t[pc + 4] as nat % len) as usize };
        if opcode == 0x0 {
            (false, s, t)
        } else if opcode == 0x1 {
            (true, d, t.update(c, t[a].wrapping_add(t[b])))
        } else if opcode == 0x2 {
            (true, d, t.update(c, t[a].wrapping_sub(t[b])))
        } else if opcode == 0x3 {
            (true, d, t.update(c, t[a].wrapping_mul(t[b])))
        } else if opcode == 0x4 {
            if t[b] == 0 {
                (false, s, t)
            } else {
                (true, d, t.update(c, t[a] / t[b]))
            }
        } else if opcode == 0x5 {
            (true, d, t.update(c, t[a] & t[b]))
        } else if opcode == 0x6 {
            (true, d, t.update(c, t[a] | t[b]))
        } else if opcode == 0x7 {
            (true, d, t.update(c, t[a] ^ t[b]))
        } else if opcode == 0x8 {
            (true, d, t.update(c, t[a]))
        } else if opcode == 0x9 {
            if t[a] <= t[b] {
                (true, EdvacState { pc: c as usize }, t)
            } else {
                (true, d, t)
            }
        } else if opcode == 0xA {
            (true, d, t.update(c, t[pc + 1]))
        } else if opcode == 0xB {
            (true, d, t.update(c, t[a] << (t[b] & 0x07)))
        } else if opcode == 0xC {
            (true, d, t.update(c, t[a] >> (t[b] & 0x07)))
        } else if opcode == 0xD {
            (true, d, t.update(c, !t[a]))
        } else if opcode == 0xE {
            if t[b] == 0 {
                (false, s, t)
            } else {
                (true, d, t.update(c, t[a] % t[b]))
            }
        } else {
            (true, d, t)
        }
    }
}

/// Execute one EDVAC instruction. Returns true if still running.
pub fn edvac_step(s: &mut EdvacState, tape: &mut [u8]) -> (go: bool)
    requires
        old(tape)@.len() <= isize::MAX,
    ensures
        (go, *final(s), final(tape)@) == edvac_next(*old(s), old(tape)@),
{
    let len = tape.len();
    if s.pc >= len || len - s.pc <= 4 {
        // Need 5 bytes for a full instruction.
        return false;
    }
    let pc = s.pc;
    let opcode = tape[pc] & 0x0F;
    let a = tape[pc + 1] as usize % len;
    let b = tape[pc + 2] as usize % len;
    let c = tape[pc + 3] as usize % len;
    let d = tape[pc + 4] as usize % len;
    if opcode == 0x0 {
        // HALT
        return false;
    } else if opcode == 0x1 {
        tape[c] = tape[a].wrapping_add(tape[b]);
    } else if opcode == 0x2 {
        tape[c] = tape[a].wrapping_sub(tape[b]);
    } else if opcode == 0x3 {
        tape[c] = tape[a].wrapping_mul(tape[b]);
    } else if opcode == 0x4 {
        // DIV halts on a zero divisor.
        if tape[b] == 0 {
            return false;
        }
        tape[c] = tape[a] / tape[b];
    } else if opcode == 0x5 {
        tape[c] = tape[a] & tape[b];
    } else if opcode == 0x6 {
        tape[c] = tape[a] | tape[b];
    } else if opcode == 0x7 {
        tape[c] = tape[a] ^ tape[b];
    } else if opcode == 0x8 {
        tape[c] = tape[a];
    } else if opcode == 0x9 {
        // CMP_BR: if tape[A] <= tape[B]: pc = C; else pc = D
        if tape[a] <= tape[b] {
            s.pc = c;
            return true;
        }
    } else if opcode == 0xA {
        // LOAD_IMM: tape[C] = A (the raw address byte as value)
        tape[c] = tape[pc + 1];
    } else if opcode == 0xB {
        let x = tape[a];
        let y = tape[b];
        let sh = y & 0x07;
        assert(sh < 8) by (bit_vector)
            requires
                sh == y & 0x07,
        ;
        tape[c] = x << sh;
    } else if opcode == 0xC {
        let x = tape[a];
        let y = tape[b];
        let sh = y & 0x07;
        assert(sh < 8) by (bit_vector)
            requires
                sh == y & 0x07,
        ;
        tape[c] = x >> sh;
    } else if opcode == 0xD {
        tape[c] = !tape[a];
    } else if opcode == 0xE {
        // MOD halts on a zero divisor.
        if tape[b] == 0 {
            return false;
        }
        tape[c] = tape[a] % tape[b];
    }
    s.pc = d;
    true
}

impl Stepper for Edvac {
    type State = EdvacState;

    open spec fn spec_live(s: EdvacState, tape: Seq<u8>) -> bool {
        s.pc + 4 < tape.len()
    }

    open spec fn spec_step(s: EdvacState, tape: Seq<u8>) -> (bool, EdvacState, Seq<u8>) {
        edvac_next(s, tape)
    }

    fn live(s: &EdvacState, tape: &[u8]) -> (b: bool) {
        s.pc < tape.len() && tape.len() - s.pc > 4
    }

    fn step(s: &mut EdvacState, tape: &mut [u8]) -> (go: bool) {
        edvac_step(s, tape)
    }

    proof fn lemma_step_len(s: EdvacState, tape: Seq<u8>) {
    }
}

/// What `Edvac::execute` computes: the final tape and the step count.
pub open spec fn edvac_execute(t: Seq<u8>, step_limit: nat) -> (Seq<u8>, nat) {
    if t.len() == 0 {
        (t, 0)
    } else {
        run::<Edvac>(EdvacState { pc: 0 }, t, step_limit)
    }
}

/// The description of an EDVAC instruction with opcode byte `op_byte` and
/// address bytes `a`, `b`, `c`, `d`.
pub open spec fn edvac_desc(op_byte: u8, a: nat, b: nat, c: nat, d: nat) -> Seq<char> {
    let op = op_byte & 0x0F;
    if op == 0x0 {
        "HALT  A="@ + dec(a) + " B="@ + dec(b) + " C="@ + dec(c) + " D="@ + dec(d)
    } else if op == 0x1 {
        "ADD   ["@ + dec(c) + "] = ["@ + dec(a) + "] + ["@ + dec(b) + "]; -> "@ + dec(d)
    } else if op == 0x2 {
        "SUB   ["@ + dec(c) + "] = ["@ + dec(a) + "] - ["@ + dec(b) + "]; -> "@ + dec(d)
    } else if op == 0x3 {
        "MUL   ["@ + dec(c) + "] = ["@ + dec(a) + "] * ["@ + dec(b) + "]; -> "@ + dec(d)
    } else if op == 0x4 {
        "DIV   ["@ + dec(c) + "] = ["@ + dec(a) + "] / ["@ + dec(b) + "]; -> "@ + dec(d)
    } else if op == 0x5 {
        "AND   ["@ + dec(c) + "] = ["@ + dec(a) + "] & ["@ + dec(b) + "]; -> "@ + dec(d)
    } else if op == 0x6 {
        "OR    ["@ + dec(c) + "] = ["@ + dec(a) + "] | ["@ + dec(b) + "]; -> "@ + dec(d)
    } else if op == 0x7 {
        "XOR   ["@ + dec(c) + "] = ["@ + dec(a) + "] ^ ["@ + dec(b) + "]; -> "@ + dec(d)
    } else if op == 0x8 {
        "COPY  ["@ + dec(c) + "] = ["@ + dec(a) + "]; -> "@ + dec(d)
    } else if op == 0x9 {
        "CMP   if ["@ + dec(a) + "] <= ["@ + dec(b) + "]: -> "@ + dec(c) + "; else -> "@ + dec(d)
    } else if op == 0xA {
        "LIMM  ["@ + dec(c) + "] = #"@ + dec(a) + "; -> "@ + dec(d)
    } else if op == 0xB {
        "SHL   ["@ + dec(c) + "] = ["@ + dec(a) + "] << ["@ + dec(b) + "]; -> "@ + dec(d)
    } else if op == 0xC {
        "SHR   ["@ + dec(c) + "] = ["@ + dec(a) + "] >> ["@ + dec(b) + "]; -> "@ + dec(d)
    } else if op == 0xD {
        "NOT   ["@ + dec(c) + "] = ~["@ + dec(a) + "]; -> "@ + dec(d)
    } else if op == 0xE {
        "MOD   ["@ + dec(c) + "] = ["@ + dec(a) + "] % ["@ + dec(b) + "]; -> "@ + dec(d)
    } else {
        "NOP   -> "@ + dec(d)
    }
}

fn edvac_desc_exec(op_byte: u8, a: u8, b: u8, c: u8, d: u8) -> (out: String)
    ensures
        out@ == edvac_desc(op_byte, a as nat, b as nat, c as nat, d as nat),
{
    let op = op_byte & 0x0F;
    let mut out = String::new();
    if op == 0x0 {
        out.append("HALT  A=");
        push_dec(&mut out, a as usize);
        out.append(" B=");
        push_dec(&mut out, b as usize);
        out.append(" C=");
        push_dec(&mut out, c as usize);
        out.append(" D=");
        push_dec(&mut out, d as usize);
    } else if op == 0x1 {
        out.append("ADD   [");
        push_dec(&mut out, c as usize);
        out.append("] = [");
        push_dec(&mut out, a as usize);
        out.append("] + [");
        push_dec(&mut out, b as usize);
        out.append("]; -> ");
        push_dec(&mut out, d as usize);
    } else if op == 0x2 {
        out.append("SUB   [");
        push_dec(&mut out, c as usize);
        out.append("] = [");
        push_dec(&mut out, a as usize);
        out.append("] - [");
        push_dec(&mut out, b as usize);
        out.append("]; -> ");
        push_dec(&mut out, d as usize);
    } else if op == 0x3 {
        out.append("MUL   [");
        push_dec(&mut out, c as usize);
        out.append("] = [");
        push_dec(&mut out, a as usize);
        out.append("] * [");
        push_dec(&mut out, b as usize);
        out.append("]; -> ");
        push_dec(&mut out, d as usize);
    } else if op == 0x4 {
        out.append("DIV   [");
        push_dec(&mut out, c as usize);
        out.append("] = [");
        push_dec(&mut out, a as usize);
        out.append("] / [");
        push_dec(&mut out, b as usize);
        out.append("]; -> ");
        push_dec(&mut out, d as usize);
    } else if op == 0x5 {
        out.append("AND   [");
        push_dec(&mut out, c as usize);
        out.append("] = [");
        push_dec(&mut out, a as usize);
        out.append("] & [");
        push_dec(&mut out, b as usize);
        out.append("]; -> ");
        push_dec(&mut out, d as usize);
    } else if op == 0x6 {
        out.append("OR    [");
        push_dec(&mut out, c as usize);
        out.append("] = [");
        push_dec(&mut out, a as usize);
        out.append("] | [");
        push_dec(&mut out, b as usize);
        out.append("]; -> ");
        push_dec(&mut out, d as usize);
    } else if op == 0x7 {
        out.append("XOR   [");
        push_dec(&mut out, c as usize);
        out.append("] = [");
        push_dec(&mut out, a as usize);
        out.append("] ^ [");
        push_dec(&mut out, b as usize);
        out.append("]; -> ");
        push_dec(&mut out, d as usize);
    } else if op == 0x8 {
        out.append("COPY  [");
        push_dec(&mut out, c as usize);
        out.append("] = [");
        push_dec(&mut out, a as usize);
        out.append("]; -> ");
        push_dec(&mut out, d as usize);
    } else if op == 0x9 {
        out.append("CMP   if [");
        push_dec(&mut out, a as usize);
        out.append("] <= [");
        push_dec(&mut out, b as usize);
        out.append("]: -> ");
        push_dec(&mut out, c as usize);
        out.append("; else -> ");
        push_dec(&mut out, d as usize);
    } else if op == 0xA {
        out.append("LIMM  [");
        push_dec(&mut out, c as usize);
        out.append("] = #");
        push_dec(&mut out, a as usize);
        out.append("; -> ");
        push_dec(&mut out, d as usize);
    } else if op == 0xB {
        out.append("SHL   [");
        push_dec(&mut out, c as usize);
        out.append("] = [");
        push_dec(&mut out, a as usize);
        out.append("] << [");
        push_dec(&mut out, b as usize);
        out.append("]; -> ");
        push_dec(&mut out, d as usize);
    } else if op == 0xC {
        out.append("SHR   [");
        push_dec(&mut out, c as usize);
        out.append("] = [");
        push_dec(&mut out, a as usize);
        out.append("] >> [");
        push_dec(&mut out, b as usize);
        out.append("]; -> ");
        push_dec(&mut out, d as usize);
    } else if op == 0xD {
        out.append("NOT   [");
        push_dec(&mut out, c as usize);
        out.append("] = ~[");
        push_dec(&mut out, a as usize);
        out.append("]; -> ");
        push_dec(&mut out, d as usize);
    } else if op == 0xE {
        out.append("MOD   [");
        push_dec(&mut out, c as usize);
        out.append("] = [");
        push_dec(&mut out, a as usize);
        out.append("] % [");
        push_dec(&mut out, b as usize);
        out.append("]; -> ");
        push_dec(&mut out, d as usize);
    } else {
        out.append("NOP   -> ");
        push_dec(&mut out, d as usize);
    }
    assert(out@ =~= edvac_desc(op_byte, a as nat, b as nat, c as nat, d as nat));
    out
}

impl Lister for Edvac {
    open spec fn spec_line(t: Seq<u8>, pc: nat) -> (Seq<char>, nat) {
        if pc + 4 >= t.len() {
            (hex(pc, 4) + ": "@ + hex(t[pc as int] as nat, 2) + "  <incomplete>\n"@, 1)
        } else {
            let p = pc as int;
            (
                hex(pc, 4) + ": "@ + hex(t[p] as nat, 2) + " "@ + hex(t[p + 1] as nat, 2) + " "@
                    + hex(t[p + 2] as nat, 2) + " "@ + hex(t[p + 3] as nat, 2) + " "@ + hex(
                    t[p + 4] as nat,
                    2,
                ) + "  "@ + edvac_desc(
                    t[p],
                    t[p + 1] as nat,
                    t[p + 2] as nat,
                    t[p + 3] as nat,
                    t[p + 4] as nat,
                ) + "\n"@,
                5,
            )
        }
    }

    fn line(t: &[u8], pc: usize) -> (r: (String, usize)) {
        let mut out = String::new();
        push_hex(&mut out, pc, 4);
        out.append(": ");
        if pc + 4 >= t.len() {
            // Not enough bytes for a full instruction.
            push_hex(&mut out, t[pc] as usize, 2);
            out.append("  <incomplete>\n");
            assert(out@ =~= Self::spec_line(t@, pc as nat).0);
            (out, 1)
        } else {
            push_hex(&mut out, t[pc] as usize, 2);
            out.append(" ");
            push_hex(&mut out, t[pc + 1] as usize, 2);
            out.append(" ");
            push_hex(&mut out, t[pc + 2] as usize, 2);
            out.append(" ");
            push_hex(&mut out, t[pc + 3] as usize, 2);
            out.append(" ");
            push_hex(&mut out, t[pc + 4] as usize, 2);
            out.append("  ");
            let desc = edvac_desc_exec(t[pc], t[pc + 1], t[pc + 2], t[pc + 3], t[pc + 4]);
            out.append(desc.as_str());
            out.append("\n");
            assert(out@ =~= Self::spec_line(t@, pc as nat).0);
            (out, 5)
        }
    }
}

impl Substrate for Edvac {
    open spec fn spec_execute(tape: Seq<u8>, step_limit: nat) -> (Seq<u8>, nat) {
        edvac_execute(tape, step_limit)
    }

    /// Without a battle mode of its own, a battle runs the plain execution.
    open spec fn spec_execute_battle(tape: Seq<u8>, ps: nat, step_limit: nat) -> (Seq<u8>, nat) {
        Self::spec_execute(tape, step_limit)
    }

    fn execute_battle(tape: &mut [u8], ps: usize, step_limit: usize) -> (steps: usize) {
        Self::execute(tape, step_limit)
    }

    fn execute(tape: &mut [u8], step_limit: usize) -> (steps: usize)
    {
        let len = tape.len();
        if len == 0 {
            return 0;
        }
        let mut state = EdvacState { pc: 0 };
        run_solo::<Edvac>(&mut state, tape, step_limit)
    }

    open spec fn spec_is_instruction(byte: u8) -> bool {
        (byte & 0x0F) <= 0x0E
    }

    fn is_instruction(byte: u8) -> (r: bool) {
        // All opcodes 0x0-0xE are meaningful; 0xF (NOP) is not.
        (byte & 0x0F) <= 0x0E
    }

    fn disassemble(tape: &[u8]) -> (out: String)
        ensures
            out@ == listing::<Edvac>(tape@, 0),
    {
        list::<Edvac>(tape)
    }
}

/// A word whose opcode is no instruction changes nothing but the program
/// counter, which goes to the word's D operand (the next instruction, as
/// every EDVAC word names it).
pub proof fn law_non_instruction_only_moves_on(s: EdvacState, t: Seq<u8>)
    requires
        s.pc + 4 < t.len(),
        !Edvac::spec_is_instruction(t[s.pc as int]),
    ensures
        edvac_next(s, t) == (
            true,
            EdvacState { pc: (t[s.pc + 4] as nat % t.len()) as usize },
            t,
        ),
{
    let b = t[s.pc as int];
    assert(b & 0x0F == 0x0F) by (bit_vector)
        requires
            !((b & 0x0F) <= 0x0E),
    ;
}

/// The three-address ops: with `x` the byte at A and `y` the byte at B,
/// the byte at C becomes x + y, x - y, x * y (all mod 256), x / y, x & y,
/// x | y, x ^ y, x, the raw A byte itself, 255 - x (the complement) or
/// x mod y; division and remainder by zero stop the machine with the tape
/// untouched. Only that one byte changes, and the run goes on at D.
pub proof fn law_three_address_ops(s: EdvacState, t: Seq<u8>)
    requires
        s.pc + 4 < t.len() <= usize::MAX,
        ({
            let op = t[s.pc as int] & 0x0F;
            op != 0x0 && op != 0x9 && op != 0xB && op != 0xC && op != 0xF
        }),
    ensures
        ({
            let (go, s2, t2) = edvac_next(s, t);
            let pc = s.pc as int;
            let len = t.len();
            let op = t[pc] & 0x0F;
            let a = (t[pc + 1] as nat % len) as int;
            let b = (t[pc + 2] as nat % len) as int;
            let c = (t[pc + 3] as nat % len) as int;
            let x = t[a] as int;
            let y = t[b] as int;
            let r = if op == 0x1 {
                (x + y) % 256
            } else if op == 0x2 {
                (x + 256 - y) % 256
            } else if op == 0x3 {
                (x * y) % 256
            } else if op == 0x4 {
                x / y
            } else if op == 0x5 {
                (t[a] & t[b]) as int
            } else if op == 0x6 {
                (t[a] | t[b]) as int
            } else if op == 0x7 {
                (t[a] ^ t[b]) as int
            } else if op == 0x8 {
                x
            } else if op == 0xA {
                t[pc + 1] as int
            } else if op == 0xD {
                255 - x
            } else {
                x % y
            };
            &&& (op == 0x4 || op == 0xE) && y == 0 ==> !go && t2 == t && s2 == s
            &&& !((op == 0x4 || op == 0xE) && y == 0) ==> {
                &&& go
                &&& s2.pc == t[pc + 4] as nat % len
                &&& t2.len() == len
                &&& t2[c] as int == r
                &&& forall|i: int| 0 <= i < len && i != c ==> t2[i] == t[i]
            }
        }),
{
    let pc = s.pc as int;
    let len = t.len();
    let a = (t[pc + 1] as nat % len) as int;
    let b = (t[pc + 2] as nat % len) as int;
    let x = t[a];
    let y = t[b];
    lemma_byte_arith(x, y, x.wrapping_add(y), x.wrapping_sub(y));
    let o = t[pc];
    assert((!x) as int == 255 - x && o & 0x0F < 16) by (bit_vector);
    assert(x.wrapping_mul(y) as int == (x as int * y as int) % 256);
    if y != 0 {
        assert((x / y) as int == x as int / y as int);
        assert((x % y) as int == x as int % y as int);
    }
}

/// SHL (0xB) and SHR (0xC) shift the byte at A by the low three bits `k`
/// of the byte at B: left doubles it `k` times mod 256, right halves it `k`
/// times rounding down; the result goes to C, which is the only byte that
/// changes, and the run goes on at D.
pub proof fn law_shifts(s: EdvacState, t: Seq<u8>)
    requires
        s.pc + 4 < t.len() <= usize::MAX,
        t[s.pc as int] & 0x0F == 0xB || t[s.pc as int] & 0x0F == 0xC,
    ensures
        ({
            let (go, s2, t2) = edvac_next(s, t);
            let pc = s.pc as int;
            let len = t.len();
            let a = (t[pc + 1] as nat % len) as int;
            let b = (t[pc + 2] as nat % len) as int;
            let c = (t[pc + 3] as nat % len) as int;
            let k = (t[b] % 8) as nat;
            &&& go
            &&& s2.pc == t[pc + 4] as nat % len
            &&& t2.len() == len
            &&& forall|i: int| 0 <= i < len && i != c ==> t2[i] == t[i]
            &&& t2[c] as int == if t[pc] & 0x0F == 0xB {
                doubled8(t[a] as int, k)
            } else {
                halved(t[a] as int, k)
            }
        }),
{
    let pc = s.pc as int;
    let len = t.len();
    let a = (t[pc + 1] as nat % len) as int;
    let b = (t[pc + 2] as nat % len) as int;
    let y = t[b];
    assert(y & 0x07 == y % 8) by (bit_vector);
    lemma_shifts8(t[a], y & 0x07);
}

/// CMP_BR (9) compares the bytes at A and B: the run goes on at C when the
/// first is not above the second, else at D. The tape stays as it is.
pub proof fn law_compare_branch(s: EdvacState, t: Seq<u8>)
    requires
        s.pc + 4 < t.len() <= usize::MAX,
        t[s.pc as int] & 0x0F == 0x9,
    ensures
        ({
            let (go, s2, t2) = edvac_next(s, t);
            let pc = s.pc as int;
            let len = t.len();
            let a = (t[pc + 1] as nat % len) as int;
            let b = (t[pc + 2] as nat % len) as int;
            &&& go
            &&& t2 == t
            &&& s2.pc == if t[a] <= t[b] { t[pc + 3] as nat % len } else { t[pc + 4] as nat % len }
        }),
{
}

/// Without a battle mode of its own, a battle is the plain run of the tape,
/// whatever the program size.
pub proof fn law_battle_is_plain_run(t: Seq<u8>, program_size: nat, step_limit: nat)
    ensures
        Edvac::spec_execute_battle(t, program_size, step_limit) == Edvac::spec_execute(t, step_limit),
{
}

} // verus!

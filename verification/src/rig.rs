use vstd::prelude::*;

use crate::listing::{list, listing, Lister};
use crate::stepper::{battle, run, run_battle, run_solo, Stepper};
use crate::substrate::Substrate;
use crate::text::{hex, push_hex};
use crate::word::lemma_byte_arith;

verus! {

/// The Rig (Register-Indirect Goto) instruction set: a register machine substrate.
///
/// A classical Von Neumann architecture with a small register file and
/// register-indirect addressing. This covers the one major computational
/// paradigm missing from the other substrates: named registers with
/// indirect memory access.
///
/// State:
/// - `pc`: instruction pointer, starts at 0
/// - `r[0]`: general register, starts at 0
/// - `r[1]`: general register, starts at `tape.len() / 2`
/// - `r[2]`: general register, starts at 0
/// - `r[3]`: general register, starts at 0
///
/// Instruction encoding (1 byte):
/// - High 4 bits: opcode
/// - Low 4 bits: two 2-bit register selectors: bits[3:2] = dst, bits[1:0] = src
///
/// All arithmetic wraps modulo 256 (u8). All addresses wrap modulo tape length.
pub struct Rig;

/// The registers of one running Rig context.
#[derive(Clone, Copy)]
pub struct RigState {
    pub pc: usize,
    pub r0: u8,
    pub r1: u8,
    pub r2: u8,
    pub r3: u8,
}

/// Register `i` (0..4).
pub open spec fn reg(s: RigState, i: u8) -> u8 {
    if i == 0 {
        s.r0
    } else if i == 1 {
        s.r1
    } else if i == 2 {
        s.r2
    } else {
        s.r3
    }
}

/// The registers with register `i` set to `v` and the program counter set to `pc`.
pub open spec fn with_reg(s: RigState, pc: usize, i: u8, v: u8) -> RigState {
    RigState {
        pc: pc,
        r0: if i == 0 {
            v
        } else {
            s.r0
        },
        r1: if i == 1 {
            v
        } else {
            s.r1
        },
        r2: if i == 2 {
            v
        } else {
            s.r2
        },
        r3: if i == 3 {
            v
        } else {
            s.r3
        },
    }
}

impl RigState {
    fn get(&self, i: u8) -> (v: u8)
        ensures
            v == reg(*self, i),
    {
        if i == 0 {
            self.r0
        } else if i == 1 {
            self.r1
        } else if i == 2 {
            self.r2
        } else {
            self.r3
        }
    }

    fn set(&mut self, i: u8, v: u8)
        requires
            i < 4,
        ensures
            *final(self) == with_reg(*old(self), old(self).pc, i, v),
    {
        if i == 0 {
            self.r0 = v;
        } else if i == 1 {
            self.r1 = v;
        } else if i == 2 {
            self.r2 = v;
        } else {
            self.r3 = v;
        }
    }
}

/// The meaning of one Rig instruction.
pub open spec fn rig_next(s: RigState, t: Seq<u8>) -> (bool, RigState, Seq<u8>) {
    let len = t.len();
    if s.pc >= len {
        (false, s, t)
    } else {
        let instr = t[s.pc as int];
        let dst = (instr >> 2) & 0x03;
        let src = instr & 0x03;
        let rd = reg(s, dst);
        let rs = reg(s, src);
        let op = instr >> 4;
        let pc1 = (s.pc + 1) as usize;
        let same = with_reg(s, pc1, dst, rd);
        if op == 0x0 {
            // LOAD
            (true, with_reg(s, pc1, dst, t[(rs as nat % len) as int]), t)
        } else if op == 0x1 {
            // STORE
            (true, same, t.update((rd as nat % len) as int, rs))
        } else if op == 0x2 {
            // MOV
            (true, with_reg(s, pc1, dst, rs), t)
        } else if op == 0x3 {
            // ADD
            (true, with_reg(s, pc1, dst, rd.wrapping_add(rs)), t)
        } else if op == 0x4 {
            // SUB
            (true, with_reg(s, pc1, dst, rd.wrapping_sub(rs)), t)
        } else if op == 0x5 {
            // XOR
            (true, with_reg(s, pc1, dst, rd ^ rs), t)
        } else if op == 0x6 {
            // INC
            (true, with_reg(s, pc1, dst, rd.wrapping_add(1)), t)
        } else if op == 0x7 {
            // DEC
            (true, with_reg(s, pc1, dst, rd.wrapping_sub(1)), t)
        } else if op == 0x8 || op == 0x9 {
            // JZ / JNZ: jump to the address held in dst
            if (op == 0x8) == (rs == 0) {
                (true, with_reg(s, rd as usize, dst, rd), t)
            } else {
                (true, same, t)
            }
        } else if op == 0xA {
            // COPY
            (true, same, t.update((rd as nat % len) as int, t[(rs as nat % len) as int]))
        } else if op == 0xB {
            // HALT
            (false, s, t)
        } else {
            (true, same, t)
        }
    }
}

/// Execute one Rig instruction. Returns true if still running.
pub fn rig_step(state: &mut RigState, tape: &mut [u8]) -> (go: bool)
    requires
        old(tape)@.len() <= isize::MAX,
    ensures
        (go, *final(state), final(tape)@) == rig_next(*old(state), old(tape)@),
{
    let len = tape.len();
    if state.pc >= len {
        return false;
    }
    let instr = tape[state.pc];
    let dst = (instr >> 2) & 0x03;
    let src = instr & 0x03;
    assert(dst < 4 && src < 4) by (bit_vector)
        requires
            dst == (instr >> 2) & 0x03,
            src == instr & 0x03,
    ;
    let rd = state.get(dst);
    let rs = state.get(src);
    let op = instr >> 4;
    let pc1 = state.pc + 1;
    if op == 0x0 {
        state.set(dst, tape[rs as usize % len]);
    } else if op == 0x1 {
        tape[rd as usize % len] = rs;
    } else if op == 0x2 {
        state.set(dst, rs);
    } else if op == 0x3 {
        state.set(dst, rd.wrapping_add(rs));
    } else if op == 0x4 {
        state.set(dst, rd.wrapping_sub(rs));
    } else if op == 0x5 {
        state.set(dst, rd ^ rs);
    } else if op == 0x6 {
        state.set(dst, rd.wrapping_add(1));
    } else if op == 0x7 {
        state.set(dst, rd.wrapping_sub(1));
    } else if op == 0x8 || op == 0x9 {
        if (op == 0x8) == (rs == 0) {
            state.pc = rd as usize;
            return true;
        }
    } else if op == 0xA {
        tape[rd as usize % len] = tape[rs as usize % len];
    } else if op == 0xB {
        return false;
    }
    state.pc = pc1;
    true
}

impl Stepper for Rig {
    type State = RigState;

    open spec fn spec_live(s: RigState, tape: Seq<u8>) -> bool {
        s.pc < tape.len()
    }

    open spec fn spec_step(s: RigState, tape: Seq<u8>) -> (bool, RigState, Seq<u8>) {
        rig_next(s, tape)
    }

    fn live(s: &RigState, tape: &[u8]) -> (b: bool) {
        s.pc < tape.len()
    }

    fn step(s: &mut RigState, tape: &mut [u8]) -> (go: bool) {
        rig_step(s, tape)
    }

    proof fn lemma_step_len(s: RigState, tape: Seq<u8>) {
    }
}

/// What `Rig::execute` computes: the final tape and the step count.
pub open spec fn rig_execute(t: Seq<u8>, step_limit: nat) -> (Seq<u8>, nat) {
    if t.len() == 0 {
        (t, 0)
    } else {
        run::<Rig>(
            RigState { pc: 0, r0: 0, r1: (t.len() / 2) as u8, r2: 0, r3: 0 },
            t,
            step_limit,
        )
    }
}

/// What `Rig::execute_battle` computes: context A starts at 0 with
/// `r1 = ps`, context B starts at `ps` with `r0 = ps`.
pub open spec fn rig_execute_battle(t: Seq<u8>, ps: nat, step_limit: nat) -> (Seq<u8>, nat) {
    if t.len() == 0 {
        (t, 0)
    } else {
        battle::<Rig>(
            RigState { pc: 0, r0: 0, r1: ps as u8, r2: 0, r3: 0 },
            RigState { pc: ps as usize, r0: ps as u8, r1: 0, r2: 0, r3: 0 },
            false,
            false,
            t,
            step_limit,
        )
    }
}

/// The name of register `i`.
pub open spec fn reg_name(i: u8) -> Seq<char> {
    if i == 0 {
        "r0"@
    } else if i == 1 {
        "r1"@
    } else if i == 2 {
        "r2"@
    } else if i == 3 {
        "r3"@
    } else {
        "r?"@
    }
}

fn reg_name_exec(i: u8) -> (s: &'static str)
    ensures
        s@ == reg_name(i),
{
    if i == 0 {
        "r0"
    } else if i == 1 {
        "r1"
    } else if i == 2 {
        "r2"
    } else if i == 3 {
        "r3"
    } else {
        "r?"
    }
}

/// The description of the Rig instruction byte `b`.
pub open spec fn rig_desc(b: u8) -> Seq<char> {
    let d = reg_name((b >> 2) & 0x03);
    let s = reg_name(b & 0x03);
    let op = b >> 4;
    if op == 0x0 {
        "LOAD "@ + d + ", ["@ + s + "]"@
    } else if op == 0x1 {
        "STORE ["@ + d + "], "@ + s
    } else if op == 0x2 {
        "MOV "@ + d + ", "@ + s
    } else if op == 0x3 {
        "ADD "@ + d + ", "@ + s
    } else if op == 0x4 {
        "SUB "@ + d + ", "@ + s
    } else if op == 0x5 {
        "XOR "@ + d + ", "@ + s
    } else if op == 0x6 {
        "INC "@ + d
    } else if op == 0x7 {
        "DEC "@ + d
    } else if op == 0x8 {
        "JZ "@ + d + ", "@ + s
    } else if op == 0x9 {
        "JNZ "@ + d + ", "@ + s
    } else if op == 0xA {
        "COPY ["@ + d + "], ["@ + s + "]"@
    } else if op == 0xB {
        "HALT"@
    } else {
        "NOP"@
    }
}

fn rig_desc_exec(b: u8) -> (out: String)
    ensures
        out@ == rig_desc(b),
{
    let d = reg_name_exec((b >> 2) & 0x03);
    let s = reg_name_exec(b & 0x03);
    let op = b >> 4;
    let mut out = String::new();
    if op == 0x0 {
        out.append("LOAD ");
        out.append(d);
        out.append(", [");
        out.append(s);
        out.append("]");
    } else if op == 0x1 {
        out.append("STORE [");
        out.append(d);
        out.append("], ");
        out.append(s);
    } else if op == 0x6 || op == 0x7 {
        out.append(if op == 0x6 {
            "INC "
        } else {
            "DEC "
        });
        out.append(d);
    } else if op == 0xA {
        out.append("COPY [");
        out.append(d);
        out.append("], [");
        out.append(s);
        out.append("]");
    } else if op == 0xB {
        out.append("HALT");
    } else if op >= 0xC {
        out.append("NOP");
    } else {
        out.append(
            if op == 0x2 {
                "MOV "
            } else if op == 0x3 {
                "ADD "
            } else if op == 0x4 {
                "SUB "
            } else if op == 0x5 {
                "XOR "
            } else if op == 0x8 {
                "JZ "
            } else {
                "JNZ "
            },
        );
        out.append(d);
        out.append(", ");
        out.append(s);
    }
    assert(out@ =~= rig_desc(b));
    out
}

impl Lister for Rig {
    open spec fn spec_line(t: Seq<u8>, pc: nat) -> (Seq<char>, nat) {
        (
            hex(pc, 4) + ": "@ + hex(t[pc as int] as nat, 2) + "  "@ + rig_desc(t[pc as int])
                + "\n"@,
            1,
        )
    }

    fn line(t: &[u8], pc: usize) -> (r: (String, usize)) {
        let b = t[pc];
        let desc = rig_desc_exec(b);
        let mut s = String::new();
        push_hex(&mut s, pc, 4);
        s.append(": ");
        push_hex(&mut s, b as usize, 2);
        s.append("  ");
        s.append(desc.as_str());
        s.append("\n");
        assert(s@ =~= Self::spec_line(t@, pc as nat).0);
        (s, 1)
    }
}

impl Substrate for Rig {
    open spec fn spec_execute(tape: Seq<u8>, step_limit: nat) -> (Seq<u8>, nat) {
        rig_execute(tape, step_limit)
    }

    open spec fn spec_execute_battle(tape: Seq<u8>, ps: nat, step_limit: nat) -> (Seq<u8>, nat) {
        rig_execute_battle(tape, ps, step_limit)
    }

    fn execute(tape: &mut [u8], step_limit: usize) -> (steps: usize)
    {
        let len = tape.len();
        if len == 0 {
            return 0;
        }
        let mut state = RigState { pc: 0, r0: 0, r1: (len / 2) as u8, r2: 0, r3: 0 };
        run_solo::<Rig>(&mut state, tape, step_limit)
    }

    fn execute_battle(tape: &mut [u8], ps: usize, step_limit: usize) -> (steps: usize)
    {
        let len = tape.len();
        if len == 0 {
            return 0;
        }
        let mut a = RigState { pc: 0, r0: 0, r1: ps as u8, r2: 0, r3: 0 };
        let mut b = RigState { pc: ps, r0: ps as u8, r1: 0, r2: 0, r3: 0 };
        run_battle::<Rig>(&mut a, &mut b, tape, step_limit)
    }

    open spec fn spec_is_instruction(byte: u8) -> bool {
        (byte >> 4) <= 0xB
    }

    fn is_instruction(byte: u8) -> (r: bool) {
        (byte >> 4) <= 0xB
    }

    fn disassemble(tape: &[u8]) -> (out: String)
        ensures
            out@ == listing::<Rig>(tape@, 0),
    {
        list::<Rig>(tape)
    }
}

/// A byte that is no instruction only moves the program counter on: the
/// registers and the tape stay as they are.
pub proof fn law_non_instruction_only_advances(s: RigState, t: Seq<u8>)
    requires
        s.pc < t.len(),
        !Rig::spec_is_instruction(t[s.pc as int]),
    ensures
        rig_next(s, t) == (
            true,
            RigState { pc: (s.pc + 1) as usize, r0: s.r0, r1: s.r1, r2: s.r2, r3: s.r3 },
            t,
        ),
{
}

/// The fields of an instruction byte: the opcode is its high nibble, the
/// destination register bits 3-2 and the source register bits 1-0.
proof fn lemma_fields(instr: u8)
    ensures
        instr >> 4 == instr / 16,
        (instr >> 2) & 0x03 == (instr / 4) % 4,
        instr & 0x03 == instr % 4,
{
    assert(instr >> 4 == instr / 16 && (instr >> 2) & 0x03 == (instr / 4) % 4 && instr & 0x03
        == instr % 4) by (bit_vector);
}

/// The register ops (opcode = high nibble 0 and 2-7) set the destination
/// register D (bits 3-2) from the source register S (bits 1-0): LOAD reads
/// the tape at S (around the tape), MOV copies S, ADD, SUB and XOR combine
/// D with S, INC and DEC add or take one; all mod 256. The other registers
/// and the tape stay, and the flow moves on by one.
pub proof fn law_register_ops(s: RigState, t: Seq<u8>)
    requires
        s.pc < t.len() <= usize::MAX,
        t[s.pc as int] / 16 == 0 || 2 <= t[s.pc as int] / 16 <= 7,
    ensures
        ({
            let (go, s2, t2) = rig_next(s, t);
            let instr = t[s.pc as int];
            let op = instr / 16;
            let d = (instr / 4) % 4;
            let rd = reg(s, d) as int;
            let rs = reg(s, instr % 4) as int;
            let v = reg(s2, d) as int;
            &&& go
            &&& t2 == t
            &&& s2.pc == s.pc + 1
            &&& forall|i: u8| i < 4 && i != d ==> reg(s2, i) == reg(s, i)
            &&& op == 0 ==> v == t[rs % t.len() as int]
            &&& op == 2 ==> v == rs
            &&& op == 3 ==> v == (rd + rs) % 256
            &&& op == 4 ==> v == (rd + 256 - rs) % 256
            &&& op == 5 ==> reg(s2, d) == reg(s, d) ^ reg(s, instr % 4)
            &&& op == 6 ==> v == (rd + 1) % 256
            &&& op == 7 ==> v == (rd + 255) % 256
        }),
{
    let instr = t[s.pc as int];
    lemma_fields(instr);
    let rd = reg(s, (instr / 4) % 4);
    let rs = reg(s, instr % 4);
    lemma_byte_arith(rd, rs, rd.wrapping_add(rs), rd.wrapping_sub(rs));
    lemma_byte_arith(rd, 1, rd.wrapping_add(1), rd.wrapping_sub(1));
}

/// STORE (opcode 1) writes register S at the cell register D points to,
/// COPY (opcode 0xA) copies the cell S points to there (around the tape).
/// Only that cell changes; the registers stay and the flow moves on by one.
pub proof fn law_memory_ops(s: RigState, t: Seq<u8>)
    requires
        s.pc < t.len() <= usize::MAX,
        t[s.pc as int] / 16 == 1 || t[s.pc as int] / 16 == 0xA,
    ensures
        ({
            let (go, s2, t2) = rig_next(s, t);
            let instr = t[s.pc as int];
            let len = t.len() as int;
            let at = reg(s, (instr / 4) % 4) as int % len;
            let rs = reg(s, instr % 4);
            &&& go
            &&& s2 == RigState { pc: (s.pc + 1) as usize, ..s }
            &&& t2.len() == t.len()
            &&& t2[at] == if instr / 16 == 1 { rs } else { t[rs as int % len] }
            &&& forall|i: int| 0 <= i < len && i != at ==> t2[i] == t[i]
        }),
{
    lemma_fields(t[s.pc as int]);
}

/// JZ (opcode 8) and JNZ (opcode 9) jump to the address held in register D
/// when register S is zero (JZ) or nonzero (JNZ), else move on by one. The
/// registers and the tape stay as they are.
pub proof fn law_jumps(s: RigState, t: Seq<u8>)
    requires
        s.pc < t.len() <= usize::MAX,
        t[s.pc as int] / 16 == 8 || t[s.pc as int] / 16 == 9,
    ensures
        ({
            let (go, s2, t2) = rig_next(s, t);
            let instr = t[s.pc as int];
            let rs = reg(s, instr % 4);
            let taken = if instr / 16 == 8 { rs == 0 } else { rs != 0 };
            &&& go
            &&& t2 == t
            &&& s2.pc == if taken { reg(s, (instr / 4) % 4) as int } else { s.pc + 1 }
            &&& forall|i: u8| i < 4 ==> reg(s2, i) == reg(s, i)
        }),
{
    lemma_fields(t[s.pc as int]);
}

} // verus!

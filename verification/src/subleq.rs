use vstd::prelude::*;

use crate::listing::{list, listing, push_trailing_line, trailing_line, Lister};
use crate::stepper::{battle, run, run_battle, run_solo, Stepper};
use crate::substrate::Substrate;
use crate::text::{dec, hex, push_dec, push_hex, push_signed, signed_dec};
use crate::word::lemma_byte_arith;

verus! {

/// The SUBLEQ instruction set from Section 3.2 of the paper.
///
/// SUBLEQ is one of the simplest Turing-complete languages, possessing a
/// single instruction. The only state is the program counter (pc).
///
/// Each instruction reads three values a, b, c from consecutive tape positions
/// starting at pc. The instruction executes (in C-like syntax):
///
///   *a -= *b; if (*a <= 0) { goto c; } else { goto pc + 3; }
///
/// All addresses wrap modulo the tape length. The `<= 0` comparison interprets
/// the byte as signed (i8). The program terminates when pc would require
/// reading past the end of the tape.
///
/// This is a counterexample substrate from the paper: self-replication is
/// possible (the smallest hand-crafted self-replicator is 60 bytes), but it
/// does not spontaneously emerge from random initialization.
pub struct Subleq;

/// The register of one running SUBLEQ context.
#[derive(Clone, Copy)]
pub struct SubleqState {
    pub pc: usize,
}

/// The meaning of one SUBLEQ instruction. The branch target is read after
/// the subtraction, which matters when `a == pc + 2`.
pub open spec fn subleq_next(s: SubleqState, t: Seq<u8>) -> (bool, SubleqState, Seq<u8>) {
    let len = t.len();
    if s.pc + 2 >= len {
        (false, s, t)
    } else {
        let a = (t[s.pc as int] as nat % len) as int;
        let b = (t[s.pc + 1] as nat % len) as int;
        let t2 = t.update(a, t[a].wrapping_sub(t[b]));
        if (t2[a] as i8) <= 0 {
            (true, SubleqState { pc: t2[s.pc + 2] as usize }, t2)
        } else {
            (true, SubleqState { pc: (s.pc + 3) as usize }, t2)
        }
    }
}

/// The state of a context starting at `start_pc`.
pub fn subleq_battle_init(_tape_len: usize, start_pc: usize) -> (s: SubleqState)
    ensures
        s.pc == start_pc,
{
    SubleqState { pc: start_pc }
}

/// Execute one SUBLEQ instruction. Returns true if still running.
pub fn subleq_battle_step(state: &mut SubleqState, tape: &mut [u8]) -> (go: bool)
    requires
        old(tape)@.len() <= isize::MAX,
    ensures
        (go, *final(state), final(tape)@) == subleq_next(*old(state), old(tape)@),
{
    let len = tape.len();
    if state.pc >= len || len - state.pc <= 2 {
        return false;
    }
    let a = tape[state.pc] as usize % len;
    let b = tape[state.pc + 1] as usize % len;
    tape[a] = tape[a].wrapping_sub(tape[b]);
    if (tape[a] as i8) <= 0 {
        state.pc = tape[state.pc + 2] as usize;
    } else {
        state.pc = state.pc + 3;
    }
    true
}

impl Stepper for Subleq {
    type State = SubleqState;

    open spec fn spec_live(s: SubleqState, tape: Seq<u8>) -> bool {
        s.pc + 2 < tape.len()
    }

    open spec fn spec_step(s: SubleqState, tape: Seq<u8>) -> (bool, SubleqState, Seq<u8>) {
        subleq_next(s, tape)
    }

    fn live(s: &SubleqState, tape: &[u8]) -> (b: bool) {
        s.pc < tape.len() && tape.len() - s.pc > 2
    }

    fn step(s: &mut SubleqState, tape: &mut [u8]) -> (go: bool) {
        subleq_battle_step(s, tape)
    }

    proof fn lemma_step_len(s: SubleqState, tape: Seq<u8>) {
    }
}

/// What `Subleq::execute` computes: the final tape and the step count.
pub open spec fn subleq_execute(t: Seq<u8>, step_limit: nat) -> (Seq<u8>, nat) {
    if t.len() < 3 {
        (t, 0)
    } else {
        run::<Subleq>(SubleqState { pc: 0 }, t, step_limit)
    }
}

/// What `Subleq::execute_battle` computes: contexts start at 0 and at `ps`.
pub open spec fn subleq_execute_battle(t: Seq<u8>, ps: nat, step_limit: nat) -> (Seq<u8>, nat) {
    if t.len() < 3 {
        (t, 0)
    } else {
        battle::<Subleq>(
            SubleqState { pc: 0 },
            SubleqState { pc: ps as usize },
            false,
            false,
            t,
            step_limit,
        )
    }
}

impl Lister for Subleq {
    open spec fn spec_line(t: Seq<u8>, pc: nat) -> (Seq<char>, nat) {
        if pc + 2 < t.len() {
            let a = t[pc as int] as nat;
            let b = t[pc + 1int] as nat;
            let c = t[pc + 2int] as nat;
            (
                hex(pc, 4) + ": ["@ + hex(a, 2) + " "@ + hex(b, 2) + " "@ + hex(c, 2) + "]  *"@
                    + dec(a) + " -= *"@ + dec(b) + "; if <=0 goto "@ + dec(c) + "\n"@,
                3,
            )
        } else {
            (trailing_line(pc, t[pc as int]), 1)
        }
    }

    fn line(t: &[u8], pc: usize) -> (r: (String, usize)) {
        let mut s = String::new();
        if pc + 2 < t.len() {
            let a = t[pc] as usize;
            let b = t[pc + 1] as usize;
            let c = t[pc + 2] as usize;
            push_hex(&mut s, pc, 4);
            s.append(": [");
            push_hex(&mut s, a, 2);
            s.append(" ");
            push_hex(&mut s, b, 2);
            s.append(" ");
            push_hex(&mut s, c, 2);
            s.append("]  *");
            push_dec(&mut s, a);
            s.append(" -= *");
            push_dec(&mut s, b);
            s.append("; if <=0 goto ");
            push_dec(&mut s, c);
            s.append("\n");
            assert(s@ =~= Self::spec_line(t@, pc as nat).0);
            (s, 3)
        } else {
            push_trailing_line(&mut s, pc, t[pc]);
            assert(s@ =~= Self::spec_line(t@, pc as nat).0);
            (s, 1)
        }
    }
}

impl Substrate for Subleq {
    open spec fn spec_execute(tape: Seq<u8>, step_limit: nat) -> (Seq<u8>, nat) {
        subleq_execute(tape, step_limit)
    }

    open spec fn spec_execute_battle(tape: Seq<u8>, ps: nat, step_limit: nat) -> (Seq<u8>, nat) {
        subleq_execute_battle(tape, ps, step_limit)
    }

    fn execute(tape: &mut [u8], step_limit: usize) -> (steps: usize)
    {
        let len = tape.len();
        if len < 3 {
            return 0;
        }
        let mut state = SubleqState { pc: 0 };
        run_solo::<Subleq>(&mut state, tape, step_limit)
    }

    fn execute_battle(tape: &mut [u8], ps: usize, step_limit: usize) -> (steps: usize)
    {
        let len = tape.len();
        if len < 3 {
            return 0;
        }
        let mut a = subleq_battle_init(len, 0);
        let mut b = subleq_battle_init(len, ps);
        run_battle::<Subleq>(&mut a, &mut b, tape, step_limit)
    }

    open spec fn spec_is_instruction(byte: u8) -> bool {
        true
    }

    fn is_instruction(_byte: u8) -> (r: bool) {
        // In SUBLEQ, every byte is part of an instruction triplet (address or
        // branch target). There are no no-op bytes.
        true
    }

    fn disassemble(tape: &[u8]) -> (out: String)
        ensures
            out@ == listing::<Subleq>(tape@, 0),
    {
        list::<Subleq>(tape)
    }
}

/// The RSUBLEQ4 variant from Section 3.2 of the paper.
///
/// A relative-addressing variant of SUBLEQ that reads 4 values per instruction.
/// Each instruction reads a, b, c, d from consecutive tape positions starting
/// at pc. The instruction executes:
///
///   *(pc+a) = *(pc+b) - *(pc+c); if (*(pc+a) <= 0) { goto pc+d; } else { goto pc+4; }
///
/// Data address offsets a, b, c are **unsigned** (u8) when added to pc, then
/// wrapped modulo tape length. The branch offset d is **signed** (i8).
/// The program terminates when pc would require reading past the end of
/// the tape, or when the branch target is negative.
///
/// This variant admits a significantly shorter self-replicator (25 bytes)
/// than standard SUBLEQ (60 bytes).
pub struct Rsubleq4;

/// The register of one running RSUBLEQ4 context.
#[derive(Clone, Copy)]
pub struct Rsubleq4State {
    pub pc: usize,
}

/// The meaning of one RSUBLEQ4 instruction. The branch offset is read after
/// the subtraction, which matters when `addr_a == pc + 3`.
pub open spec fn rsubleq4_next(s: Rsubleq4State, t: Seq<u8>) -> (bool, Rsubleq4State, Seq<u8>) {
    let len = t.len();
    if s.pc + 3 >= len {
        (false, s, t)
    } else {
        let aa = ((s.pc + t[s.pc as int]) % (len as int)) as int;
        let ab = ((s.pc + t[s.pc + 1]) % (len as int)) as int;
        let ac = ((s.pc + t[s.pc + 2]) % (len as int)) as int;
        let t2 = t.update(aa, t[ab].wrapping_sub(t[ac]));
        if (t2[aa] as i8) <= 0 {
            let np = s.pc + (t2[s.pc + 3] as i8) as int;
            if np < 0 {
                (false, s, t2)
            } else {
                (true, Rsubleq4State { pc: np as usize }, t2)
            }
        } else {
            (true, Rsubleq4State { pc: (s.pc + 4) as usize }, t2)
        }
    }
}

/// The state of a context starting at `start_pc`.
pub fn rsubleq4_battle_init(_tape_len: usize, start_pc: usize) -> (s: Rsubleq4State)
    ensures
        s.pc == start_pc,
{
    Rsubleq4State { pc: start_pc }
}

/// Execute one RSUBLEQ4 instruction. Returns true if still running.
pub fn rsubleq4_battle_step(state: &mut Rsubleq4State, tape: &mut [u8]) -> (go: bool)
    requires
        old(tape)@.len() <= isize::MAX,
    ensures
        (go, *final(state), final(tape)@) == rsubleq4_next(*old(state), old(tape)@),
{
    let len = tape.len();
    if state.pc >= len || len - state.pc <= 3 {
        return false;
    }
    let pc = state.pc;
    // Data offsets are unsigned.
    let addr_a = (pc + tape[pc] as usize) % len;
    let addr_b = (pc + tape[pc + 1] as usize) % len;
    let addr_c = (pc + tape[pc + 2] as usize) % len;
    tape[addr_a] = tape[addr_b].wrapping_sub(tape[addr_c]);
    if (tape[addr_a] as i8) <= 0 {
        let d = tape[pc + 3] as i8;
        if d < 0 && pc < (0 - (d as i16)) as usize {
            return false;
        }
        state.pc = if d >= 0 {
            pc + d as usize
        } else {
            pc - (0 - (d as i16)) as usize
        };
    } else {
        state.pc = pc + 4;
    }
    true
}

impl Stepper for Rsubleq4 {
    type State = Rsubleq4State;

    open spec fn spec_live(s: Rsubleq4State, tape: Seq<u8>) -> bool {
        s.pc + 3 < tape.len()
    }

    open spec fn spec_step(s: Rsubleq4State, tape: Seq<u8>) -> (bool, Rsubleq4State, Seq<u8>) {
        rsubleq4_next(s, tape)
    }

    fn live(s: &Rsubleq4State, tape: &[u8]) -> (b: bool) {
        s.pc < tape.len() && tape.len() - s.pc > 3
    }

    fn step(s: &mut Rsubleq4State, tape: &mut [u8]) -> (go: bool) {
        rsubleq4_battle_step(s, tape)
    }

    proof fn lemma_step_len(s: Rsubleq4State, tape: Seq<u8>) {
    }
}

/// What `Rsubleq4::execute` computes: the final tape and the step count.
pub open spec fn rsubleq4_execute(t: Seq<u8>, step_limit: nat) -> (Seq<u8>, nat) {
    if t.len() < 4 {
        (t, 0)
    } else {
        run::<Rsubleq4>(Rsubleq4State { pc: 0 }, t, step_limit)
    }
}

/// What `Rsubleq4::execute_battle` computes: contexts start at 0 and at `ps`.
pub open spec fn rsubleq4_execute_battle(t: Seq<u8>, ps: nat, step_limit: nat) -> (Seq<u8>, nat) {
    if t.len() < 4 {
        (t, 0)
    } else {
        battle::<Rsubleq4>(
            Rsubleq4State { pc: 0 },
            Rsubleq4State { pc: ps as usize },
            false,
            false,
            t,
            step_limit,
        )
    }
}

impl Lister for Rsubleq4 {
    open spec fn spec_line(t: Seq<u8>, pc: nat) -> (Seq<char>, nat) {
        if pc + 3 < t.len() {
            let a = t[pc as int] as nat;
            let b = t[pc + 1int] as nat;
            let c = t[pc + 2int] as nat;
            let d = t[pc + 3int];
            (
                hex(pc, 4) + ": ["@ + hex(a, 2) + " "@ + hex(b, 2) + " "@ + hex(c, 2) + " "@ + hex(
                    d as nat,
                    2,
                ) + "]  *(pc+"@ + dec(a) + ") = *(pc+"@ + dec(b) + ") - *(pc+"@ + dec(c)
                    + "); if <=0 goto pc"@ + signed_dec((d as i8) as int, true) + "\n"@,
                4,
            )
        } else {
            (trailing_line(pc, t[pc as int]), 1)
        }
    }

    fn line(t: &[u8], pc: usize) -> (r: (String, usize)) {
        let mut s = String::new();
        if pc + 3 < t.len() {
            let a = t[pc] as usize;
            let b = t[pc + 1] as usize;
            let c = t[pc + 2] as usize;
            let d = t[pc + 3];
            push_hex(&mut s, pc, 4);
            s.append(": [");
            push_hex(&mut s, a, 2);
            s.append(" ");
            push_hex(&mut s, b, 2);
            s.append(" ");
            push_hex(&mut s, c, 2);
            s.append(" ");
            push_hex(&mut s, d as usize, 2);
            s.append("]  *(pc+");
            push_dec(&mut s, a);
            s.append(") = *(pc+");
            push_dec(&mut s, b);
            s.append(") - *(pc+");
            push_dec(&mut s, c);
            s.append("); if <=0 goto pc");
            push_signed(&mut s, (d as i8) as i128, true);
            s.append("\n");
            assert(s@ =~= Self::spec_line(t@, pc as nat).0);
            (s, 4)
        } else {
            push_trailing_line(&mut s, pc, t[pc]);
            assert(s@ =~= Self::spec_line(t@, pc as nat).0);
            (s, 1)
        }
    }
}

impl Substrate for Rsubleq4 {
    open spec fn spec_execute(tape: Seq<u8>, step_limit: nat) -> (Seq<u8>, nat) {
        rsubleq4_execute(tape, step_limit)
    }

    open spec fn spec_execute_battle(tape: Seq<u8>, ps: nat, step_limit: nat) -> (Seq<u8>, nat) {
        rsubleq4_execute_battle(tape, ps, step_limit)
    }

    fn disassemble(tape: &[u8]) -> (out: String)
        ensures
            out@ == listing::<Rsubleq4>(tape@, 0),
    {
        list::<Rsubleq4>(tape)
    }

    fn execute(tape: &mut [u8], step_limit: usize) -> (steps: usize)
    {
        let len = tape.len();
        if len < 4 {
            return 0;
        }
        let mut state = Rsubleq4State { pc: 0 };
        run_solo::<Rsubleq4>(&mut state, tape, step_limit)
    }

    fn execute_battle(tape: &mut [u8], ps: usize, step_limit: usize) -> (steps: usize)
    {
        let len = tape.len();
        if len < 4 {
            return 0;
        }
        let mut a = rsubleq4_battle_init(len, 0);
        let mut b = rsubleq4_battle_init(len, ps);
        run_battle::<Rsubleq4>(&mut a, &mut b, tape, step_limit)
    }

    open spec fn spec_is_instruction(byte: u8) -> bool {
        true
    }

    fn is_instruction(_byte: u8) -> (r: bool) {
        true
    }
}

/// A SUBLEQ run executes the instruction at `pc` whenever its three bytes lie
/// on the tape and the step limit allows one more step, and stops at once,
/// with the tape untouched, when they do not.
pub proof fn law_subleq_runs_whole_instructions(s: SubleqState, t: Seq<u8>, fuel: nat)
    requires
        fuel > 0,
    ensures
        s.pc + 2 < t.len() ==> run::<Subleq>(s, t, fuel).1 >= 1,
        s.pc + 2 >= t.len() ==> run::<Subleq>(s, t, fuel) == (t, 0nat),
{
}

/// One SUBLEQ instruction at `pc` (its three bytes on the tape): the cell
/// `a` addressed by the first byte becomes `*a - *b` (mod 256), `b` addressed
/// by the second; nothing else changes; the run goes on at the address in the
/// third byte (read after the store) when the result is zero or negative as
/// a signed byte, else at `pc + 3`.
pub proof fn law_subleq_instruction(s: SubleqState, t: Seq<u8>)
    requires
        s.pc + 2 < t.len() <= usize::MAX,
    ensures
        ({
            let (go, s2, t2) = subleq_next(s, t);
            let a = (t[s.pc as int] as nat % t.len()) as int;
            let b = (t[s.pc + 1] as nat % t.len()) as int;
            let v = t2[a];
            &&& go
            &&& t2.len() == t.len()
            &&& v as int == (t[a] as int - t[b] as int + 256) % 256
            &&& forall|i: int| 0 <= i < t.len() && i != a ==> t2[i] == t[i]
            &&& s2.pc == if v == 0 || v >= 128 { t2[s.pc + 2] as usize } else { (s.pc + 3) as usize }
        }),
{
    let a = (t[s.pc as int] as nat % t.len()) as int;
    let b = (t[s.pc + 1] as nat % t.len()) as int;
    let x = t[a];
    let y = t[b];
    let v = x.wrapping_sub(y);
    lemma_byte_arith(x, y, x.wrapping_add(y), x.wrapping_sub(y));
    lemma_byte_arith(v, 0, v.wrapping_add(0), v.wrapping_sub(0));
}

/// An RSUBLEQ4 run executes the instruction at `pc` whenever its four bytes
/// lie on the tape and the step limit allows one more step, and stops at
/// once, with the tape untouched, when they do not.
pub proof fn law_rsubleq4_runs_whole_instructions(s: Rsubleq4State, t: Seq<u8>, fuel: nat)
    requires
        fuel > 0,
    ensures
        s.pc + 3 < t.len() ==> run::<Rsubleq4>(s, t, fuel).1 >= 1,
        s.pc + 3 >= t.len() ==> run::<Rsubleq4>(s, t, fuel) == (t, 0nat),
{
}

/// One RSUBLEQ4 instruction at `pc` (its four bytes on the tape), with
/// addresses relative to `pc`: the cell `pc + A` becomes
/// `*(pc + B) - *(pc + C)` (mod 256), all around the tape; nothing else
/// changes. When the result is zero or negative as a signed byte the run
/// goes on at `pc` plus the signed fourth byte (read after the store), and
/// stops where that lies before the tape; else it goes on at `pc + 4`.
pub proof fn law_rsubleq4_instruction(s: Rsubleq4State, t: Seq<u8>)
    requires
        s.pc + 3 < t.len(),
        t.len() + 128 <= usize::MAX,
    ensures
        ({
            let (go, s2, t2) = rsubleq4_next(s, t);
            let len = t.len() as int;
            let aa = (s.pc + t[s.pc as int]) % len;
            let ab = (s.pc + t[s.pc + 1]) % len;
            let ac = (s.pc + t[s.pc + 2]) % len;
            let v = t2[aa];
            let d = t2[s.pc + 3] as int;
            let target = s.pc + if d >= 128 { d - 256 } else { d };
            &&& t2.len() == t.len()
            &&& v as int == (t[ab] as int - t[ac] as int + 256) % 256
            &&& forall|i: int| 0 <= i < t.len() && i != aa ==> t2[i] == t[i]
            &&& (v == 0 || v >= 128) && target < 0 ==> !go && s2 == s
            &&& (v == 0 || v >= 128) && target >= 0 ==> go && s2.pc == target
            &&& !(v == 0 || v >= 128) ==> go && s2.pc == s.pc + 4
        }),
{
    let len = t.len() as int;
    let ab = (s.pc + t[s.pc + 1]) % len;
    let ac = (s.pc + t[s.pc + 2]) % len;
    let x = t[ab];
    let y = t[ac];
    let v = x.wrapping_sub(y);
    lemma_byte_arith(x, y, x.wrapping_add(y), x.wrapping_sub(y));
    lemma_byte_arith(v, 0, v.wrapping_add(0), v.wrapping_sub(0));
    let aa = (s.pc + t[s.pc as int]) % len;
    let e = t.update(aa, v)[s.pc + 3];
    lemma_byte_arith(e, 0, e.wrapping_add(0), e.wrapping_sub(0));
}

} // verus!

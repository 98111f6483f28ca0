use vstd::prelude::*;

use crate::listing::{list, listing, Lister};
use crate::stepper::{battle, rel_jump, rel_jump_exec, run, run_battle, run_solo, Stepper};
use crate::substrate::Substrate;
use crate::text::{dec, hex, push_dec, push_hex, push_signed, signed_dec};
use crate::word::lemma_byte_arith;

verus! {

/// The Echo (Delay-Line Memory) substrate.
///
/// Inspired by mercury delay-line memory (EDSAC, UNIVAC I). The write address
/// is always constrained to `read_pointer + delay`: there is no random-access
/// write capability. All data movement is mediated through the delay offset.
///
/// State:
/// - `pc`: instruction pointer, starts at 0
/// - `rp`: read pointer, starts at 0
/// - `delay`: offset register (u8), initialized to `tape.len() / 2`
/// - `acc`: accumulator (u8), starts at 0
///
/// The write pointer (wp) is always `(rp + delay) % tape.len()`.
pub struct Echo;

pub const HALT: u8 = 0x00;

pub const ECHO: u8 = 0x01;

pub const LOAD: u8 = 0x02;

pub const STORE: u8 = 0x03;

pub const SKIP: u8 = 0x04;

pub const SET_DELAY: u8 = 0x05;

pub const INC: u8 = 0x06;

pub const DEC: u8 = 0x07;

pub const XOR: u8 = 0x08;

pub const ADD: u8 = 0x09;

pub const JMP_REL: u8 = 0x0A;

pub const JZ: u8 = 0x0B;

pub const JNZ: u8 = 0x0C;

pub const SKIP_EQ: u8 = 0x0D;

pub const GET_DELAY: u8 = 0x0E;

pub const SET_RP: u8 = 0x0F;

/// The registers of one running Echo context.
#[derive(Clone, Copy)]
pub struct EchoState {
    pub pc: usize,
    pub rp: u8,
    pub delay: u8,
    pub acc: u8,
}

/// The meaning of one Echo instruction.
pub open spec fn echo_next(s: EchoState, t: Seq<u8>) -> (bool, EchoState, Seq<u8>) {
    let len = t.len();
    if s.pc >= len {
        (false, s, t)
    } else {
        let r = (s.rp as nat % len) as int;
        let w = ((s.rp as nat + s.delay as nat) % len) as int;
        let op = t[s.pc as int];
        let pc1 = (s.pc + 1) as usize;
        let rp1 = s.rp.wrapping_add(1);
        if op == HALT {
            (false, s, t)
        } else if op == ECHO {
            (true, EchoState { pc: pc1, rp: rp1, delay: s.delay, acc: s.acc }, t.update(w, t[r]))
        } else if op == LOAD {
            (true, EchoState { pc: pc1, rp: rp1, delay: s.delay, acc: t[r] }, t)
        } else if op == STORE {
            (true, EchoState { pc: pc1, rp: s.rp, delay: s.delay, acc: s.acc }, t.update(w, s.acc))
        } else if op == SKIP {
            (true, EchoState { pc: pc1, rp: rp1, delay: s.delay, acc: s.acc }, t)
        } else if op == SET_DELAY {
            if s.pc + 1 >= len {
                (false, s, t)
            } else {
                (
                    true,
                    EchoState {
                        pc: (s.pc + 2) as usize,
                        rp: s.rp,
                        delay: t[s.pc + 1],
                        acc: s.acc,
                    },
                    t,
                )
            }
        } else if op == INC {
            (
                true,
                EchoState { pc: pc1, rp: s.rp, delay: s.delay, acc: s.acc.wrapping_add(1) },
                t,
            )
        } else if op == DEC {
            (
                true,
                EchoState { pc: pc1, rp: s.rp, delay: s.delay, acc: s.acc.wrapping_sub(1) },
                t,
            )
        } else if op == XOR {
            (true, EchoState { pc: pc1, rp: s.rp, delay: s.delay, acc: s.acc ^ t[r] }, t)
        } else if op == ADD {
            (
                true,
                EchoState { pc: pc1, rp: rp1, delay: s.delay, acc: s.acc.wrapping_add(t[r]) },
                t,
            )
        } else if op == JMP_REL || op == JZ || op == JNZ {
            if s.pc + 1 >= len {
                (false, s, t)
            } else if op == JMP_REL || (op == JZ) == (s.acc == 0) {
                match rel_jump(s.pc, t[s.pc + 1] as i8) {
                    Some(np) => (true, EchoState { pc: np, rp: s.rp, delay: s.delay, acc: s.acc }, t),
                    None => (false, s, t),
                }
            } else {
                (
                    true,
                    EchoState { pc: (s.pc + 2) as usize, rp: s.rp, delay: s.delay, acc: s.acc },
                    t,
                )
            }
        } else if op == SKIP_EQ {
            let npc = if t[r] == t[w] {
                (s.pc + 2) as usize
            } else {
                pc1
            };
            (true, EchoState { pc: npc, rp: s.rp, delay: s.delay, acc: s.acc }, t)
        } else if op == GET_DELAY {
            (true, EchoState { pc: pc1, rp: s.rp, delay: s.delay, acc: s.delay }, t)
        } else if op == SET_RP {
            (true, EchoState { pc: pc1, rp: s.acc, delay: s.delay, acc: s.acc }, t)
        } else {
            (true, EchoState { pc: pc1, rp: s.rp, delay: s.delay, acc: s.acc }, t)
        }
    }
}

/// Execute one Echo instruction. Returns true if still running.
pub fn echo_step(state: &mut EchoState, tape: &mut [u8]) -> (go: bool)
    requires
        old(tape)@.len() <= isize::MAX,
    ensures
        (go, *final(state), final(tape)@) == echo_next(*old(state), old(tape)@),
{
    let len = tape.len();
    if state.pc >= len {
        return false;
    }

    let r = state.rp as usize % len;
    let w = (state.rp as usize + state.delay as usize) % len;
    let op = tape[state.pc];
    if op == HALT {
        return false;
    } else if op == ECHO {
        tape[w] = tape[r];
        state.rp = state.rp.wrapping_add(1);
    } else if op == LOAD {
        state.acc = tape[r];
        state.rp = state.rp.wrapping_add(1);
    } else if op == STORE {
        tape[w] = state.acc;
    } else if op == SKIP {
        state.rp = state.rp.wrapping_add(1);
    } else if op == SET_DELAY {
        if state.pc + 1 >= len {
            return false;
        }
        state.delay = tape[state.pc + 1];
        state.pc = state.pc + 2;
        return true;
    } else if op == INC {
        state.acc = state.acc.wrapping_add(1);
    } else if op == DEC {
        state.acc = state.acc.wrapping_sub(1);
    } else if op == XOR {
        state.acc = state.acc ^ tape[r];
    } else if op == ADD {
        state.acc = state.acc.wrapping_add(tape[r]);
        state.rp = state.rp.wrapping_add(1);
    } else if op == JMP_REL || op == JZ || op == JNZ {
        if state.pc + 1 >= len {
            return false;
        }
        if op == JMP_REL || (op == JZ) == (state.acc == 0) {
            match rel_jump_exec(state.pc, tape[state.pc + 1] as i8) {
                Some(np) => {
                    state.pc = np;
                    return true;
                },
                None => {
                    return false;
                },
            }
        }
        state.pc = state.pc + 2;
        return true;
    } else if op == SKIP_EQ {
        if tape[r] == tape[w] {
            state.pc = state.pc + 2;
            return true;
        }
    } else if op == GET_DELAY {
        state.acc = state.delay;
    } else if op == SET_RP {
        state.rp = state.acc;
    }
    state.pc = state.pc + 1;
    true
}

impl Stepper for Echo {
    type State = EchoState;

    open spec fn spec_live(s: EchoState, tape: Seq<u8>) -> bool {
        s.pc < tape.len()
    }

    open spec fn spec_step(s: EchoState, tape: Seq<u8>) -> (bool, EchoState, Seq<u8>) {
        echo_next(s, tape)
    }

    fn live(s: &EchoState, tape: &[u8]) -> (b: bool) {
        s.pc < tape.len()
    }

    fn step(s: &mut EchoState, tape: &mut [u8]) -> (go: bool) {
        echo_step(s, tape)
    }

    proof fn lemma_step_len(s: EchoState, tape: Seq<u8>) {
    }
}

/// What `Echo::execute` computes: the final tape and the step count.
pub open spec fn echo_execute(t: Seq<u8>, step_limit: nat) -> (Seq<u8>, nat) {
    if t.len() == 0 {
        (t, 0)
    } else {
        run::<Echo>(EchoState { pc: 0, rp: 0, delay: (t.len() / 2) as u8, acc: 0 }, t, step_limit)
    }
}

/// What `Echo::execute_battle` computes: both contexts use delay `ps`;
/// context A starts at 0 reading from 0, context B at `ps` reading from `ps`.
pub open spec fn echo_execute_battle(t: Seq<u8>, ps: nat, step_limit: nat) -> (Seq<u8>, nat) {
    if t.len() == 0 {
        (t, 0)
    } else {
        battle::<Echo>(
            EchoState { pc: 0, rp: 0, delay: ps as u8, acc: 0 },
            EchoState { pc: ps as usize, rp: ps as u8, delay: ps as u8, acc: 0 },
            false,
            false,
            t,
            step_limit,
        )
    }
}

/// The mnemonic of an Echo opcode without an operand byte.
pub open spec fn echo_name(op: u8) -> Seq<char> {
    if op == HALT {
        "HALT"@
    } else if op == ECHO {
        "ECHO"@
    } else if op == LOAD {
        "LOAD"@
    } else if op == STORE {
        "STORE"@
    } else if op == SKIP {
        "SKIP"@
    } else if op == SET_DELAY {
        "SET_DELAY"@
    } else if op == INC {
        "INC"@
    } else if op == DEC {
        "DEC"@
    } else if op == XOR {
        "XOR"@
    } else if op == ADD {
        "ADD"@
    } else if op == JMP_REL {
        "JMP_REL"@
    } else if op == JZ {
        "JZ"@
    } else if op == JNZ {
        "JNZ"@
    } else if op == SKIP_EQ {
        "SKIP_EQ"@
    } else if op == GET_DELAY {
        "GET_DELAY"@
    } else if op == SET_RP {
        "SET_RP"@
    } else {
        "NOP"@
    }
}

fn echo_name_exec(op: u8) -> (s: &'static str)
    ensures
        s@ == echo_name(op),
{
    if op == HALT {
        "HALT"
    } else if op == ECHO {
        "ECHO"
    } else if op == LOAD {
        "LOAD"
    } else if op == STORE {
        "STORE"
    } else if op == SKIP {
        "SKIP"
    } else if op == SET_DELAY {
        "SET_DELAY"
    } else if op == INC {
        "INC"
    } else if op == DEC {
        "DEC"
    } else if op == XOR {
        "XOR"
    } else if op == ADD {
        "ADD"
    } else if op == JMP_REL {
        "JMP_REL"
    } else if op == JZ {
        "JZ"
    } else if op == JNZ {
        "JNZ"
    } else if op == SKIP_EQ {
        "SKIP_EQ"
    } else if op == GET_DELAY {
        "GET_DELAY"
    } else if op == SET_RP {
        "SET_RP"
    } else {
        "NOP"
    }
}

/// The description and length of the instruction at `pc`.
pub open spec fn echo_desc(t: Seq<u8>, pc: int) -> (Seq<char>, nat) {
    let op = t[pc];
    if op == SET_DELAY || op == JMP_REL || op == JZ || op == JNZ {
        if pc + 1 < t.len() {
            if op == SET_DELAY {
                (echo_name(op) + " "@ + dec(t[pc + 1] as nat), 2)
            } else {
                let offset = (t[pc + 1] as i8) as int;
                (
                    echo_name(op) + " "@ + signed_dec(offset, true) + " (-> "@ + signed_dec(
                        pc + 2 + offset,
                        false,
                    ) + ")"@,
                    2,
                )
            }
        } else {
            (echo_name(op) + " ???"@, 1)
        }
    } else {
        (echo_name(op), 1)
    }
}

fn echo_desc_exec(tape: &[u8], pc: usize) -> (r: (String, usize))
    requires
        pc < tape@.len() <= isize::MAX,
    ensures
        (r.0@, r.1 as nat) == echo_desc(tape@, pc as int),
{
    let op = tape[pc];
    let mut s = String::new();
    s.append(echo_name_exec(op));
    if op == SET_DELAY || op == JMP_REL || op == JZ || op == JNZ {
        if pc + 1 < tape.len() {
            s.append(" ");
            if op == SET_DELAY {
                push_dec(&mut s, tape[pc + 1] as usize);
            } else {
                let offset = tape[pc + 1] as i8;
                push_signed(&mut s, offset as i128, true);
                s.append(" (-> ");
                push_signed(&mut s, pc as i128 + 2 + offset as i128, false);
                s.append(")");
            }
            assert(s@ =~= echo_desc(tape@, pc as int).0);
            (s, 2)
        } else {
            s.append(" ???");
            assert(s@ =~= echo_desc(tape@, pc as int).0);
            (s, 1)
        }
    } else {
        (s, 1)
    }
}

impl Lister for Echo {
    open spec fn spec_line(t: Seq<u8>, pc: nat) -> (Seq<char>, nat) {
        let (desc, size) = echo_desc(t, pc as int);
        (hex(pc, 4) + ": "@ + hex(t[pc as int] as nat, 2) + "  "@ + desc + "\n"@, size)
    }

    fn line(t: &[u8], pc: usize) -> (r: (String, usize)) {
        let (desc, size) = echo_desc_exec(t, pc);
        let mut s = String::new();
        push_hex(&mut s, pc, 4);
        s.append(": ");
        push_hex(&mut s, t[pc] as usize, 2);
        s.append("  ");
        s.append(desc.as_str());
        s.append("\n");
        assert(s@ =~= Self::spec_line(t@, pc as nat).0);
        (s, size)
    }
}

impl Substrate for Echo {
    open spec fn spec_execute(tape: Seq<u8>, step_limit: nat) -> (Seq<u8>, nat) {
        echo_execute(tape, step_limit)
    }

    open spec fn spec_execute_battle(tape: Seq<u8>, ps: nat, step_limit: nat) -> (Seq<u8>, nat) {
        echo_execute_battle(tape, ps, step_limit)
    }

    fn execute(tape: &mut [u8], step_limit: usize) -> (steps: usize)
    {
        let len = tape.len();
        if len == 0 {
            return 0;
        }
        let mut state = EchoState { pc: 0, rp: 0, delay: (len / 2) as u8, acc: 0 };
        run_solo::<Echo>(&mut state, tape, step_limit)
    }

    fn execute_battle(tape: &mut [u8], ps: usize, step_limit: usize) -> (steps: usize)
    {
        let len = tape.len();
        if len == 0 {
            return 0;
        }
        let mut a = EchoState { pc: 0, rp: 0, delay: ps as u8, acc: 0 };
        let mut b = EchoState { pc: ps, rp: ps as u8, delay: ps as u8, acc: 0 };
        run_battle::<Echo>(&mut a, &mut b, tape, step_limit)
    }

    open spec fn spec_is_instruction(byte: u8) -> bool {
        byte <= SET_RP
    }

    fn is_instruction(byte: u8) -> (r: bool) {
        byte <= SET_RP
    }

    fn disassemble(tape: &[u8]) -> (out: String)
        ensures
            out@ == listing::<Echo>(tape@, 0),
    {
        list::<Echo>(tape)
    }
}

/// A byte that is no instruction only moves the program counter on: the
/// registers and the tape stay as they are.
pub proof fn law_non_instruction_only_advances(s: EchoState, t: Seq<u8>)
    requires
        s.pc < t.len(),
        !Echo::spec_is_instruction(t[s.pc as int]),
    ensures
        echo_next(s, t) == (
            true,
            EchoState { pc: (s.pc + 1) as usize, rp: s.rp, delay: s.delay, acc: s.acc },
            t,
        ),
{
}

/// The data ops, with `r` the read cell (rp around the tape) and `w` the
/// write cell, `delay` cells after it: ECHO copies the byte at r to w, LOAD
/// takes it into the accumulator, STORE puts the accumulator at w, ADD adds
/// it (mod 256) and XOR mixes it into the accumulator, INC and DEC add or
/// take one (mod 256), GET_DELAY loads the delay, SET_RP moves the read
/// pointer to the accumulator's value. ECHO, LOAD, SKIP and ADD move the
/// read pointer on by one (mod 256). Only the cell at w can change, the
/// delay stays, and the flow moves on by one.
pub proof fn law_data_ops(s: EchoState, t: Seq<u8>)
    requires
        s.pc < t.len() <= usize::MAX,
        ({
            let op = t[s.pc as int];
            op == ECHO || op == LOAD || op == STORE || op == SKIP || op == INC || op == DEC || op
                == XOR || op == ADD || op == GET_DELAY || op == SET_RP
        }),
    ensures
        ({
            let (go, s2, t2) = echo_next(s, t);
            let op = t[s.pc as int];
            let len = t.len() as int;
            let r = s.rp as int % len;
            let w = (s.rp + s.delay) % len;
            &&& go
            &&& s2.pc == s.pc + 1
            &&& s2.delay == s.delay
            &&& t2.len() == t.len()
            &&& forall|i: int| 0 <= i < len && i != w ==> t2[i] == t[i]
            &&& t2[w] == if op == ECHO { t[r] } else if op == STORE { s.acc } else { t[w] }
            &&& s2.rp as int == if op == ECHO || op == LOAD || op == SKIP || op == ADD {
                (s.rp + 1) % 256
            } else if op == SET_RP {
                s.acc as int
            } else {
                s.rp as int
            }
            &&& s2.acc as int == if op == LOAD {
                t[r] as int
            } else if op == ADD {
                (s.acc + t[r]) % 256
            } else if op == XOR {
                (s.acc ^ t[r]) as int
            } else if op == INC {
                (s.acc + 1) % 256
            } else if op == DEC {
                (s.acc + 255) % 256
            } else if op == GET_DELAY {
                s.delay as int
            } else {
                s.acc as int
            }
        }),
{
    let len = t.len() as int;
    let r = s.rp as int % len;
    lemma_byte_arith(s.rp, 1, s.rp.wrapping_add(1), s.rp.wrapping_sub(1));
    lemma_byte_arith(s.acc, 1, s.acc.wrapping_add(1), s.acc.wrapping_sub(1));
    lemma_byte_arith(s.acc, t[r], s.acc.wrapping_add(t[r]), s.acc.wrapping_sub(t[r]));
}

/// The control ops: SET_DELAY takes the next byte as the new delay and skips
/// it; SKIP_EQ skips the next byte when the read and write cells hold the
/// same byte; JMP_REL, JZ and JNZ read a signed offset from the next byte
/// and, when taken (always, on a zero or on a nonzero accumulator), go on
/// at the byte after it plus the offset (stopping before the tape's start),
/// else skip it. With no next byte SET_DELAY and the jumps stop the
/// machine. The tape stays as it is.
pub proof fn law_control_ops(s: EchoState, t: Seq<u8>)
    requires
        s.pc < t.len(),
        t.len() + 128 <= usize::MAX,
        ({
            let op = t[s.pc as int];
            op == SET_DELAY || op == SKIP_EQ || op == JMP_REL || op == JZ || op == JNZ
        }),
    ensures
        ({
            let (go, s2, t2) = echo_next(s, t);
            let op = t[s.pc as int];
            let len = t.len() as int;
            let r = s.rp as int % len;
            let w = (s.rp + s.delay) % len;
            let taken = op == JMP_REL || (op == JZ && s.acc == 0) || (op == JNZ && s.acc != 0);
            let d = t[s.pc + 1] as int;
            let target = s.pc + 2 + if d >= 128 { d - 256 } else { d };
            &&& t2 == t
            &&& op == SKIP_EQ ==> go && s2 == EchoState {
                pc: (if t[r] == t[w] { s.pc + 2 } else { s.pc + 1 }) as usize,
                ..s
            }
            &&& op != SKIP_EQ && s.pc + 1 >= len ==> !go && s2 == s
            &&& op == SET_DELAY && s.pc + 1 < len ==> go && s2 == EchoState {
                pc: (s.pc + 2) as usize,
                delay: t[s.pc + 1],
                ..s
            }
            &&& op != SKIP_EQ && op != SET_DELAY && s.pc + 1 < len ==> {
                &&& taken && target < 0 ==> !go && s2 == s
                &&& taken && target >= 0 ==> go && s2 == EchoState { pc: target as usize, ..s }
                &&& !taken ==> go && s2 == EchoState { pc: (s.pc + 2) as usize, ..s }
            }
        }),
{
    if s.pc + 1 < t.len() {
        let e = t[s.pc + 1];
        lemma_byte_arith(e, 0, e.wrapping_add(0), e.wrapping_sub(0));
    }
}

} // verus!

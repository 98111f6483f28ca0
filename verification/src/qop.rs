use vstd::prelude::*;

use crate::listing::{list, listing, Lister};
use crate::stepper::{rel_jump, rel_jump_exec, run, run_solo, Stepper};
use crate::substrate::Substrate;
use crate::text::{hex, push_hex, push_signed, signed_dec};
use crate::word::lemma_byte_arith;

verus! {

/// The Qop (Queue-Operate-Produce) instruction set: a queue-based substrate.
///
/// Inspired by tag systems and pipeline architectures. Data flows one direction
/// through the tape via a read head (`head`) and write head (`tail`). There is
/// no random access by default: programs must process data in order.
///
/// State:
/// - `pc`: instruction pointer, starts at 0
/// - `head`: read pointer, starts at 0 (front of queue)
/// - `tail`: write pointer, starts at `tape.len() / 2` (back of queue)
/// - `acc`: accumulator register (u8), starts at 0
///
/// All pointer arithmetic wraps modulo tape length.
pub struct Qop;

pub const HALT: u8 = 0x00;

pub const PASS: u8 = 0x01;

pub const EAT: u8 = 0x02;

pub const SPIT: u8 = 0x03;

pub const SKIP: u8 = 0x04;

pub const GAP: u8 = 0x05;

pub const INC: u8 = 0x06;

pub const DEC: u8 = 0x07;

pub const XOR: u8 = 0x08;

pub const JMP_REL: u8 = 0x09;

pub const JZ: u8 = 0x0A;

pub const JNZ: u8 = 0x0B;

pub const SET_HEAD: u8 = 0x0C;

pub const SET_TAIL: u8 = 0x0D;

pub const GET_HEAD: u8 = 0x0E;

pub const GET_TAIL: u8 = 0x0F;

/// The registers of a running Qop program.
#[derive(Clone, Copy)]
pub struct QopState {
    pub pc: usize,
    /// The read position, below the tape's length.
    pub head: usize,
    /// The write position, below the tape's length.
    pub tail: usize,
    pub acc: u8,
}

/// The meaning of one Qop instruction.
pub open spec fn qop_next(s: QopState, t: Seq<u8>) -> (bool, QopState, Seq<u8>) {
    let len = t.len();
    if s.pc >= len {
        (false, s, t)
    } else {
        let h = (s.head as nat % len) as int;
        let w = (s.tail as nat % len) as int;
        let op = t[s.pc as int];
        let pc1 = (s.pc + 1) as usize;
        let head1 = ((h + 1) % (len as int)) as usize;
        let tail1 = ((w + 1) % (len as int)) as usize;
        if op == HALT {
            (false, s, t)
        } else if op == PASS {
            (true, QopState { pc: pc1, head: head1, tail: tail1, acc: s.acc }, t.update(w, t[h]))
        } else if op == EAT {
            (true, QopState { pc: pc1, head: head1, tail: s.tail, acc: t[h] }, t)
        } else if op == SPIT {
            (true, QopState { pc: pc1, head: s.head, tail: tail1, acc: s.acc }, t.update(w, s.acc))
        } else if op == SKIP {
            (true, QopState { pc: pc1, head: head1, tail: s.tail, acc: s.acc }, t)
        } else if op == GAP {
            (true, QopState { pc: pc1, head: s.head, tail: tail1, acc: s.acc }, t.update(w, 0))
        } else if op == INC {
            (true, QopState { pc: pc1, head: s.head, tail: s.tail, acc: s.acc.wrapping_add(1) }, t)
        } else if op == DEC {
            (true, QopState { pc: pc1, head: s.head, tail: s.tail, acc: s.acc.wrapping_sub(1) }, t)
        } else if op == XOR {
            (true, QopState { pc: pc1, head: s.head, tail: s.tail, acc: s.acc ^ t[h] }, t)
        } else if op == JMP_REL || op == JZ || op == JNZ {
            if s.pc + 1 >= len {
                (false, s, t)
            } else if op == JMP_REL || (op == JZ) == (s.acc == 0) {
                match rel_jump(s.pc, t[s.pc + 1] as i8) {
                    Some(np) => (true, QopState { pc: np, head: s.head, tail: s.tail, acc: s.acc }, t),
                    None => (false, s, t),
                }
            } else {
                (true, QopState { pc: (s.pc + 2) as usize, head: s.head, tail: s.tail, acc: s.acc }, t)
            }
        } else if op == SET_HEAD {
            (true, QopState { pc: pc1, head: (s.acc as nat % len) as usize, tail: s.tail, acc: s.acc }, t)
        } else if op == SET_TAIL {
            (true, QopState { pc: pc1, head: s.head, tail: (s.acc as nat % len) as usize, acc: s.acc }, t)
        } else if op == GET_HEAD {
            (true, QopState { pc: pc1, head: s.head, tail: s.tail, acc: s.head as u8 }, t)
        } else if op == GET_TAIL {
            (true, QopState { pc: pc1, head: s.head, tail: s.tail, acc: s.tail as u8 }, t)
        } else {
            (true, QopState { pc: pc1, head: s.head, tail: s.tail, acc: s.acc }, t)
        }
    }
}

/// Execute one Qop instruction. Returns true if still running.
pub fn qop_step(state: &mut QopState, tape: &mut [u8]) -> (go: bool)
    requires
        old(tape)@.len() <= isize::MAX,
    ensures
        (go, *final(state), final(tape)@) == qop_next(*old(state), old(tape)@),
{
    let len = tape.len();
    if state.pc >= len {
        return false;
    }
    let h = state.head % len;
    let w = state.tail % len;
    let op = tape[state.pc];
    if op == HALT {
        return false;
    } else if op == PASS {
        tape[w] = tape[h];
        state.head = (h + 1) % len;
        state.tail = (w + 1) % len;
    } else if op == EAT {
        state.acc = tape[h];
        state.head = (h + 1) % len;
    } else if op == SPIT {
        tape[w] = state.acc;
        state.tail = (w + 1) % len;
    } else if op == SKIP {
        state.head = (h + 1) % len;
    } else if op == GAP {
        tape[w] = 0;
        state.tail = (w + 1) % len;
    } else if op == INC {
        state.acc = state.acc.wrapping_add(1);
    } else if op == DEC {
        state.acc = state.acc.wrapping_sub(1);
    } else if op == XOR {
        state.acc = state.acc ^ tape[h];
    } else if op == JMP_REL || op == JZ || op == JNZ {
        if state.pc + 1 >= len {
            return false;
        }
        if op == JMP_REL || (op == JZ) == (state.acc == 0) {
            match rel_jump_exec(state.pc, tape[state.pc + 1] as i8) {
                Some(np) => {
                    state.pc = np;
                    return true;
                },
                None => {
                    return false;
                },
            }
        }
        state.pc = state.pc + 2;
        return true;
    } else if op == SET_HEAD {
        state.head = state.acc as usize % len;
    } else if op == SET_TAIL {
        state.tail = state.acc as usize % len;
    } else if op == GET_HEAD {
        state.acc = state.head as u8;
    } else if op == GET_TAIL {
        state.acc = state.tail as u8;
    }
    state.pc = state.pc + 1;
    true
}

impl Stepper for Qop {
    type State = QopState;

    open spec fn spec_live(s: QopState, tape: Seq<u8>) -> bool {
        s.pc < tape.len()
    }

    open spec fn spec_step(s: QopState, tape: Seq<u8>) -> (bool, QopState, Seq<u8>) {
        qop_next(s, tape)
    }

    fn live(s: &QopState, tape: &[u8]) -> (b: bool) {
        s.pc < tape.len()
    }

    fn step(s: &mut QopState, tape: &mut [u8]) -> (go: bool) {
        qop_step(s, tape)
    }

    proof fn lemma_step_len(s: QopState, tape: Seq<u8>) {
    }
}

/// What `Qop::execute` computes: the final tape and the step count.
pub open spec fn qop_execute(t: Seq<u8>, step_limit: nat) -> (Seq<u8>, nat) {
    if t.len() == 0 {
        (t, 0)
    } else {
        run::<Qop>(QopState { pc: 0, head: 0, tail: (t.len() / 2) as usize, acc: 0 }, t, step_limit)
    }
}

/// The mnemonic of a Qop opcode.
pub open spec fn qop_name(op: u8) -> Seq<char> {
    if op == HALT {
        "HALT"@
    } else if op == PASS {
        "PASS"@
    } else if op == EAT {
        "EAT"@
    } else if op == SPIT {
        "SPIT"@
    } else if op == SKIP {
        "SKIP"@
    } else if op == GAP {
        "GAP"@
    } else if op == INC {
        "INC"@
    } else if op == DEC {
        "DEC"@
    } else if op == XOR {
        "XOR"@
    } else if op == JMP_REL {
        "JMP_REL"@
    } else if op == JZ {
        "JZ"@
    } else if op == JNZ {
        "JNZ"@
    } else if op == SET_HEAD {
        "SET_HEAD"@
    } else if op == SET_TAIL {
        "SET_TAIL"@
    } else if op == GET_HEAD {
        "GET_HEAD"@
    } else if op == GET_TAIL {
        "GET_TAIL"@
    } else {
        "NOP"@
    }
}

fn qop_name_exec(op: u8) -> (s: &'static str)
    ensures
        s@ == qop_name(op),
{
    if op == HALT {
        "HALT"
    } else if op == PASS {
        "PASS"
    } else if op == EAT {
        "EAT"
    } else if op == SPIT {
        "SPIT"
    } else if op == SKIP {
        "SKIP"
    } else if op == GAP {
        "GAP"
    } else if op == INC {
        "INC"
    } else if op == DEC {
        "DEC"
    } else if op == XOR {
        "XOR"
    } else if op == JMP_REL {
        "JMP_REL"
    } else if op == JZ {
        "JZ"
    } else if op == JNZ {
        "JNZ"
    } else if op == SET_HEAD {
        "SET_HEAD"
    } else if op == SET_TAIL {
        "SET_TAIL"
    } else if op == GET_HEAD {
        "GET_HEAD"
    } else if op == GET_TAIL {
        "GET_TAIL"
    } else {
        "NOP"
    }
}

/// Whether `op` is one of the relative jumps.
pub open spec fn qop_is_jump(op: u8) -> bool {
    op == JMP_REL || op == JZ || op == JNZ
}

/// The description and length of the instruction at `pc`.
pub open spec fn qop_desc(t: Seq<u8>, pc: int) -> (Seq<char>, nat) {
    let op = t[pc];
    if qop_is_jump(op) {
        if pc + 1 < t.len() {
            let offset = (t[pc + 1] as i8) as int;
            (
                qop_name(op) + " "@ + signed_dec(offset, true) + " (-> "@ + signed_dec(
                    pc + 2 + offset,
                    false,
                ) + ")"@,
                2,
            )
        } else {
            (qop_name(op) + " ???"@, 1)
        }
    } else {
        (qop_name(op), 1)
    }
}

/// The address shown on the line of the instruction at `pc` of length
/// `size`: the position after it, less two for a jump when that is at
/// least 2, less one otherwise.
pub open spec fn qop_shown_addr(t: Seq<u8>, pc: int, size: nat) -> int {
    if qop_is_jump(t[pc]) && pc + size >= 2 {
        pc + size - 2
    } else {
        pc + size - 1
    }
}

fn qop_desc_exec(tape: &[u8], pc: usize) -> (r: (String, usize))
    requires
        pc < tape@.len() <= isize::MAX,
    ensures
        (r.0@, r.1 as nat) == qop_desc(tape@, pc as int),
{
    let op = tape[pc];
    let mut s = String::new();
    s.append(qop_name_exec(op));
    if op == JMP_REL || op == JZ || op == JNZ {
        if pc + 1 < tape.len() {
            let offset = tape[pc + 1] as i8;
            s.append(" ");
            push_signed(&mut s, offset as i128, true);
            s.append(" (-> ");
            push_signed(&mut s, pc as i128 + 2 + offset as i128, false);
            s.append(")");
            assert(s@ =~= qop_desc(tape@, pc as int).0);
            (s, 2)
        } else {
            s.append(" ???");
            assert(s@ =~= qop_desc(tape@, pc as int).0);
            (s, 1)
        }
    } else {
        (s, 1)
    }
}

impl Lister for Qop {
    open spec fn spec_line(t: Seq<u8>, pc: nat) -> (Seq<char>, nat) {
        let (desc, size) = qop_desc(t, pc as int);
        let addr = qop_shown_addr(t, pc as int, size);
        (hex(addr as nat, 4) + ": "@ + hex(t[pc as int] as nat, 2) + "  "@ + desc + "\n"@, size)
    }

    fn line(t: &[u8], pc: usize) -> (r: (String, usize)) {
        let (desc, size) = qop_desc_exec(t, pc);
        let op = t[pc];
        let shown = if (op == JMP_REL || op == JZ || op == JNZ) && pc + size >= 2 {
            pc + size - 2
        } else {
            pc + size - 1
        };
        let mut s = String::new();
        push_hex(&mut s, shown, 4);
        s.append(": ");
        push_hex(&mut s, op as usize, 2);
        s.append("  ");
        s.append(desc.as_str());
        s.append("\n");
        assert(s@ =~= Self::spec_line(t@, pc as nat).0);
        (s, size)
    }
}

impl Substrate for Qop {
    open spec fn spec_execute(tape: Seq<u8>, step_limit: nat) -> (Seq<u8>, nat) {
        qop_execute(tape, step_limit)
    }

    /// Without a battle mode of its own, a battle runs the plain execution.
    open spec fn spec_execute_battle(tape: Seq<u8>, ps: nat, step_limit: nat) -> (Seq<u8>, nat) {
        Self::spec_execute(tape, step_limit)
    }

    fn execute_battle(tape: &mut [u8], ps: usize, step_limit: usize) -> (steps: usize) {
        Self::execute(tape, step_limit)
    }

    fn execute(tape: &mut [u8], step_limit: usize) -> (steps: usize)
    {
        let len = tape.len();
        if len == 0 {
            return 0;
        }
        let mut state = QopState { pc: 0, head: 0, tail: len / 2, acc: 0 };
        run_solo::<Qop>(&mut state, tape, step_limit)
    }

    open spec fn spec_is_instruction(byte: u8) -> bool {
        byte <= GET_TAIL
    }

    fn is_instruction(byte: u8) -> (r: bool) {
        byte <= GET_TAIL
    }

    fn disassemble(tape: &[u8]) -> (out: String)
        ensures
            out@ == listing::<Qop>(tape@, 0),
    {
        list::<Qop>(tape)
    }
}

/// A byte that is no instruction only moves the program counter on: the
/// queue pointers, the accumulator and the tape stay as they are.
pub proof fn law_non_instruction_only_advances(s: QopState, t: Seq<u8>)
    requires
        s.pc < t.len(),
        !Qop::spec_is_instruction(t[s.pc as int]),
    ensures
        qop_next(s, t) == (
            true,
            QopState { pc: (s.pc + 1) as usize, head: s.head, tail: s.tail, acc: s.acc },
            t,
        ),
{
}

/// The three ops that write to the queue (PASS, SPIT, GAP) each put one
/// byte at the tail position (the byte under the head, the accumulator, and
/// 0 respectively) and move the tail on by one, around the tape. PASS also
/// moves the head on; SPIT and GAP leave it. Nothing else on the tape
/// changes, and the accumulator stays.
pub proof fn law_queue_writes_advance_tail(s: QopState, t: Seq<u8>)
    requires
        s.pc < t.len() <= usize::MAX,
        t[s.pc as int] == PASS || t[s.pc as int] == SPIT || t[s.pc as int] == GAP,
    ensures
        ({
            let (go, s2, t2) = qop_next(s, t);
            let op = t[s.pc as int];
            let h = (s.head as nat % t.len()) as int;
            let w = (s.tail as nat % t.len()) as int;
            let v: u8 = if op == PASS {
                t[h]
            } else if op == SPIT {
                s.acc
            } else {
                0
            };
            &&& go
            &&& s2.pc == s.pc + 1
            &&& t2.len() == t.len()
            &&& t2[w] == v
            &&& forall|i: int| 0 <= i < t.len() && i != w ==> t2[i] == t[i]
            &&& s2.tail == (w + 1) % (t.len() as int)
            &&& s2.head == if op == PASS { ((h + 1) % (t.len() as int)) as usize } else { s.head }
            &&& s2.acc == s.acc
        }),
{
}

/// The two ops that read from the queue (EAT, SKIP) move the head on by one,
/// around the tape; EAT takes the byte under the head into the accumulator.
/// The tail and the tape stay as they are.
pub proof fn law_queue_reads_advance_head(s: QopState, t: Seq<u8>)
    requires
        s.pc < t.len() <= usize::MAX,
        t[s.pc as int] == EAT || t[s.pc as int] == SKIP,
    ensures
        ({
            let (go, s2, t2) = qop_next(s, t);
            let h = (s.head as nat % t.len()) as int;
            &&& go
            &&& s2.pc == s.pc + 1
            &&& t2 == t
            &&& s2.head == (h + 1) % (t.len() as int)
            &&& s2.tail == s.tail
            &&& s2.acc == if t[s.pc as int] == EAT { t[h] } else { s.acc }
        }),
{
}

/// The accumulator ops: INC and DEC add or take one (mod 256), XOR mixes
/// in the byte under the head, GET_HEAD and GET_TAIL load the low byte of
/// the head or tail position, SET_HEAD and SET_TAIL move the head or tail to
/// the accumulator's value (around the tape). The tape stays and the flow
/// moves on by one.
pub proof fn law_accumulator_and_pointer_ops(s: QopState, t: Seq<u8>)
    requires
        s.pc < t.len() <= usize::MAX,
        ({
            let op = t[s.pc as int];
            op == INC || op == DEC || op == XOR || op == GET_HEAD || op == GET_TAIL || op == SET_HEAD
                || op == SET_TAIL
        }),
    ensures
        ({
            let (go, s2, t2) = qop_next(s, t);
            let op = t[s.pc as int];
            let len = t.len();
            let h = (s.head as nat % len) as int;
            &&& go
            &&& t2 == t
            &&& s2.pc == s.pc + 1
            &&& s2.head == if op == SET_HEAD { s.acc as nat % len } else { s.head as nat }
            &&& s2.tail == if op == SET_TAIL { s.acc as nat % len } else { s.tail as nat }
            &&& op == INC ==> s2.acc as int == (s.acc + 1) % 256
            &&& op == DEC ==> s2.acc as int == (s.acc + 255) % 256
            &&& op == XOR ==> s2.acc == s.acc ^ t[h]
            &&& op == GET_HEAD ==> s2.acc as int == s.head % 256
            &&& op == GET_TAIL ==> s2.acc as int == s.tail % 256
            &&& (op == SET_HEAD || op == SET_TAIL) ==> s2.acc == s.acc
        }),
{
    lemma_byte_arith(s.acc, 1, s.acc.wrapping_add(1), s.acc.wrapping_sub(1));
    let hd = s.head;
    let tl = s.tail;
    assert((hd as u8) as int == hd as int % 256 && (tl as u8) as int == tl as int % 256)
        by (bit_vector);
}

/// The jumps JMP_REL, JZ and JNZ read a signed offset from the next byte:
/// when taken (JMP_REL always, JZ on a zero accumulator, JNZ on a nonzero
/// one) the flow goes on at the byte after the offset plus the offset, and
/// stops where that lies before the tape; when not taken it skips the
/// offset. With no offset byte on the tape the machine stops. The registers
/// and the tape stay as they are.
pub proof fn law_relative_jumps(s: QopState, t: Seq<u8>)
    requires
        s.pc < t.len(),
        t.len() + 128 <= usize::MAX,
        t[s.pc as int] == JMP_REL || t[s.pc as int] == JZ || t[s.pc as int] == JNZ,
    ensures
        ({
            let (go, s2, t2) = qop_next(s, t);
            let op = t[s.pc as int];
            let taken = op == JMP_REL || (op == JZ && s.acc == 0) || (op == JNZ && s.acc != 0);
            let d = t[s.pc + 1] as int;
            let target = s.pc + 2 + if d >= 128 { d - 256 } else { d };
            &&& t2 == t
            &&& s.pc + 1 >= t.len() ==> !go && s2 == s
            &&& s.pc + 1 < t.len() && taken && target < 0 ==> !go && s2 == s
            &&& s.pc + 1 < t.len() && taken && target >= 0 ==> go && s2 == QopState {
                pc: target as usize,
                ..s
            }
            &&& s.pc + 1 < t.len() && !taken ==> go && s2 == QopState { pc: (s.pc + 2) as usize, ..s }
        }),
{
    if s.pc + 1 < t.len() {
        let e = t[s.pc + 1];
        lemma_byte_arith(e, 0, e.wrapping_add(0), e.wrapping_sub(0));
    }
}

/// Without a battle mode of its own, a battle is the plain run of the tape,
/// whatever the program size.
pub proof fn law_battle_is_plain_run(t: Seq<u8>, program_size: nat, step_limit: nat)
    ensures
        Qop::spec_execute_battle(t, program_size, step_limit) == Qop::spec_execute(t, step_limit),
{
}

} // verus!

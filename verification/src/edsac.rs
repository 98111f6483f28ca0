use vstd::prelude::*;

use crate::listing::{list, listing, Lister};
use crate::stepper::{run, run_solo, Stepper};
use crate::substrate::Substrate;
use crate::text::{dec, hex, push_dec, push_hex};
use crate::word::{
    doubled16, halved, le16, lemma_nibbles, lemma_put16_reads_back, lemma_shifts16, lemma_wrap16_add, lemma_wrapping16, neg16, put16, read_i16, wrap16,
    wrapping_neg16, write_i16,
};

verus! {

/// The EDSAC (Electronic Delay Storage Automatic Calculator) substrate.
///
/// EDSAC, completed in 1949 at the University of Cambridge, was the first
/// practical stored-program computer: the first machine to run a program
/// loaded entirely from its own memory rather than from plugboards or paper
/// tape. Its mercury delay-line memory stored both instructions and data in
/// the same address space, establishing the von Neumann architecture that
/// underpins nearly every computer built since.
///
/// This substrate maps EDSAC onto a byte tape using 2-byte words:
/// - First byte of each instruction word: opcode (low 5 bits)
/// - Second byte: operand address (word index, modulo num_words)
/// - Data words are stored as little-endian i16 with wrapping arithmetic
///
/// State:
/// - `pc`: program counter (word index), starts at 0
/// - `acc`: accumulator (i16, wrapping), starts at 0
/// - Number of words = tape.len() / 2
pub struct Edsac;

pub const HALT: u8 = 0x00;

pub const ADD: u8 = 0x01;

pub const SUB: u8 = 0x02;

pub const LOAD: u8 = 0x03;

pub const STORE: u8 = 0x04;

pub const LOAD_NEG: u8 = 0x05;

pub const AND: u8 = 0x06;

pub const SHIFT_L: u8 = 0x07;

pub const SHIFT_R: u8 = 0x08;

pub const JMP: u8 = 0x09;

pub const JN: u8 = 0x0A;

pub const NOP: u8 = 0x0B;

pub const STORE_CLR: u8 = 0x0C;

pub const MULT_ADD: u8 = 0x0D;

/// The word at word address `word_addr` (modulo the number of words).
pub open spec fn edsac_word(t: Seq<u8>, word_addr: nat) -> i16 {
    let off = ((word_addr % (t.len() / 2)) * 2) as int;
    le16(t[off], t[off + 1])
}

/// The tape with `val` written at word address `word_addr` (modulo the number of words).
pub open spec fn edsac_put(t: Seq<u8>, word_addr: nat, val: i16) -> Seq<u8> {
    put16(t, ((word_addr % (t.len() / 2)) * 2) as int, val)
}

/// Read a little-endian i16 word from the tape at the given word address.
pub fn read_word(tape: &[u8], word_addr: usize, num_words: usize) -> (v: i16)
    requires
        num_words == tape@.len() / 2,
        num_words > 0,
        tape@.len() <= isize::MAX,
    ensures
        v == edsac_word(tape@, word_addr as nat),
{
    let offset = (word_addr % num_words) * 2;
    read_i16(tape, offset)
}

/// Write a little-endian i16 word to the tape at the given word address.
pub fn write_word(tape: &mut [u8], word_addr: usize, num_words: usize, val: i16)
    requires
        num_words == old(tape)@.len() / 2,
        num_words > 0,
        old(tape)@.len() <= isize::MAX,
    ensures
        final(tape)@ == edsac_put(old(tape)@, word_addr as nat, val),
{
    let offset = (word_addr % num_words) * 2;
    write_i16(tape, offset, val)
}

/// The registers of a running EDSAC program; `pc` is kept below the number
/// of words (the machine only ever uses it modulo that number).
#[derive(Clone, Copy)]
pub struct EdsacState {
    pub pc: usize,
    pub acc: i16,
}

/// The meaning of one EDSAC instruction.
pub open spec fn edsac_next(s: EdsacState, t: Seq<u8>) -> (bool, EdsacState, Seq<u8>) {
    let nw = t.len() / 2;
    if nw == 0 {
        (false, s, t)
    } else {
        let off = ((s.pc as nat % nw) * 2) as int;
        let opcode = t[off] & 0x1F;
        let operand = t[off + 1];
        let val = edsac_word(t, operand as nat);
        let pc1 = ((s.pc as nat % nw + 1) % nw) as usize;
        let jump = (operand as nat % nw) as usize;
        if opcode == HALT {
            (false, s, t)
        } else if opcode == ADD {
            (true, EdsacState { pc: pc1, acc: s.acc.wrapping_add(val) }, t)
        } else if opcode == SUB {
            (true, EdsacState { pc: pc1, acc: s.acc.wrapping_sub(val) }, t)
        } else if opcode == LOAD {
            (true, EdsacState { pc: pc1, acc: val }, t)
        } else if opcode == STORE {
            (true, EdsacState { pc: pc1, acc: s.acc }, edsac_put(t, operand as nat, s.acc))
        } else if opcode == LOAD_NEG {
            (true, EdsacState { pc: pc1, acc: neg16(val) }, t)
        } else if opcode == AND {
            (true, EdsacState { pc: pc1, acc: s.acc & val }, t)
        } else if opcode == SHIFT_L {
            (true, EdsacState { pc: pc1, acc: s.acc.wrapping_shl((operand & 0x0F) as u32) }, t)
        } else if opcode == SHIFT_R {
            (true, EdsacState { pc: pc1, acc: s.acc.wrapping_shr((operand & 0x0F) as u32) }, t)
        } else if opcode == JMP {
            (true, EdsacState { pc: jump, acc: s.acc }, t)
        } else if opcode == JN {
            (
                true,
                EdsacState {
                    pc: if s.acc < 0 {
                        jump
                    } else {
                        pc1
                    },
                    acc: s.acc,
                },
                t,
            )
        } else if opcode == STORE_CLR {
            (true, EdsacState { pc: pc1, acc: 0 }, edsac_put(t, operand as nat, s.acc))
        } else if opcode == MULT_ADD {
            (true, EdsacState { pc: pc1, acc: s.acc.wrapping_add(s.acc.wrapping_mul(val)) }, t)
        } else {
            (true, EdsacState { pc: pc1, acc: s.acc }, t)
        }
    }
}

/// Execute one EDSAC instruction. Returns true if still running.
pub fn edsac_step(state: &mut EdsacState, tape: &mut [u8]) -> (go: bool)
    requires
        old(tape)@.len() <= isize::MAX,
    ensures
        (go, *final(state), final(tape)@) == edsac_next(*old(state), old(tape)@),
{
    let nw = tape.len() / 2;
    if nw == 0 {
        return false;
    }
    let off = (state.pc % nw) * 2;
    let opcode = tape[off] & 0x1F;
    let operand = tape[off + 1];
    let val = read_word(tape, operand as usize, nw);
    let pc1 = (state.pc % nw + 1) % nw;
    let jump = operand as usize % nw;
    if opcode == HALT {
        return false;
    } else if opcode == ADD {
        state.acc = state.acc.wrapping_add(val);
    } else if opcode == SUB {
        state.acc = state.acc.wrapping_sub(val);
    } else if opcode == LOAD {
        state.acc = val;
    } else if opcode == STORE {
        write_word(tape, operand as usize, nw, state.acc);
    } else if opcode == LOAD_NEG {
        state.acc = wrapping_neg16(val);
    } else if opcode == AND {
        state.acc = state.acc & val;
    } else if opcode == SHIFT_L {
        state.acc = state.acc.wrapping_shl((operand & 0x0F) as u32);
    } else if opcode == SHIFT_R {
        state.acc = state.acc.wrapping_shr((operand & 0x0F) as u32);
    } else if opcode == JMP {
        state.pc = jump;
        return true;
    } else if opcode == JN {
        if state.acc < 0 {
            state.pc = jump;
            return true;
        }
    } else if opcode == STORE_CLR {
        write_word(tape, operand as usize, nw, state.acc);
        state.acc = 0;
    } else if opcode == MULT_ADD {
        state.acc = state.acc.wrapping_add(state.acc.wrapping_mul(val));
    }
    state.pc = pc1;
    true
}

impl Stepper for Edsac {
    type State = EdsacState;

    open spec fn spec_live(s: EdsacState, tape: Seq<u8>) -> bool {
        true
    }

    open spec fn spec_step(s: EdsacState, tape: Seq<u8>) -> (bool, EdsacState, Seq<u8>) {
        edsac_next(s, tape)
    }

    fn live(s: &EdsacState, tape: &[u8]) -> (b: bool) {
        true
    }

    fn step(s: &mut EdsacState, tape: &mut [u8]) -> (go: bool) {
        edsac_step(s, tape)
    }

    proof fn lemma_step_len(s: EdsacState, tape: Seq<u8>) {
    }
}

/// What `Edsac::execute` computes: the final tape and the step count.
pub open spec fn edsac_execute(t: Seq<u8>, step_limit: nat) -> (Seq<u8>, nat) {
    if t.len() / 2 == 0 {
        (t, 0)
    } else {
        run::<Edsac>(EdsacState { pc: 0, acc: 0 }, t, step_limit)
    }
}

/// The text of the EDSAC instruction word `b0`, `b1`.
pub open spec fn edsac_mnemonic(b0: u8, b1: u8) -> Seq<char> {
    let op = b0 & 0x1F;
    if op == HALT {
        "HALT"@
    } else if op == ADD {
        "ADD "@ + dec(b1 as nat)
    } else if op == SUB {
        "SUB "@ + dec(b1 as nat)
    } else if op == LOAD {
        "LOAD "@ + dec(b1 as nat)
    } else if op == STORE {
        "STORE "@ + dec(b1 as nat)
    } else if op == LOAD_NEG {
        "LOAD_NEG "@ + dec(b1 as nat)
    } else if op == AND {
        "AND "@ + dec(b1 as nat)
    } else if op == SHIFT_L {
        "SHIFT_L "@ + dec((b1 & 0x0F) as nat)
    } else if op == SHIFT_R {
        "SHIFT_R "@ + dec((b1 & 0x0F) as nat)
    } else if op == JMP {
        "JMP "@ + dec(b1 as nat)
    } else if op == JN {
        "JN "@ + dec(b1 as nat)
    } else if op == STORE_CLR {
        "STORE_CLR "@ + dec(b1 as nat)
    } else if op == MULT_ADD {
        "MULT_ADD "@ + dec(b1 as nat)
    } else {
        "NOP"@
    }
}

fn edsac_mnemonic_exec(b0: u8, b1: u8) -> (s: String)
    ensures
        s@ == edsac_mnemonic(b0, b1),
{
    let op = b0 & 0x1F;
    let mut s = String::new();
    if op == HALT {
        s.append("HALT");
    } else if op == NOP || op > MULT_ADD {
        s.append("NOP");
    } else {
        s.append(
            if op == ADD {
                "ADD "
            } else if op == SUB {
                "SUB "
            } else if op == LOAD {
                "LOAD "
            } else if op == STORE {
                "STORE "
            } else if op == LOAD_NEG {
                "LOAD_NEG "
            } else if op == AND {
                "AND "
            } else if op == SHIFT_L {
                "SHIFT_L "
            } else if op == SHIFT_R {
                "SHIFT_R "
            } else if op == JMP {
                "JMP "
            } else if op == JN {
                "JN "
            } else if op == STORE_CLR {
                "STORE_CLR "
            } else {
                "MULT_ADD "
            },
        );
        if op == SHIFT_L || op == SHIFT_R {
            push_dec(&mut s, (b1 & 0x0F) as usize);
        } else {
            push_dec(&mut s, b1 as usize);
        }
    }
    assert(s@ =~= edsac_mnemonic(b0, b1));
    s
}

impl Lister for Edsac {
    open spec fn spec_line(t: Seq<u8>, pc: nat) -> (Seq<char>, nat) {
        if pc + 1 < t.len() {
            let b0 = t[pc as int];
            let b1 = t[pc + 1int];
            (
                hex(pc, 4) + ": "@ + hex(b0 as nat, 2) + " "@ + hex(b1 as nat, 2) + "  "@
                    + edsac_mnemonic(b0, b1) + "\n"@,
                2,
            )
        } else {
            (Seq::empty(), 1)
        }
    }

    fn line(t: &[u8], pc: usize) -> (r: (String, usize)) {
        let mut s = String::new();
        if pc + 1 < t.len() {
            let b0 = t[pc];
            let b1 = t[pc + 1];
            push_hex(&mut s, pc, 4);
            s.append(": ");
            push_hex(&mut s, b0 as usize, 2);
            s.append(" ");
            push_hex(&mut s, b1 as usize, 2);
            s.append("  ");
            let m = edsac_mnemonic_exec(b0, b1);
            s.append(m.as_str());
            s.append("\n");
            assert(s@ =~= Self::spec_line(t@, pc as nat).0);
            (s, 2)
        } else {
            (s, 1)
        }
    }
}

impl Substrate for Edsac {
    open spec fn spec_execute(tape: Seq<u8>, step_limit: nat) -> (Seq<u8>, nat) {
        edsac_execute(tape, step_limit)
    }

    /// Without a battle mode of its own, a battle runs the plain execution.
    open spec fn spec_execute_battle(tape: Seq<u8>, ps: nat, step_limit: nat) -> (Seq<u8>, nat) {
        Self::spec_execute(tape, step_limit)
    }

    fn execute_battle(tape: &mut [u8], ps: usize, step_limit: usize) -> (steps: usize) {
        Self::execute(tape, step_limit)
    }

    fn execute(tape: &mut [u8], step_limit: usize) -> (steps: usize)
    {
        let num_words = tape.len() / 2;
        if num_words == 0 {
            return 0;
        }
        let mut state = EdsacState { pc: 0, acc: 0 };
        run_solo::<Edsac>(&mut state, tape, step_limit)
    }

    open spec fn spec_is_instruction(byte: u8) -> bool {
        (byte & 0x1F) <= MULT_ADD
    }

    fn is_instruction(byte: u8) -> (r: bool) {
        (byte & 0x1F) <= MULT_ADD
    }

    fn disassemble(tape: &[u8]) -> (out: String)
        ensures
            out@ == listing::<Edsac>(tape@, 0),
    {
        list::<Edsac>(tape)
    }
}

/// A word whose opcode is no instruction only moves the program counter on
/// (to the next word, around the end of the tape): the accumulator and the
/// tape stay as they are.
pub proof fn law_non_instruction_only_advances(s: EdsacState, t: Seq<u8>)
    requires
        t.len() / 2 > 0,
        !Edsac::spec_is_instruction(t[((s.pc as nat % (t.len() / 2)) * 2) as int]),
    ensures
        edsac_next(s, t) == (
            true,
            EdsacState {
                pc: ((s.pc as nat % (t.len() / 2) + 1) % (t.len() / 2)) as usize,
                acc: s.acc,
            },
            t,
        ),
{
}

/// The accumulator ops, on the operand word `m`: ADD and SUB add or take
/// it, MULT_ADD adds acc times m, LOAD loads it, LOAD_NEG its negation, AND
/// masks with it, all with 16-bit wrap-around. The tape stays and the next
/// word (around the end of the memory) comes next.
pub proof fn law_accumulator_ops(s: EdsacState, t: Seq<u8>)
    requires
        t.len() / 2 > 0,
        t.len() <= usize::MAX,
        ({
            let op = t[((s.pc as nat % (t.len() / 2)) * 2) as int] & 0x1F;
            op == ADD || op == SUB || op == MULT_ADD || op == LOAD || op == LOAD_NEG || op == AND
        }),
    ensures
        ({
            let (go, s2, t2) = edsac_next(s, t);
            let nw = t.len() / 2;
            let off = ((s.pc as nat % nw) * 2) as int;
            let op = t[off] & 0x1F;
            let w = ((t[off + 1] as nat % nw) * 2) as int;
            let m = le16(t[w], t[w + 1]);
            let a = s.acc as int;
            &&& go
            &&& t2 == t
            &&& s2.pc == (s.pc as nat % nw + 1) % nw
            &&& op == ADD ==> s2.acc == wrap16(a + m)
            &&& op == SUB ==> s2.acc == wrap16(a - m)
            &&& op == MULT_ADD ==> s2.acc == wrap16(a + a * m)
            &&& op == LOAD ==> s2.acc == m
            &&& op == LOAD_NEG ==> s2.acc == wrap16(-m)
            &&& op == AND ==> s2.acc == s.acc & m
        }),
{
    let nw = t.len() / 2;
    let off = ((s.pc as nat % nw) * 2) as int;
    let w = ((t[off + 1] as nat % nw) * 2) as int;
    let m = le16(t[w], t[w + 1]);
    lemma_wrapping16(s.acc, m);
    lemma_wrapping16(0, m);
    let p = s.acc.wrapping_mul(m);
    lemma_wrapping16(s.acc, p);
    assert(wrap16(s.acc + wrap16(s.acc * m)) == wrap16(s.acc + s.acc * m)) by {
        lemma_wrap16_add(s.acc as int, s.acc * m);
    }
}

/// STORE puts the accumulator in the operand word, STORE_CLR does so and
/// then zeroes the accumulator. Only the two bytes of that word change, and
/// the next word comes next.
pub proof fn law_stores(s: EdsacState, t: Seq<u8>)
    requires
        t.len() / 2 > 0,
        t.len() <= usize::MAX,
        ({
            let op = t[((s.pc as nat % (t.len() / 2)) * 2) as int] & 0x1F;
            op == STORE || op == STORE_CLR
        }),
    ensures
        ({
            let (go, s2, t2) = edsac_next(s, t);
            let nw = t.len() / 2;
            let off = ((s.pc as nat % nw) * 2) as int;
            let w = ((t[off + 1] as nat % nw) * 2) as int;
            &&& go
            &&& t2.len() == t.len()
            &&& le16(t2[w], t2[w + 1]) == s.acc
            &&& forall|i: int| 0 <= i < t.len() && i != w && i != w + 1 ==> t2[i] == t[i]
            &&& s2.pc == (s.pc as nat % nw + 1) % nw
            &&& s2.acc == if t[off] & 0x1F == STORE { s.acc } else { 0 }
        }),
{
    let nw = t.len() / 2;
    let off = ((s.pc as nat % nw) * 2) as int;
    let w = ((t[off + 1] as nat % nw) * 2) as int;
    assert(w + 1 < t.len()) by (nonlinear_arith)
        requires
            w == (t[off + 1] as nat % nw) * 2,
            nw == t.len() / 2,
            nw > 0,
    ;
    lemma_put16_reads_back(t, w, s.acc);
}

/// JMP goes to the operand word (around the memory); JN does so only when
/// the accumulator is negative, else goes to the next word. Nothing else
/// changes.
pub proof fn law_jumps(s: EdsacState, t: Seq<u8>)
    requires
        t.len() / 2 > 0,
        t.len() <= usize::MAX,
        ({
            let op = t[((s.pc as nat % (t.len() / 2)) * 2) as int] & 0x1F;
            op == JMP || op == JN
        }),
    ensures
        ({
            let (go, s2, t2) = edsac_next(s, t);
            let nw = t.len() / 2;
            let off = ((s.pc as nat % nw) * 2) as int;
            let target = t[off + 1] as nat % nw;
            &&& go
            &&& t2 == t
            &&& s2.acc == s.acc
            &&& s2.pc == if t[off] & 0x1F == JMP || s.acc < 0 {
                target
            } else {
                (s.pc as nat % nw + 1) % nw
            }
        }),
{
}

/// SHIFT_L and SHIFT_R shift the accumulator by the operand's low four bits
/// `k`: left doubles it `k` times with 16-bit wrap-around, right halves it
/// `k` times rounding down. The tape stays and the next word comes next.
pub proof fn law_shifts(s: EdsacState, t: Seq<u8>)
    requires
        t.len() / 2 > 0,
        t.len() <= usize::MAX,
        ({
            let op = t[((s.pc as nat % (t.len() / 2)) * 2) as int] & 0x1F;
            op == SHIFT_L || op == SHIFT_R
        }),
    ensures
        ({
            let (go, s2, t2) = edsac_next(s, t);
            let nw = t.len() / 2;
            let off = ((s.pc as nat % nw) * 2) as int;
            let k = (t[off + 1] % 16) as nat;
            &&& go
            &&& t2 == t
            &&& s2.pc == (s.pc as nat % nw + 1) % nw
            &&& s2.acc == if t[off] & 0x1F == SHIFT_L {
                doubled16(s.acc as int, k)
            } else {
                halved(s.acc as int, k)
            }
        }),
{
    let nw = t.len() / 2;
    let off = ((s.pc as nat % nw) * 2) as int;
    let o = t[off + 1];
    lemma_nibbles(o);
    lemma_shifts16(s.acc, (o & 0x0F) as u32);
}

/// Without a battle mode of its own, a battle is the plain run of the tape,
/// whatever the program size.
pub proof fn law_battle_is_plain_run(t: Seq<u8>, program_size: nat, step_limit: nat)
    ensures
        Edsac::spec_execute_battle(t, program_size, step_limit) == Edsac::spec_execute(t, step_limit),
{
}

} // verus!

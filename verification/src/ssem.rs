use vstd::prelude::*;

use crate::listing::{list, listing, Lister};
use crate::stepper::{run, run_solo, Stepper};
use crate::substrate::Substrate;
use crate::text::{dec, hex, push_dec, push_hex};
use crate::word::{le32, lemma_put32_reads_back, lemma_wrapping32, put32, read_i32, wrap32, write_i32};

verus! {

/// The Manchester Baby (SSEM) substrate: the world's first stored-program computer (1948).
///
/// The Small-Scale Experimental Machine, built at the University of Manchester by
/// Frederic Williams, Tom Kilburn, and Geoff Tootill, ran its first program on
/// 21 June 1948. It had 32 words of 32-bit storage implemented with Williams tubes
/// (CRT-based memory), a single accumulator register, and seven instructions.
///
/// This adaptation maps the SSEM onto a byte tape. The tape is treated as an
/// array of 32-bit little-endian words (4 bytes per word). The number of words
/// is `tape.len() / 4`; any trailing bytes that do not complete a word are unused.
///
/// State:
/// - `pc`: program counter (Control Instruction), starts at 0
/// - `acc`: accumulator (i32, wrapping arithmetic), starts at 0
///
/// Instruction encoding (per 4-byte word):
/// - Byte 0, bits [2:0]: opcode (0-7)
/// - Byte 1: operand address (modulo number of words)
/// - Bytes 2-3: unused for instruction decode (but part of the 32-bit word for data)
///
/// Opcodes:
/// - 0 (JMP):  CI = Store[S]
/// - 1 (JRP):  CI += Store[S]
/// - 2 (LDN):  A = -Store[S]
/// - 3 (STO):  Store[S] = A
/// - 4 (SUB):  A -= Store[S]
/// - 5 (CMP):  if A < 0, skip next instruction
/// - 6 (STOP): halt
/// - 7 (NOP):  no operation
pub struct Ssem;

pub const JMP: u8 = 0;

pub const JRP: u8 = 1;

pub const LDN: u8 = 2;

pub const STO: u8 = 3;

pub const SUB: u8 = 4;

pub const CMP: u8 = 5;

pub const STOP: u8 = 6;

pub const NOP: u8 = 7;

/// The 32-bit word at word address `word_addr` (modulo the number of words).
pub open spec fn ssem_word(t: Seq<u8>, word_addr: nat) -> i32 {
    let base = ((word_addr % (t.len() / 4)) * 4) as int;
    le32(t[base], t[base + 1], t[base + 2], t[base + 3])
}

/// The tape with `value` written at word address `word_addr` (modulo the number of words).
pub open spec fn ssem_put(t: Seq<u8>, word_addr: nat, value: i32) -> Seq<u8> {
    put32(t, ((word_addr % (t.len() / 4)) * 4) as int, value)
}

/// Read a 32-bit little-endian word from the tape at the given word address.
pub fn read_word(tape: &[u8], word_addr: usize, num_words: usize) -> (v: i32)
    requires
        num_words == tape@.len() / 4,
        num_words > 0,
        tape@.len() <= isize::MAX,
    ensures
        v == ssem_word(tape@, word_addr as nat),
{
    let addr = word_addr % num_words;
    read_i32(tape, addr * 4)
}

/// Write a 32-bit little-endian word to the tape at the given word address.
pub fn write_word(tape: &mut [u8], word_addr: usize, num_words: usize, value: i32)
    requires
        num_words == old(tape)@.len() / 4,
        num_words > 0,
        old(tape)@.len() <= isize::MAX,
    ensures
        final(tape)@ == ssem_put(old(tape)@, word_addr as nat, value),
{
    let addr = word_addr % num_words;
    write_i32(tape, addr * 4, value)
}

/// The registers of a running SSEM program; `pc` stays below the number of words.
#[derive(Clone, Copy)]
pub struct SsemState {
    pub pc: usize,
    pub acc: i32,
}

/// The meaning of one SSEM instruction.
pub open spec fn ssem_next(st: SsemState, t: Seq<u8>) -> (bool, SsemState, Seq<u8>) {
    let nw = t.len() / 4;
    if nw == 0 {
        (false, st, t)
    } else {
        let pc = st.pc as nat % nw;
        let base = (pc * 4) as int;
        let opcode = t[base] & 0x07;
        let operand = t[base + 1] as nat % nw;
        let val = ssem_word(t, operand);
        let pc1 = ((pc + 1) % nw) as usize;
        if opcode == JMP {
            (true, SsemState { pc: ((val as usize) as nat % nw) as usize, acc: st.acc }, t)
        } else if opcode == JRP {
            (
                true,
                SsemState {
                    pc: (((pc as i32).wrapping_add(val) as usize) as nat % nw) as usize,
                    acc: st.acc,
                },
                t,
            )
        } else if opcode == LDN {
            (true, SsemState { pc: pc1, acc: 0i32.wrapping_sub(val) }, t)
        } else if opcode == STO {
            (true, SsemState { pc: pc1, acc: st.acc }, ssem_put(t, operand, st.acc))
        } else if opcode == SUB {
            (true, SsemState { pc: pc1, acc: st.acc.wrapping_sub(val) }, t)
        } else if opcode == CMP {
            (
                true,
                SsemState {
                    pc: if st.acc < 0 {
                        ((pc + 2) % nw) as usize
                    } else {
                        pc1
                    },
                    acc: st.acc,
                },
                t,
            )
        } else if opcode == STOP {
            (false, st, t)
        } else {
            (true, SsemState { pc: pc1, acc: st.acc }, t)
        }
    }
}

/// Execute one SSEM instruction. Returns true if still running.
pub fn ssem_step(st: &mut SsemState, tape: &mut [u8]) -> (go: bool)
    requires
        old(tape)@.len() <= isize::MAX,
    ensures
        (go, *final(st), final(tape)@) == ssem_next(*old(st), old(tape)@),
{
    let nw = tape.len() / 4;
    if nw == 0 {
        return false;
    }
    let pc = st.pc % nw;
    let base = pc * 4;
    let opcode = tape[base] & 0x07;
    let operand = tape[base + 1] as usize % nw;
    let val = read_word(tape, operand, nw);
    if opcode == JMP {
        // CI = Store[S]
        st.pc = (val as usize) % nw;
    } else if opcode == JRP {
        // CI += Store[S]
        st.pc = (pc as i32).wrapping_add(val) as usize % nw;
    } else if opcode == LDN {
        // A = -Store[S]
        st.acc = 0i32.wrapping_sub(val);
        st.pc = (pc + 1) % nw;
    } else if opcode == STO {
        // Store[S] = A
        write_word(tape, operand, nw, st.acc);
        st.pc = (pc + 1) % nw;
    } else if opcode == SUB {
        // A -= Store[S]
        st.acc = st.acc.wrapping_sub(val);
        st.pc = (pc + 1) % nw;
    } else if opcode == CMP {
        // if A < 0 then skip the next instruction
        if st.acc < 0 {
            st.pc = (pc + 2) % nw;
        } else {
            st.pc = (pc + 1) % nw;
        }
    } else if opcode == STOP {
        return false;
    } else {
        st.pc = (pc + 1) % nw;
    }
    true
}

impl Stepper for Ssem {
    type State = SsemState;

    open spec fn spec_live(s: SsemState, tape: Seq<u8>) -> bool {
        true
    }

    open spec fn spec_step(s: SsemState, tape: Seq<u8>) -> (bool, SsemState, Seq<u8>) {
        ssem_next(s, tape)
    }

    fn live(s: &SsemState, tape: &[u8]) -> (b: bool) {
        true
    }

    fn step(s: &mut SsemState, tape: &mut [u8]) -> (go: bool) {
        ssem_step(s, tape)
    }

    proof fn lemma_step_len(s: SsemState, tape: Seq<u8>) {
    }
}

/// What `Ssem::execute` computes: the final tape and the step count.
pub open spec fn ssem_execute(t: Seq<u8>, step_limit: nat) -> (Seq<u8>, nat) {
    if t.len() / 4 == 0 {
        (t, 0)
    } else {
        run::<Ssem>(SsemState { pc: 0, acc: 0 }, t, step_limit)
    }
}

/// The text of the SSEM instruction with first byte `b0` and operand `operand`.
pub open spec fn ssem_mnemonic(b0: u8, operand: nat) -> Seq<char> {
    let op = b0 & 0x07;
    if op == JMP {
        "JMP ["@ + dec(operand) + "]"@
    } else if op == JRP {
        "JRP ["@ + dec(operand) + "]"@
    } else if op == LDN {
        "LDN ["@ + dec(operand) + "]"@
    } else if op == STO {
        "STO ["@ + dec(operand) + "]"@
    } else if op == SUB {
        "SUB ["@ + dec(operand) + "]"@
    } else if op == CMP {
        "CMP"@
    } else if op == STOP {
        "STOP"@
    } else {
        "NOP"@
    }
}

fn ssem_mnemonic_exec(b0: u8, operand: usize) -> (out: String)
    ensures
        out@ == ssem_mnemonic(b0, operand as nat),
{
    let op = b0 & 0x07;
    let mut out = String::new();
    if op <= SUB {
        out.append(
            if op == JMP {
                "JMP ["
            } else if op == JRP {
                "JRP ["
            } else if op == LDN {
                "LDN ["
            } else if op == STO {
                "STO ["
            } else {
                "SUB ["
            },
        );
        push_dec(&mut out, operand);
        out.append("]");
    } else if op == CMP {
        out.append("CMP");
    } else if op == STOP {
        out.append("STOP");
    } else {
        out.append("NOP");
    }
    assert(out@ =~= ssem_mnemonic(b0, operand as nat));
    out
}

/// The line shown for a byte after the last complete word.
pub open spec fn ssem_trailing(i: nat, b: u8) -> Seq<char> {
    hex(i, 4) + ": "@ + hex(b as nat, 2) + "        (trailing)\n"@
}

impl Lister for Ssem {
    open spec fn spec_line(t: Seq<u8>, pc: nat) -> (Seq<char>, nat) {
        if pc + 3 < t.len() {
            let nw = t.len() / 4;
            (
                hex(pc / 4, 4) + ": "@ + hex(t[pc as int] as nat, 2) + " "@ + hex(t[pc + 1int] as nat, 2)
                    + " "@ + hex(t[pc + 2int] as nat, 2) + " "@ + hex(t[pc + 3int] as nat, 2) + "  "@
                    + ssem_mnemonic(t[pc as int], t[pc + 1int] as nat % nw) + "\n"@,
                4,
            )
        } else {
            (ssem_trailing(pc, t[pc as int]), 1)
        }
    }

    fn line(t: &[u8], pc: usize) -> (r: (String, usize)) {
        let mut out = String::new();
        if pc + 3 < t.len() {
            let nw = t.len() / 4;
            push_hex(&mut out, pc / 4, 4);
            out.append(": ");
            push_hex(&mut out, t[pc] as usize, 2);
            out.append(" ");
            push_hex(&mut out, t[pc + 1] as usize, 2);
            out.append(" ");
            push_hex(&mut out, t[pc + 2] as usize, 2);
            out.append(" ");
            push_hex(&mut out, t[pc + 3] as usize, 2);
            out.append("  ");
            let m = ssem_mnemonic_exec(t[pc], t[pc + 1] as usize % nw);
            out.append(m.as_str());
            out.append("\n");
            assert(out@ =~= Self::spec_line(t@, pc as nat).0);
            (out, 4)
        } else {
            push_hex(&mut out, pc, 4);
            out.append(": ");
            push_hex(&mut out, t[pc] as usize, 2);
            out.append("        (trailing)\n");
            assert(out@ =~= Self::spec_line(t@, pc as nat).0);
            (out, 1)
        }
    }
}

impl Substrate for Ssem {
    open spec fn spec_execute(tape: Seq<u8>, step_limit: nat) -> (Seq<u8>, nat) {
        ssem_execute(tape, step_limit)
    }

    /// Without a battle mode of its own, a battle runs the plain execution.
    open spec fn spec_execute_battle(tape: Seq<u8>, ps: nat, step_limit: nat) -> (Seq<u8>, nat) {
        Self::spec_execute(tape, step_limit)
    }

    fn execute_battle(tape: &mut [u8], ps: usize, step_limit: usize) -> (steps: usize) {
        Self::execute(tape, step_limit)
    }

    fn execute(tape: &mut [u8], step_limit: usize) -> (steps: usize)
    {
        let num_words = tape.len() / 4;
        if num_words == 0 {
            return 0;
        }
        let mut state = SsemState { pc: 0, acc: 0 };
        run_solo::<Ssem>(&mut state, tape, step_limit)
    }

    open spec fn spec_is_instruction(byte: u8) -> bool {
        (byte & 0x07) <= STOP
    }

    fn is_instruction(byte: u8) -> (r: bool) {
        // A byte is a meaningful instruction if its low 3 bits encode opcode 0-6.
        (byte & 0x07) <= STOP
    }

    fn disassemble(tape: &[u8]) -> (out: String)
        ensures
            out@ == listing::<Ssem>(tape@, 0),
    {
        list::<Ssem>(tape)
    }
}

/// A word whose opcode is no instruction only moves the program counter on
/// (to the next word, around the end of the tape): the accumulator and the
/// tape stay as they are.
pub proof fn law_non_instruction_only_advances(s: SsemState, t: Seq<u8>)
    requires
        t.len() / 4 > 0,
        !Ssem::spec_is_instruction(t[((s.pc as nat % (t.len() / 4)) * 4) as int]),
    ensures
        ssem_next(s, t) == (
            true,
            SsemState {
                pc: ((s.pc as nat % (t.len() / 4) + 1) % (t.len() / 4)) as usize,
                acc: s.acc,
            },
            t,
        ),
{
}

/// LDN loads the negation of the operand word, SUB takes the operand word
/// from the accumulator, both with 32-bit wrap-around; STO puts the
/// accumulator in the operand word, touching only its four bytes. The next
/// word (around the end of the memory) comes next.
pub proof fn law_arithmetic_and_store(s: SsemState, t: Seq<u8>)
    requires
        t.len() / 4 > 0,
        t.len() <= usize::MAX,
        ({
            let op = t[((s.pc as nat % (t.len() / 4)) * 4) as int] & 0x07;
            op == LDN || op == SUB || op == STO
        }),
    ensures
        ({
            let (go, s2, t2) = ssem_next(s, t);
            let nw = t.len() / 4;
            let base = ((s.pc as nat % nw) * 4) as int;
            let op = t[base] & 0x07;
            let w = ((t[base + 1] as nat % nw) * 4) as int;
            let m = le32(t[w], t[w + 1], t[w + 2], t[w + 3]) as int;
            &&& go
            &&& s2.pc == (s.pc as nat % nw + 1) % nw
            &&& op == LDN ==> t2 == t && s2.acc == wrap32(-m)
            &&& op == SUB ==> t2 == t && s2.acc == wrap32(s.acc - m)
            &&& op == STO ==> {
                &&& s2.acc == s.acc
                &&& t2.len() == t.len()
                &&& le32(t2[w], t2[w + 1], t2[w + 2], t2[w + 3]) == s.acc
                &&& forall|i: int| 0 <= i < t.len() && (i < w || i > w + 3) ==> t2[i] == t[i]
            }
        }),
{
    let nw = t.len() / 4;
    let base = ((s.pc as nat % nw) * 4) as int;
    let w = ((t[base + 1] as nat % nw) * 4) as int;
    assert(w + 3 < t.len()) by (nonlinear_arith)
        requires
            w == (t[base + 1] as nat % nw) * 4,
            nw == t.len() / 4,
            nw > 0,
    ;
    vstd::arithmetic::div_mod::lemma_small_mod(t[base + 1] as nat % nw, nw);
    let m = le32(t[w], t[w + 1], t[w + 2], t[w + 3]);
    assert(ssem_word(t, t[base + 1] as nat % nw) == m);
    let op = t[base] & 0x07;
    if op == STO {
        assert(ssem_put(t, t[base + 1] as nat % nw, s.acc) == put32(t, w, s.acc));
        lemma_put32_reads_back(t, w, s.acc);
    } else {
        lemma_wrapping32(s.acc, m);
        lemma_wrapping32(0, m);
    }
}

/// CMP skips the next word when the accumulator is negative; JMP goes to
/// the word whose number is held (if not negative) in the operand word, and
/// JRP moves that many words on from the current one (when that stays
/// on this side of zero without overflow), both around the memory. The
/// accumulator and the tape stay as they are.
pub proof fn law_control(s: SsemState, t: Seq<u8>)
    requires
        t.len() / 4 > 0,
        t.len() <= usize::MAX,
        ({
            let op = t[((s.pc as nat % (t.len() / 4)) * 4) as int] & 0x07;
            op == CMP || op == JMP || op == JRP
        }),
    ensures
        ({
            let (go, s2, t2) = ssem_next(s, t);
            let nw = t.len() / 4;
            let pc = s.pc as nat % nw;
            let base = (pc * 4) as int;
            let op = t[base] & 0x07;
            let w = ((t[base + 1] as nat % nw) * 4) as int;
            let m = le32(t[w], t[w + 1], t[w + 2], t[w + 3]) as int;
            &&& go
            &&& t2 == t
            &&& s2.acc == s.acc
            &&& op == CMP ==> s2.pc == if s.acc < 0 { (pc + 2) % nw } else { (pc + 1) % nw }
            &&& op == JMP && m >= 0 ==> s2.pc == m % (nw as int)
            &&& op == JRP && pc <= i32::MAX && 0 <= pc + m <= i32::MAX ==> s2.pc == (pc + m) % (nw as int)
        }),
{
    let nw = t.len() / 4;
    let pc = s.pc as nat % nw;
    let base = (pc * 4) as int;
    let w = ((t[base + 1] as nat % nw) * 4) as int;
    assert(w + 3 < t.len()) by (nonlinear_arith)
        requires
            w == (t[base + 1] as nat % nw) * 4,
            nw == t.len() / 4,
            nw > 0,
    ;
    assert(pc < nw);
    assert(pc * 4 + 3 < t.len()) by (nonlinear_arith)
        requires
            pc < nw,
            nw == t.len() / 4,
    ;
    vstd::arithmetic::div_mod::lemma_small_mod(t[base + 1] as nat % nw, nw);
    let m = le32(t[w], t[w + 1], t[w + 2], t[w + 3]);
    assert(ssem_word(t, t[base + 1] as nat % nw) == m);
}

/// Without a battle mode of its own, a battle is the plain run of the tape,
/// whatever the program size.
pub proof fn law_battle_is_plain_run(t: Seq<u8>, program_size: nat, step_limit: nat)
    ensures
        Ssem::spec_execute_battle(t, program_size, step_limit) == Ssem::spec_execute(t, step_limit),
{
}

} // verus!

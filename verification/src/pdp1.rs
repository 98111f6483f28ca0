use vstd::prelude::*;

use crate::listing::{list, listing, push_trailing_line, trailing_line, Lister};
use crate::stepper::{run, run_solo, Stepper};
use crate::substrate::Substrate;
use crate::text::{dec, hex, push_dec, push_hex};
use crate::word::{doubled16, halved, le16, lemma_rotl16, rotated16, lemma_nibbles, lemma_put16_reads_back, lemma_shifts16, neg16, put16, read_i16, rotate_left16, rotl16, wrapping_neg16, write_i16};

verus! {

/// The PDP-1 (1959) substrate: DEC's first minicomputer.
///
/// The PDP-1 ushered in the era of interactive computing and ran Spacewar!,
/// the first video game. It had 18-bit words, a single accumulator, an I/O
/// register, and ~27 instructions.
///
/// For byte-tape practicality, 18-bit words are approximated as 16-bit (i16,
/// little-endian). Instructions are 2 bytes: 1 byte opcode (low 5 bits used)
/// + 1 byte address operand.
///
/// State:
/// - `pc`: program counter (word index, i.e. byte offset / 2), starts at 0
/// - `ac`: accumulator (i16, wrapping arithmetic)
/// - `io`: I/O register (i16)
/// - `overflow`: overflow flag (bool)
/// - Number of words = tape.len() / 2
pub struct Pdp1;

pub const HALT: u8 = 0x00;

pub const ADD: u8 = 0x01;

pub const SUB: u8 = 0x02;

pub const AND: u8 = 0x03;

pub const IOR: u8 = 0x04;

pub const XOR: u8 = 0x05;

pub const LOAD: u8 = 0x06;

pub const STORE: u8 = 0x07;

pub const LOAD_NEG: u8 = 0x08;

pub const SWAP: u8 = 0x09;

pub const JMP: u8 = 0x0A;

pub const JSR: u8 = 0x0B;

pub const SKP_Z: u8 = 0x0C;

pub const SKP_POS: u8 = 0x0D;

pub const SKP_NEG: u8 = 0x0E;

pub const SKP_OVF: u8 = 0x0F;

pub const SHIFT_L: u8 = 0x10;

pub const SHIFT_R: u8 = 0x11;

pub const ROT_L: u8 = 0x12;

pub const CLR: u8 = 0x13;

pub const LOAD_IO: u8 = 0x14;

pub const STORE_IO: u8 = 0x15;

pub const INC: u8 = 0x16;

pub const DEC: u8 = 0x17;

pub const ISZ: u8 = 0x18;

pub const MAX_OPCODE: u8 = 0x18;

/// The word at word index `word_idx` (modulo the number of words).
pub open spec fn pdp1_word(t: Seq<u8>, word_idx: u8) -> i16 {
    let idx = ((word_idx as nat % (t.len() / 2)) * 2) as int;
    le16(t[idx], t[idx + 1])
}

/// The tape with `val` written at word index `word_idx` (modulo the number of words).
pub open spec fn pdp1_put(t: Seq<u8>, word_idx: u8, val: i16) -> Seq<u8> {
    put16(t, ((word_idx as nat % (t.len() / 2)) * 2) as int, val)
}

/// Read a 16-bit little-endian word from the tape at the given word index.
/// The word index wraps modulo `num_words`.
pub fn read_word(tape: &[u8], word_idx: u8, num_words: usize) -> (v: i16)
    requires
        num_words == tape@.len() / 2,
        num_words > 0,
        tape@.len() <= isize::MAX,
    ensures
        v == pdp1_word(tape@, word_idx),
{
    let idx = (word_idx as usize % num_words) * 2;
    read_i16(tape, idx)
}

/// Write a 16-bit little-endian word to the tape at the given word index.
/// The word index wraps modulo `num_words`.
pub fn write_word(tape: &mut [u8], word_idx: u8, num_words: usize, val: i16)
    requires
        num_words == old(tape)@.len() / 2,
        num_words > 0,
        old(tape)@.len() <= isize::MAX,
    ensures
        final(tape)@ == pdp1_put(old(tape)@, word_idx, val),
{
    let idx = (word_idx as usize % num_words) * 2;
    write_i16(tape, idx, val)
}

/// The registers of a running PDP-1 program.
#[derive(Clone, Copy)]
pub struct Pdp1State {
    pub pc: usize,
    pub ac: i16,
    pub io: i16,
    pub overflow: bool,
}

/// Whether `a + b` leaves the range of i16 (as `i16::overflowing_add` reports).
pub open spec fn add_overflows(a: i16, b: i16) -> bool {
    a + b > i16::MAX || a + b < i16::MIN
}

/// Whether `a - b` leaves the range of i16 (as `i16::overflowing_sub` reports).
pub open spec fn sub_overflows(a: i16, b: i16) -> bool {
    a - b > i16::MAX || a - b < i16::MIN
}

/// The meaning of one PDP-1 instruction.
pub open spec fn pdp1_next(st: Pdp1State, t: Seq<u8>) -> (bool, Pdp1State, Seq<u8>) {
    let nw = t.len() / 2;
    if st.pc >= nw {
        (false, st, t)
    } else {
        let off = (st.pc * 2) as int;
        let opcode = t[off] & 0x1F;
        let s = t[off + 1];
        let val = pdp1_word(t, s);
        let pc1 = (st.pc + 1) as usize;
        let pc2 = (st.pc + 2) as usize;
        let shift = (s & 0x0F) as u32;
        let keep = Pdp1State { pc: pc1, ac: st.ac, io: st.io, overflow: st.overflow };
        if opcode == HALT {
            (false, st, t)
        } else if opcode == ADD {
            (
                true,
                Pdp1State {
                    pc: pc1,
                    ac: st.ac.wrapping_add(val),
                    io: st.io,
                    overflow: st.overflow || add_overflows(st.ac, val),
                },
                t,
            )
        } else if opcode == SUB {
            (
                true,
                Pdp1State {
                    pc: pc1,
                    ac: st.ac.wrapping_sub(val),
                    io: st.io,
                    overflow: st.overflow || sub_overflows(st.ac, val),
                },
                t,
            )
        } else if opcode == AND {
            (true, Pdp1State { ac: st.ac & val, ..keep }, t)
        } else if opcode == IOR {
            (true, Pdp1State { ac: st.ac | val, ..keep }, t)
        } else if opcode == XOR {
            (true, Pdp1State { ac: st.ac ^ val, ..keep }, t)
        } else if opcode == LOAD {
            (true, Pdp1State { ac: val, ..keep }, t)
        } else if opcode == STORE {
            (true, keep, pdp1_put(t, s, st.ac))
        } else if opcode == LOAD_NEG {
            (true, Pdp1State { ac: neg16(val), ..keep }, t)
        } else if opcode == SWAP {
            (true, Pdp1State { ac: val, ..keep }, pdp1_put(t, s, st.ac))
        } else if opcode == JMP {
            (true, Pdp1State { pc: (s as nat % nw) as usize, ..keep }, t)
        } else if opcode == JSR {
            (
                true,
                Pdp1State {
                    pc: (s as nat % nw) as usize,
                    io: (st.pc as i16).wrapping_add(1),
                    ..keep
                },
                t,
            )
        } else if opcode == SKP_Z {
            (true, Pdp1State { pc: if st.ac == 0 { pc2 } else { pc1 }, ..keep }, t)
        } else if opcode == SKP_POS {
            (true, Pdp1State { pc: if st.ac >= 0 { pc2 } else { pc1 }, ..keep }, t)
        } else if opcode == SKP_NEG {
            (true, Pdp1State { pc: if st.ac < 0 { pc2 } else { pc1 }, ..keep }, t)
        } else if opcode == SKP_OVF {
            (true, Pdp1State { pc: if st.overflow { pc2 } else { pc1 }, overflow: false, ..keep }, t)
        } else if opcode == SHIFT_L {
            (true, Pdp1State { ac: st.ac.wrapping_shl(shift), ..keep }, t)
        } else if opcode == SHIFT_R {
            (true, Pdp1State { ac: st.ac.wrapping_shr(shift), ..keep }, t)
        } else if opcode == ROT_L {
            (true, Pdp1State { ac: rotl16(st.ac as u16, shift) as i16, ..keep }, t)
        } else if opcode == CLR {
            (true, Pdp1State { ac: 0, ..keep }, t)
        } else if opcode == LOAD_IO {
            (true, Pdp1State { ac: st.io, ..keep }, t)
        } else if opcode == STORE_IO {
            (true, Pdp1State { io: st.ac, ..keep }, t)
        } else if opcode == INC {
            (true, Pdp1State { ac: st.ac.wrapping_add(1), ..keep }, t)
        } else if opcode == DEC {
            (true, Pdp1State { ac: st.ac.wrapping_sub(1), ..keep }, t)
        } else if opcode == ISZ {
            let m = val.wrapping_add(1);
            (true, Pdp1State { pc: if m == 0 { pc2 } else { pc1 }, ..keep }, pdp1_put(t, s, m))
        } else {
            (true, keep, t)
        }
    }
}

/// Execute one PDP-1 instruction. Returns true if still running.
pub fn pdp1_step(st: &mut Pdp1State, tape: &mut [u8]) -> (go: bool)
    requires
        old(tape)@.len() <= isize::MAX,
    ensures
        (go, *final(st), final(tape)@) == pdp1_next(*old(st), old(tape)@),
{
    let nw = tape.len() / 2;
    if st.pc >= nw {
        return false;
    }
    let off = st.pc * 2;
    let opcode = tape[off] & 0x1F;
    let s = tape[off + 1];
    let val = read_word(tape, s, nw);
    let low = s & 0x0F;
    assert(low < 16) by (bit_vector)
        requires
            low == s & 0x0F,
    ;
    let shift = low as u32;
    let mut pc = st.pc + 1;
    if opcode == HALT {
        return false;
    } else if opcode == ADD {
        let ovf = (st.ac as i32) + (val as i32) > i16::MAX as i32 || (st.ac as i32) + (val as i32)
            < i16::MIN as i32;
        st.ac = st.ac.wrapping_add(val);
        if ovf {
            st.overflow = true;
        }
    } else if opcode == SUB {
        let ovf = (st.ac as i32) - (val as i32) > i16::MAX as i32 || (st.ac as i32) - (val as i32)
            < i16::MIN as i32;
        st.ac = st.ac.wrapping_sub(val);
        if ovf {
            st.overflow = true;
        }
    } else if opcode == AND {
        st.ac = st.ac & val;
    } else if opcode == IOR {
        st.ac = st.ac | val;
    } else if opcode == XOR {
        st.ac = st.ac ^ val;
    } else if opcode == LOAD {
        st.ac = val;
    } else if opcode == STORE {
        write_word(tape, s, nw, st.ac);
    } else if opcode == LOAD_NEG {
        st.ac = wrapping_neg16(val);
    } else if opcode == SWAP {
        write_word(tape, s, nw, st.ac);
        st.ac = val;
    } else if opcode == JMP {
        pc = s as usize % nw;
    } else if opcode == JSR {
        st.io = (st.pc as i16).wrapping_add(1);
        pc = s as usize % nw;
    } else if opcode == SKP_Z {
        if st.ac == 0 {
            pc = pc + 1;
        }
    } else if opcode == SKP_POS {
        if st.ac >= 0 {
            pc = pc + 1;
        }
    } else if opcode == SKP_NEG {
        if st.ac < 0 {
            pc = pc + 1;
        }
    } else if opcode == SKP_OVF {
        if st.overflow {
            pc = pc + 1;
        }
        st.overflow = false;
    } else if opcode == SHIFT_L {
        st.ac = st.ac.wrapping_shl(shift);
    } else if opcode == SHIFT_R {
        st.ac = st.ac.wrapping_shr(shift);
    } else if opcode == ROT_L {
        st.ac = rotate_left16(st.ac as u16, shift) as i16;
    } else if opcode == CLR {
        st.ac = 0;
    } else if opcode == LOAD_IO {
        st.ac = st.io;
    } else if opcode == STORE_IO {
        st.io = st.ac;
    } else if opcode == INC {
        st.ac = st.ac.wrapping_add(1);
    } else if opcode == DEC {
        st.ac = st.ac.wrapping_sub(1);
    } else if opcode == ISZ {
        let m = val.wrapping_add(1);
        write_word(tape, s, nw, m);
        if m == 0 {
            pc = pc + 1;
        }
    }
    st.pc = pc;
    true
}

impl Stepper for Pdp1 {
    type State = Pdp1State;

    open spec fn spec_live(s: Pdp1State, tape: Seq<u8>) -> bool {
        s.pc < tape.len() / 2
    }

    open spec fn spec_step(s: Pdp1State, tape: Seq<u8>) -> (bool, Pdp1State, Seq<u8>) {
        pdp1_next(s, tape)
    }

    fn live(s: &Pdp1State, tape: &[u8]) -> (b: bool) {
        s.pc < tape.len() / 2
    }

    fn step(s: &mut Pdp1State, tape: &mut [u8]) -> (go: bool) {
        pdp1_step(s, tape)
    }

    proof fn lemma_step_len(s: Pdp1State, tape: Seq<u8>) {
    }
}

/// What `Pdp1::execute` computes: the final tape and the step count.
pub open spec fn pdp1_execute(t: Seq<u8>, step_limit: nat) -> (Seq<u8>, nat) {
    if t.len() / 2 == 0 {
        (t, 0)
    } else {
        run::<Pdp1>(Pdp1State { pc: 0, ac: 0, io: 0, overflow: false }, t, step_limit)
    }
}

/// The text of the PDP-1 instruction with opcode byte `raw` and operand `operand`.
pub open spec fn pdp1_mnemonic(raw: u8, operand: u8) -> Seq<char> {
    let op = raw & 0x1F;
    if op == HALT {
        "HALT"@
    } else if op == ADD {
        "ADD ["@ + dec(operand as nat) + "]"@
    } else if op == SUB {
        "SUB ["@ + dec(operand as nat) + "]"@
    } else if op == AND {
        "AND ["@ + dec(operand as nat) + "]"@
    } else if op == IOR {
        "IOR ["@ + dec(operand as nat) + "]"@
    } else if op == XOR {
        "XOR ["@ + dec(operand as nat) + "]"@
    } else if op == LOAD {
        "LOAD ["@ + dec(operand as nat) + "]"@
    } else if op == STORE {
        "STORE ["@ + dec(operand as nat) + "]"@
    } else if op == LOAD_NEG {
        "LOAD_NEG ["@ + dec(operand as nat) + "]"@
    } else if op == SWAP {
        "SWAP ["@ + dec(operand as nat) + "]"@
    } else if op == JMP {
        "JMP "@ + dec(operand as nat)
    } else if op == JSR {
        "JSR "@ + dec(operand as nat)
    } else if op == SKP_Z {
        "SKP_Z"@
    } else if op == SKP_POS {
        "SKP_POS"@
    } else if op == SKP_NEG {
        "SKP_NEG"@
    } else if op == SKP_OVF {
        "SKP_OVF"@
    } else if op == SHIFT_L {
        "SHIFT_L "@ + dec((operand & 0x0F) as nat)
    } else if op == SHIFT_R {
        "SHIFT_R "@ + dec((operand & 0x0F) as nat)
    } else if op == ROT_L {
        "ROT_L "@ + dec((operand & 0x0F) as nat)
    } else if op == CLR {
        "CLR"@
    } else if op == LOAD_IO {
        "LOAD_IO"@
    } else if op == STORE_IO {
        "STORE_IO"@
    } else if op == INC {
        "INC"@
    } else if op == DEC {
        "DEC"@
    } else if op == ISZ {
        "ISZ ["@ + dec(operand as nat) + "]"@
    } else {
        "NOP"@
    }
}

fn pdp1_mnemonic_exec(raw: u8, operand: u8) -> (out: String)
    ensures
        out@ == pdp1_mnemonic(raw, operand),
{
    let op = raw & 0x1F;
    let mut out = String::new();
    if op == ADD || op == SUB || op == AND || op == IOR || op == XOR || op == LOAD || op == STORE
        || op == LOAD_NEG || op == SWAP || op == ISZ {
        out.append(
            if op == ADD {
                "ADD ["
            } else if op == SUB {
                "SUB ["
            } else if op == AND {
                "AND ["
            } else if op == IOR {
                "IOR ["
            } else if op == XOR {
                "XOR ["
            } else if op == LOAD {
                "LOAD ["
            } else if op == STORE {
                "STORE ["
            } else if op == LOAD_NEG {
                "LOAD_NEG ["
            } else if op == SWAP {
                "SWAP ["
            } else if op == ISZ {
                "ISZ ["
            } else {
                "ISZ ["
            },
        );
        push_dec(&mut out, operand as usize);
        out.append("]");
    } else if op == JMP || op == JSR {
        out.append(
            if op == JMP {
                "JMP "
            } else {
                "JSR "
            },
        );
        push_dec(&mut out, operand as usize);
    } else if op == SHIFT_L || op == SHIFT_R || op == ROT_L {
        out.append(
            if op == SHIFT_L {
                "SHIFT_L "
            } else if op == SHIFT_R {
                "SHIFT_R "
            } else {
                "ROT_L "
            },
        );
        push_dec(&mut out, (operand & 0x0F) as usize);
    } else {
        out.append(
            if op == HALT {
                "HALT"
            } else if op == SKP_Z {
                "SKP_Z"
            } else if op == SKP_POS {
                "SKP_POS"
            } else if op == SKP_NEG {
                "SKP_NEG"
            } else if op == SKP_OVF {
                "SKP_OVF"
            } else if op == CLR {
                "CLR"
            } else if op == LOAD_IO {
                "LOAD_IO"
            } else if op == STORE_IO {
                "STORE_IO"
            } else if op == INC {
                "INC"
            } else if op == DEC {
                "DEC"
            } else {
                "NOP"
            },
        );
    }
    assert(out@ =~= pdp1_mnemonic(raw, operand));
    out
}

impl Lister for Pdp1 {
    open spec fn spec_line(t: Seq<u8>, pc: nat) -> (Seq<char>, nat) {
        if pc + 1 < t.len() {
            let raw = t[pc as int];
            let operand = t[pc + 1int];
            (
                hex(pc, 4) + ": "@ + hex(raw as nat, 2) + " "@ + hex(operand as nat, 2) + "  "@
                    + pdp1_mnemonic(raw, operand) + "\n"@,
                2,
            )
        } else {
            (trailing_line(pc, t[pc as int]), 1)
        }
    }

    fn line(t: &[u8], pc: usize) -> (r: (String, usize)) {
        let mut out = String::new();
        if pc + 1 < t.len() {
            let raw = t[pc];
            let operand = t[pc + 1];
            push_hex(&mut out, pc, 4);
            out.append(": ");
            push_hex(&mut out, raw as usize, 2);
            out.append(" ");
            push_hex(&mut out, operand as usize, 2);
            out.append("  ");
            let m = pdp1_mnemonic_exec(raw, operand);
            out.append(m.as_str());
            out.append("\n");
            assert(out@ =~= Self::spec_line(t@, pc as nat).0);
            (out, 2)
        } else {
            push_trailing_line(&mut out, pc, t[pc]);
            assert(out@ =~= Self::spec_line(t@, pc as nat).0);
            (out, 1)
        }
    }
}

impl Substrate for Pdp1 {
    open spec fn spec_execute(tape: Seq<u8>, step_limit: nat) -> (Seq<u8>, nat) {
        pdp1_execute(tape, step_limit)
    }

    /// Without a battle mode of its own, a battle runs the plain execution.
    open spec fn spec_execute_battle(tape: Seq<u8>, ps: nat, step_limit: nat) -> (Seq<u8>, nat) {
        Self::spec_execute(tape, step_limit)
    }

    fn execute_battle(tape: &mut [u8], ps: usize, step_limit: usize) -> (steps: usize) {
        Self::execute(tape, step_limit)
    }

    fn execute(tape: &mut [u8], step_limit: usize) -> (steps: usize)
    {
        let num_words = tape.len() / 2;
        if num_words == 0 {
            return 0;
        }
        let mut state = Pdp1State { pc: 0, ac: 0, io: 0, overflow: false };
        run_solo::<Pdp1>(&mut state, tape, step_limit)
    }

    open spec fn spec_is_instruction(byte: u8) -> bool {
        (byte & 0x1F) <= MAX_OPCODE
    }

    fn is_instruction(byte: u8) -> (r: bool) {
        (byte & 0x1F) <= MAX_OPCODE
    }

    fn disassemble(tape: &[u8]) -> (out: String)
        ensures
            out@ == listing::<Pdp1>(tape@, 0),
    {
        list::<Pdp1>(tape)
    }
}

/// A word whose opcode is no instruction only moves the program counter on:
/// the registers, the overflow flag and the tape stay as they are.
pub proof fn law_non_instruction_only_advances(s: Pdp1State, t: Seq<u8>)
    requires
        s.pc < t.len() / 2,
        !Pdp1::spec_is_instruction(t[(s.pc * 2) as int]),
    ensures
        pdp1_next(s, t) == (
            true,
            Pdp1State { pc: (s.pc + 1) as usize, ac: s.ac, io: s.io, overflow: s.overflow },
            t,
        ),
{
}

/// ADD and SUB take the memory word into the accumulator with 16-bit
/// two's-complement wrap-around, and raise the overflow flag (which then
/// stays up) exactly when the true sum or difference leaves the range of
/// i16. Nothing else changes but the program counter, which moves on.
pub proof fn law_add_sub_wrap_and_flag_overflow(s: Pdp1State, t: Seq<u8>)
    requires
        s.pc < t.len() / 2,
        t.len() <= usize::MAX,
        t[(s.pc * 2) as int] & 0x1F == ADD || t[(s.pc * 2) as int] & 0x1F == SUB,
    ensures
        ({
            let (go, s2, t2) = pdp1_next(s, t);
            let m = pdp1_word(t, t[(s.pc * 2) + 1]) as int;
            let r = if t[(s.pc * 2) as int] & 0x1F == ADD {
                s.ac as int + m
            } else {
                s.ac as int - m
            };
            &&& go
            &&& t2 == t
            &&& s2.pc == s.pc + 1
            &&& s2.io == s.io
            &&& s2.overflow == (s.overflow || r > 32767 || r < -32768)
            &&& s2.ac as int == if r > 32767 {
                r - 65536
            } else if r < -32768 {
                r + 65536
            } else {
                r
            }
        }),
{
}

/// The memory ops on word `w` (the operand, around the memory): LOAD puts
/// it in the accumulator, LOAD_NEG its negation (i16::MIN stays), STORE puts
/// the accumulator in it, SWAP exchanges the two, ISZ adds one to it
/// (wrapping) and skips the next instruction when that gives zero. Only the
/// two bytes of that word can change; IO and the overflow flag stay.
pub proof fn law_memory_ops(s: Pdp1State, t: Seq<u8>)
    requires
        s.pc < t.len() / 2,
        t.len() <= usize::MAX,
        ({
            let op = t[(s.pc * 2) as int] & 0x1F;
            op == LOAD || op == LOAD_NEG || op == STORE || op == SWAP || op == ISZ
        }),
    ensures
        ({
            let (go, s2, t2) = pdp1_next(s, t);
            let op = t[(s.pc * 2) as int] & 0x1F;
            let w = ((t[(s.pc * 2) + 1] as nat % (t.len() / 2)) * 2) as int;
            let m = le16(t[w], t[w + 1]) as int;
            let stored = le16(t2[w], t2[w + 1]) as int;
            &&& go
            &&& t2.len() == t.len()
            &&& forall|i: int| 0 <= i < t.len() && i != w && i != w + 1 ==> t2[i] == t[i]
            &&& s2.io == s.io
            &&& s2.overflow == s.overflow
            &&& op == LOAD ==> s2.ac == m && t2 == t && s2.pc == s.pc + 1
            &&& op == LOAD_NEG ==> s2.ac == (if m == -32768 { m } else { -m }) && t2 == t && s2.pc
                == s.pc + 1
            &&& op == STORE ==> s2.ac == s.ac && stored == s.ac && s2.pc == s.pc + 1
            &&& op == SWAP ==> s2.ac == m && stored == s.ac && s2.pc == s.pc + 1
            &&& op == ISZ ==> s2.ac == s.ac && stored == (if m == 32767 { -32768 } else { m + 1 })
                && s2.pc == if stored == 0 { s.pc + 2 } else { s.pc + 1 }
        }),
{
    let nw = t.len() / 2;
    let w = ((t[(s.pc * 2) + 1] as nat % nw) * 2) as int;
    assert(w + 1 < t.len()) by (nonlinear_arith)
        requires
            w == (t[(s.pc * 2) + 1] as nat % nw) * 2,
            nw == t.len() / 2,
            nw > 0,
    ;
    let m = le16(t[w], t[w + 1]);
    lemma_put16_reads_back(t, w, s.ac);
    lemma_put16_reads_back(t, w, m.wrapping_add(1));
}

/// The skips: SKP_Z, SKP_POS and SKP_NEG skip the next instruction when the
/// accumulator is zero, not negative, or negative; SKP_OVF when the overflow
/// flag is up, and lowers it. Nothing else changes.
pub proof fn law_skips(s: Pdp1State, t: Seq<u8>)
    requires
        s.pc < t.len() / 2,
        t.len() <= usize::MAX,
        ({
            let op = t[(s.pc * 2) as int] & 0x1F;
            op == SKP_Z || op == SKP_POS || op == SKP_NEG || op == SKP_OVF
        }),
    ensures
        ({
            let (go, s2, t2) = pdp1_next(s, t);
            let op = t[(s.pc * 2) as int] & 0x1F;
            let skip = if op == SKP_Z {
                s.ac == 0
            } else if op == SKP_POS {
                s.ac >= 0
            } else if op == SKP_NEG {
                s.ac < 0
            } else {
                s.overflow
            };
            &&& go
            &&& t2 == t
            &&& s2.pc == if skip { s.pc + 2 } else { s.pc + 1 }
            &&& s2.ac == s.ac
            &&& s2.io == s.io
            &&& s2.overflow == (s.overflow && op != SKP_OVF)
        }),
{
}

/// The register ops: INC and DEC add or take one (wrapping, the overflow
/// flag untouched), CLR zeroes the accumulator, LOAD_IO copies IO into it,
/// STORE_IO copies it into IO, and AND, IOR and XOR combine it bit by bit
/// with the operand word. The tape stays and the program counter moves on.
pub proof fn law_register_ops(s: Pdp1State, t: Seq<u8>)
    requires
        s.pc < t.len() / 2,
        t.len() <= usize::MAX,
        ({
            let op = t[(s.pc * 2) as int] & 0x1F;
            op == INC || op == DEC || op == CLR || op == LOAD_IO || op == STORE_IO || op == AND
                || op == IOR || op == XOR
        }),
    ensures
        ({
            let (go, s2, t2) = pdp1_next(s, t);
            let op = t[(s.pc * 2) as int] & 0x1F;
            let m = pdp1_word(t, t[(s.pc * 2) + 1]);
            &&& go
            &&& t2 == t
            &&& s2.pc == s.pc + 1
            &&& s2.overflow == s.overflow
            &&& s2.io == if op == STORE_IO { s.ac } else { s.io }
            &&& op == INC ==> s2.ac == if s.ac == 32767 { -32768 } else { s.ac + 1 }
            &&& op == DEC ==> s2.ac == if s.ac == -32768 { 32767 } else { s.ac - 1 }
            &&& op == CLR ==> s2.ac == 0
            &&& op == LOAD_IO ==> s2.ac == s.io
            &&& op == STORE_IO ==> s2.ac == s.ac
            &&& op == AND ==> s2.ac == s.ac & m
            &&& op == IOR ==> s2.ac == s.ac | m
            &&& op == XOR ==> s2.ac == s.ac ^ m
        }),
{
}

/// JMP and JSR go to the operand's word (around the memory); JSR also
/// leaves the return address, one past itself, in IO. Nothing else changes.
pub proof fn law_jumps(s: Pdp1State, t: Seq<u8>)
    requires
        s.pc < t.len() / 2,
        t.len() <= usize::MAX,
        t[(s.pc * 2) as int] & 0x1F == JMP || t[(s.pc * 2) as int] & 0x1F == JSR,
    ensures
        ({
            let (go, s2, t2) = pdp1_next(s, t);
            &&& go
            &&& t2 == t
            &&& s2.pc == t[(s.pc * 2) + 1] as nat % (t.len() / 2)
            &&& s2.ac == s.ac
            &&& s2.overflow == s.overflow
            &&& t[(s.pc * 2) as int] & 0x1F == JMP ==> s2.io == s.io
            &&& t[(s.pc * 2) as int] & 0x1F == JSR && s.pc < 32767 ==> s2.io == s.pc + 1
        }),
{
    if s.pc < 32767 {
        let p = s.pc;
        assert((p as i16) as int == p as int) by (bit_vector)
            requires
                p < 32767,
        ;
    }
}

/// ROT_L rotates the accumulator, read as 16 unsigned bits, left by the
/// operand's low four bits `k`: `k` times the top bit comes round to the
/// bottom. Nothing else changes but the program counter, which moves on.
pub proof fn law_rotate(s: Pdp1State, t: Seq<u8>)
    requires
        s.pc < t.len() / 2,
        t.len() <= usize::MAX,
        t[(s.pc * 2) as int] & 0x1F == ROT_L,
    ensures
        ({
            let (go, s2, t2) = pdp1_next(s, t);
            let k = (t[(s.pc * 2) + 1] % 16) as nat;
            let u = if s.ac < 0 { s.ac + 0x1_0000 } else { s.ac as int };
            let u2 = if s2.ac < 0 { s2.ac + 0x1_0000 } else { s2.ac as int };
            &&& go
            &&& t2 == t
            &&& s2 == Pdp1State { pc: (s.pc + 1) as usize, ac: s2.ac, ..s }
            &&& u2 == rotated16(u, k)
        }),
{
    let o = t[(s.pc * 2) + 1];
    lemma_nibbles(o);
    let a = s.ac;
    let r = rotl16(a as u16, (o & 0x0F) as u32);
    lemma_rotl16(a as u16, (o & 0x0F) as u32);
    assert((a as u16) as int == (if a < 0 { a + 0x1_0000 } else { a as int }) && r as int == (if (r
        as i16) < 0 { (r as i16) + 0x1_0000 } else { (r as i16) as int })) by (bit_vector);
}

/// SHIFT_L and SHIFT_R shift the accumulator by the operand's low four bits
/// `k`: left doubles it `k` times with 16-bit wrap-around, right halves it
/// `k` times rounding down. Nothing else changes but the program counter,
/// which moves on.
pub proof fn law_shifts(s: Pdp1State, t: Seq<u8>)
    requires
        s.pc < t.len() / 2,
        t.len() <= usize::MAX,
        t[(s.pc * 2) as int] & 0x1F == SHIFT_L || t[(s.pc * 2) as int] & 0x1F == SHIFT_R,
    ensures
        ({
            let (go, s2, t2) = pdp1_next(s, t);
            let k = (t[(s.pc * 2) + 1] % 16) as nat;
            &&& go
            &&& t2 == t
            &&& s2 == Pdp1State { pc: (s.pc + 1) as usize, ac: s2.ac, ..s }
            &&& s2.ac == if t[(s.pc * 2) as int] & 0x1F == SHIFT_L {
                doubled16(s.ac as int, k)
            } else {
                halved(s.ac as int, k)
            }
        }),
{
    let o = t[(s.pc * 2) + 1];
    lemma_nibbles(o);
    lemma_shifts16(s.ac, (o & 0x0F) as u32);
}

/// Without a battle mode of its own, a battle is the plain run of the tape,
/// whatever the program size.
pub proof fn law_battle_is_plain_run(t: Seq<u8>, program_size: nat, step_limit: nat)
    ensures
        Pdp1::spec_execute_battle(t, program_size, step_limit) == Pdp1::spec_execute(t, step_limit),
{
}

} // verus!

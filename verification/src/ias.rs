use vstd::prelude::*;

use crate::listing::{list, listing, Lister};
use crate::stepper::{run, run_solo, Stepper};
use crate::substrate::Substrate;
use crate::text::{dec, hex, push_dec, push_hex};
use crate::word::{
    abs,
    doubled16,
    halved,
    lemma_nibbles,
    lemma_shifts16,
    abs16,
    lemma_div16_rem16,
    lemma_put16_reads_back,
    lemma_wrapping16,
    wrap16,
    div16,
    le16,
    neg16,
    put16,
    read_i16,
    rem16,
    wrapping_abs16,
    wrapping_div16,
    wrapping_neg16,
    wrapping_rem16,
    write_i16,
};

verus! {

/// The IAS Machine (1952) substrate: the canonical von Neumann architecture.
///
/// The original IAS machine used 40-bit words with two 20-bit instructions per
/// word, an 8-bit opcode + 12-bit address, a single accumulator (AC) and a
/// multiplier-quotient register (MQ).
///
/// This adaptation maps that design onto a byte tape using 2-byte instructions
/// (1 byte opcode + 1 byte address). Instructions are sequential byte pairs
/// rather than word-packed, simplifying the model while preserving the IAS
/// flavor.
///
/// State:
/// - `pc`: program counter (byte-pair index), starts at 0
/// - `ac`: accumulator (i16, wrapping arithmetic)
/// - `mq`: multiplier-quotient register (i16)
///
/// Memory is 2-byte words (i16, little-endian). Address S from the operand
/// byte indexes words: `read_word(tape, S % num_words)` reads an i16 at byte
/// offset `(S % num_words) * 2`.
pub struct Ias;

pub const HALT: u8 = 0x00;

pub const LOAD: u8 = 0x01;

pub const LOAD_NEG: u8 = 0x02;

pub const LOAD_ABS: u8 = 0x03;

pub const LOAD_MQ: u8 = 0x04;

pub const LOAD_MQ_M: u8 = 0x05;

pub const STORE: u8 = 0x06;

pub const ADD: u8 = 0x07;

pub const SUB: u8 = 0x08;

pub const MUL: u8 = 0x09;

pub const DIV: u8 = 0x0A;

pub const JMP: u8 = 0x0B;

pub const JMP_POS: u8 = 0x0C;

pub const SHIFT_L: u8 = 0x0D;

pub const SHIFT_R: u8 = 0x0E;

pub const STORE_ADDR: u8 = 0x0F;

pub const AND: u8 = 0x10;

pub const OR: u8 = 0x11;

pub const XOR: u8 = 0x12;

pub const MAX_OPCODE: u8 = XOR;

/// The word at word address `addr` (modulo the number of words).
pub open spec fn ias_word(t: Seq<u8>, addr: u8) -> i16 {
    let idx = ((addr as nat % (t.len() / 2)) * 2) as int;
    le16(t[idx], t[idx + 1])
}

/// The tape with `val` written at word address `addr` (modulo the number of words).
pub open spec fn ias_put(t: Seq<u8>, addr: u8, val: i16) -> Seq<u8> {
    put16(t, ((addr as nat % (t.len() / 2)) * 2) as int, val)
}

/// Read a little-endian i16 word at the given word index.
pub fn read_word(tape: &[u8], num_words: usize, addr: u8) -> (v: i16)
    requires
        num_words == tape@.len() / 2,
        num_words > 0,
        tape@.len() <= isize::MAX,
    ensures
        v == ias_word(tape@, addr),
{
    let idx = (addr as usize % num_words) * 2;
    read_i16(tape, idx)
}

/// Write a little-endian i16 word at the given word index.
pub fn write_word(tape: &mut [u8], num_words: usize, addr: u8, val: i16)
    requires
        num_words == old(tape)@.len() / 2,
        num_words > 0,
        old(tape)@.len() <= isize::MAX,
    ensures
        final(tape)@ == ias_put(old(tape)@, addr, val),
{
    let idx = (addr as usize % num_words) * 2;
    write_i16(tape, idx, val)
}

/// The registers of a running IAS program.
#[derive(Clone, Copy)]
pub struct IasState {
    pub pc: usize,
    pub ac: i16,
    pub mq: i16,
}

/// The meaning of one IAS instruction.
pub open spec fn ias_next(st: IasState, t: Seq<u8>) -> (bool, IasState, Seq<u8>) {
    let nw = t.len() / 2;
    if st.pc >= nw {
        (false, st, t)
    } else {
        let off = (st.pc * 2) as int;
        let opcode = t[off] & 0x1F;
        let s = t[off + 1];
        let val = ias_word(t, s);
        let pc1 = (st.pc + 1) as usize;
        let product = (st.mq as i32).wrapping_mul(val as i32);
        if opcode == HALT {
            (false, st, t)
        } else if opcode == LOAD {
            (true, IasState { pc: pc1, ac: val, mq: st.mq }, t)
        } else if opcode == LOAD_NEG {
            (true, IasState { pc: pc1, ac: neg16(val), mq: st.mq }, t)
        } else if opcode == LOAD_ABS {
            (true, IasState { pc: pc1, ac: abs16(val), mq: st.mq }, t)
        } else if opcode == LOAD_MQ {
            (true, IasState { pc: pc1, ac: st.mq, mq: st.mq }, t)
        } else if opcode == LOAD_MQ_M {
            (true, IasState { pc: pc1, ac: val, mq: val }, t)
        } else if opcode == STORE {
            (true, IasState { pc: pc1, ac: st.ac, mq: st.mq }, ias_put(t, s, st.ac))
        } else if opcode == ADD {
            (true, IasState { pc: pc1, ac: st.ac.wrapping_add(val), mq: st.mq }, t)
        } else if opcode == SUB {
            (true, IasState { pc: pc1, ac: st.ac.wrapping_sub(val), mq: st.mq }, t)
        } else if opcode == MUL {
            // MQ takes the low 16 bits of the product, AC the high 16 bits.
            (true, IasState { pc: pc1, ac: (product >> 16) as i16, mq: product as i16 }, t)
        } else if opcode == DIV {
            if val == 0 {
                (false, st, t)
            } else {
                (true, IasState { pc: pc1, ac: rem16(st.ac, val), mq: div16(st.ac, val) }, t)
            }
        } else if opcode == JMP {
            (true, IasState { pc: s as usize, ac: st.ac, mq: st.mq }, t)
        } else if opcode == JMP_POS {
            (
                true,
                IasState {
                    pc: if st.ac >= 0 {
                        s as usize
                    } else {
                        pc1
                    },
                    ac: st.ac,
                    mq: st.mq,
                },
                t,
            )
        } else if opcode == SHIFT_L {
            (true, IasState { pc: pc1, ac: st.ac.wrapping_shl((s & 0x0F) as u32), mq: st.mq }, t)
        } else if opcode == SHIFT_R {
            (true, IasState { pc: pc1, ac: st.ac.wrapping_shr((s & 0x0F) as u32), mq: st.mq }, t)
        } else if opcode == STORE_ADDR {
            (
                true,
                IasState { pc: pc1, ac: st.ac, mq: st.mq },
                t.update(((s as nat % nw) * 2) as int, (st.ac & 0xFF) as u8),
            )
        } else if opcode == AND {
            (true, IasState { pc: pc1, ac: st.ac & val, mq: st.mq }, t)
        } else if opcode == OR {
            (true, IasState { pc: pc1, ac: st.ac | val, mq: st.mq }, t)
        } else if opcode == XOR {
            (true, IasState { pc: pc1, ac: st.ac ^ val, mq: st.mq }, t)
        } else {
            (true, IasState { pc: pc1, ac: st.ac, mq: st.mq }, t)
        }
    }
}

/// Execute one IAS instruction. Returns true if still running.
pub fn ias_step(st: &mut IasState, tape: &mut [u8]) -> (go: bool)
    requires
        old(tape)@.len() <= isize::MAX,
    ensures
        (go, *final(st), final(tape)@) == ias_next(*old(st), old(tape)@),
{
    let nw = tape.len() / 2;
    if st.pc >= nw {
        return false;
    }
    let off = st.pc * 2;
    let opcode = tape[off] & 0x1F;
    let s = tape[off + 1];
    let val = read_word(tape, nw, s);
    let pc1 = st.pc + 1;
    if opcode == HALT {
        return false;
    } else if opcode == LOAD {
        st.ac = val;
    } else if opcode == LOAD_NEG {
        st.ac = wrapping_neg16(val);
    } else if opcode == LOAD_ABS {
        st.ac = wrapping_abs16(val);
    } else if opcode == LOAD_MQ {
        st.ac = st.mq;
    } else if opcode == LOAD_MQ_M {
        st.mq = val;
        st.ac = val;
    } else if opcode == STORE {
        write_word(tape, nw, s, st.ac);
    } else if opcode == ADD {
        st.ac = st.ac.wrapping_add(val);
    } else if opcode == SUB {
        st.ac = st.ac.wrapping_sub(val);
    } else if opcode == MUL {
        let product = (st.mq as i32).wrapping_mul(val as i32);
        st.mq = product as i16;
        st.ac = (product >> 16) as i16;
    } else if opcode == DIV {
        if val == 0 {
            // Division by zero halts.
            return false;
        }
        let q = wrapping_div16(st.ac, val);
        let r = wrapping_rem16(st.ac, val);
        st.mq = q;
        st.ac = r;
    } else if opcode == JMP {
        st.pc = s as usize;
        return true;
    } else if opcode == JMP_POS {
        if st.ac >= 0 {
            st.pc = s as usize;
            return true;
        }
    } else if opcode == SHIFT_L {
        st.ac = st.ac.wrapping_shl((s & 0x0F) as u32);
    } else if opcode == SHIFT_R {
        st.ac = st.ac.wrapping_shr((s & 0x0F) as u32);
    } else if opcode == STORE_ADDR {
        let idx = (s as usize % nw) * 2;
        tape[idx] = (st.ac & 0xFF) as u8;
    } else if opcode == AND {
        st.ac = st.ac & val;
    } else if opcode == OR {
        st.ac = st.ac | val;
    } else if opcode == XOR {
        st.ac = st.ac ^ val;
    }
    st.pc = pc1;
    true
}

impl Stepper for Ias {
    type State = IasState;

    open spec fn spec_live(s: IasState, tape: Seq<u8>) -> bool {
        s.pc < tape.len() / 2
    }

    open spec fn spec_step(s: IasState, tape: Seq<u8>) -> (bool, IasState, Seq<u8>) {
        ias_next(s, tape)
    }

    fn live(s: &IasState, tape: &[u8]) -> (b: bool) {
        s.pc < tape.len() / 2
    }

    fn step(s: &mut IasState, tape: &mut [u8]) -> (go: bool) {
        ias_step(s, tape)
    }

    proof fn lemma_step_len(s: IasState, tape: Seq<u8>) {
    }
}

/// What `Ias::execute` computes: the final tape and the step count.
pub open spec fn ias_execute(t: Seq<u8>, step_limit: nat) -> (Seq<u8>, nat) {
    if t.len() < 2 {
        (t, 0)
    } else {
        run::<Ias>(IasState { pc: 0, ac: 0, mq: 0 }, t, step_limit)
    }
}

/// The text of the IAS instruction with opcode byte `raw` and operand `s`.
pub open spec fn ias_mnemonic(raw: u8, s: u8) -> Seq<char> {
    let op = raw & 0x1F;
    if op == HALT {
        "HALT"@
    } else if op == LOAD {
        "LOAD "@ + dec(s as nat)
    } else if op == LOAD_NEG {
        "LOAD_NEG "@ + dec(s as nat)
    } else if op == LOAD_ABS {
        "LOAD_ABS "@ + dec(s as nat)
    } else if op == LOAD_MQ {
        "LOAD_MQ"@
    } else if op == LOAD_MQ_M {
        "LOAD_MQ_M "@ + dec(s as nat)
    } else if op == STORE {
        "STORE "@ + dec(s as nat)
    } else if op == ADD {
        "ADD "@ + dec(s as nat)
    } else if op == SUB {
        "SUB "@ + dec(s as nat)
    } else if op == MUL {
        "MUL "@ + dec(s as nat)
    } else if op == DIV {
        "DIV "@ + dec(s as nat)
    } else if op == JMP {
        "JMP "@ + dec(s as nat)
    } else if op == JMP_POS {
        "JMP_POS "@ + dec(s as nat)
    } else if op == SHIFT_L {
        "SHIFT_L "@ + dec((s & 0x0F) as nat)
    } else if op == SHIFT_R {
        "SHIFT_R "@ + dec((s & 0x0F) as nat)
    } else if op == STORE_ADDR {
        "STORE_ADDR "@ + dec(s as nat)
    } else if op == AND {
        "AND "@ + dec(s as nat)
    } else if op == OR {
        "OR "@ + dec(s as nat)
    } else if op == XOR {
        "XOR "@ + dec(s as nat)
    } else {
        "NOP"@
    }
}

fn ias_mnemonic_exec(raw: u8, s: u8) -> (out: String)
    ensures
        out@ == ias_mnemonic(raw, s),
{
    let op = raw & 0x1F;
    let mut out = String::new();
    if op == HALT {
        out.append("HALT");
    } else if op == LOAD_MQ {
        out.append("LOAD_MQ");
    } else if op > MAX_OPCODE {
        out.append("NOP");
    } else {
        out.append(
            if op == LOAD {
                "LOAD "
            } else if op == LOAD_NEG {
                "LOAD_NEG "
            } else if op == LOAD_ABS {
                "LOAD_ABS "
            } else if op == LOAD_MQ_M {
                "LOAD_MQ_M "
            } else if op == STORE {
                "STORE "
            } else if op == ADD {
                "ADD "
            } else if op == SUB {
                "SUB "
            } else if op == MUL {
                "MUL "
            } else if op == DIV {
                "DIV "
            } else if op == JMP {
                "JMP "
            } else if op == JMP_POS {
                "JMP_POS "
            } else if op == SHIFT_L {
                "SHIFT_L "
            } else if op == SHIFT_R {
                "SHIFT_R "
            } else if op == STORE_ADDR {
                "STORE_ADDR "
            } else if op == AND {
                "AND "
            } else if op == OR {
                "OR "
            } else {
                "XOR "
            },
        );
        if op == SHIFT_L || op == SHIFT_R {
            push_dec(&mut out, (s & 0x0F) as usize);
        } else {
            push_dec(&mut out, s as usize);
        }
    }
    assert(out@ =~= ias_mnemonic(raw, s));
    out
}

impl Lister for Ias {
    open spec fn spec_line(t: Seq<u8>, pc: nat) -> (Seq<char>, nat) {
        if pc + 1 < t.len() {
            let raw = t[pc as int];
            let s = t[pc + 1int];
            (
                hex(pc, 4) + ": "@ + hex(raw as nat, 2) + " "@ + hex(s as nat, 2) + "  "@
                    + ias_mnemonic(raw, s) + "\n"@,
                2,
            )
        } else {
            (Seq::empty(), 1)
        }
    }

    fn line(t: &[u8], pc: usize) -> (r: (String, usize)) {
        let mut out = String::new();
        if pc + 1 < t.len() {
            let raw = t[pc];
            let s = t[pc + 1];
            push_hex(&mut out, pc, 4);
            out.append(": ");
            push_hex(&mut out, raw as usize, 2);
            out.append(" ");
            push_hex(&mut out, s as usize, 2);
            out.append("  ");
            let m = ias_mnemonic_exec(raw, s);
            out.append(m.as_str());
            out.append("\n");
            assert(out@ =~= Self::spec_line(t@, pc as nat).0);
            (out, 2)
        } else {
            (out, 1)
        }
    }
}

impl Substrate for Ias {
    open spec fn spec_execute(tape: Seq<u8>, step_limit: nat) -> (Seq<u8>, nat) {
        ias_execute(tape, step_limit)
    }

    /// Without a battle mode of its own, a battle runs the plain execution.
    open spec fn spec_execute_battle(tape: Seq<u8>, ps: nat, step_limit: nat) -> (Seq<u8>, nat) {
        Self::spec_execute(tape, step_limit)
    }

    fn execute_battle(tape: &mut [u8], ps: usize, step_limit: usize) -> (steps: usize) {
        Self::execute(tape, step_limit)
    }

    fn execute(tape: &mut [u8], step_limit: usize) -> (steps: usize)
    {
        let len = tape.len();
        if len < 2 {
            return 0;
        }
        let mut state = IasState { pc: 0, ac: 0, mq: 0 };
        run_solo::<Ias>(&mut state, tape, step_limit)
    }

    open spec fn spec_is_instruction(byte: u8) -> bool {
        (byte & 0x1F) <= MAX_OPCODE
    }

    fn is_instruction(byte: u8) -> (r: bool) {
        (byte & 0x1F) <= MAX_OPCODE
    }

    fn disassemble(tape: &[u8]) -> (out: String)
        ensures
            out@ == listing::<Ias>(tape@, 0),
    {
        list::<Ias>(tape)
    }
}

/// A word whose opcode is no instruction only moves the program counter on:
/// the registers and the tape stay as they are.
pub proof fn law_non_instruction_only_advances(s: IasState, t: Seq<u8>)
    requires
        s.pc < t.len() / 2,
        !Ias::spec_is_instruction(t[(s.pc * 2) as int]),
    ensures
        ias_next(s, t) == (true, IasState { pc: (s.pc + 1) as usize, ac: s.ac, mq: s.mq }, t),
{
}

/// MUL multiplies MQ by the operand word `m` into 32 bits: AC takes the high
/// half and MQ the low half, so that AC * 2^16 plus the low half read
/// unsigned is exactly MQ * m. The tape stays and the program counter moves
/// on.
pub proof fn law_multiply_splits_product(s: IasState, t: Seq<u8>)
    requires
        s.pc < t.len() / 2,
        t.len() <= usize::MAX,
        t[(s.pc * 2) as int] & 0x1F == MUL,
    ensures
        ({
            let (go, s2, t2) = ias_next(s, t);
            let m = ias_word(t, t[(s.pc * 2) + 1]) as int;
            let low = if s2.mq < 0 { s2.mq + 0x1_0000 } else { s2.mq as int };
            &&& go
            &&& t2 == t
            &&& s2.pc == s.pc + 1
            &&& s2.ac * 0x1_0000 + low == s.mq * m
        }),
{
    let m = ias_word(t, t[(s.pc * 2) + 1]);
    let p = (s.mq as i32).wrapping_mul(m as i32);
    assert(-0x4000_0000 <= s.mq * m <= 0x4000_0000) by (nonlinear_arith)
        requires
            -0x8000 <= s.mq < 0x8000,
            -0x8000 <= m < 0x8000,
    ;
    assert(p == s.mq * m);
    let hi = (p >> 16) as i16;
    let lo = p as i16;
    assert(hi as int * 0x1_0000 + (if lo < 0 { lo + 0x1_0000 } else { lo as int }) == p) by (bit_vector)
        requires
            -0x4000_0000 <= p <= 0x4000_0000,
            hi == (p >> 16) as i16,
            lo == p as i16,
    ;
}

/// DIV divides AC by the operand word `m`, rounding toward zero: MQ takes
/// the quotient and AC the remainder, with quotient times m plus remainder
/// giving the old AC back, the remainder smaller than m in size and zero or
/// of the dividend's sign. A zero divisor stops the machine; i16::MIN by -1
/// gives quotient i16::MIN and remainder 0.
pub proof fn law_divide_truncates(s: IasState, t: Seq<u8>)
    requires
        s.pc < t.len() / 2,
        t.len() <= usize::MAX,
        t[(s.pc * 2) as int] & 0x1F == DIV,
    ensures
        ({
            let (go, s2, t2) = ias_next(s, t);
            let m = ias_word(t, t[(s.pc * 2) + 1]);
            &&& t2 == t
            &&& m == 0 ==> !go && s2 == s
            &&& m != 0 ==> go && s2.pc == s.pc + 1
            &&& m != 0 && !(s.ac == i16::MIN && m == -1) ==> {
                &&& s2.mq * m + s2.ac == s.ac
                &&& abs(s2.ac as int) < abs(m as int)
                &&& s2.ac == 0 || (s2.ac < 0) == (s.ac < 0)
            }
            &&& s.ac == i16::MIN && m == -1 ==> s2.mq == i16::MIN && s2.ac == 0
        }),
{
    let m = ias_word(t, t[(s.pc * 2) + 1]);
    if m != 0 && !(s.ac == i16::MIN && m == -1) {
        lemma_div16_rem16(s.ac, m);
    }
}

/// The accumulator ops on the operand word `m`: LOAD loads it, LOAD_NEG its
/// negation and LOAD_ABS its size (both wrapping at i16::MIN), LOAD_MQ_M
/// loads it into both AC and MQ, LOAD_MQ copies MQ into AC, ADD and SUB add
/// or take it with 16-bit wrap-around, AND, OR, XOR combine bit by bit. MQ
/// stays unless named, the tape stays, and the program counter moves on.
pub proof fn law_accumulator_ops(s: IasState, t: Seq<u8>)
    requires
        s.pc < t.len() / 2,
        t.len() <= usize::MAX,
        ({
            let op = t[(s.pc * 2) as int] & 0x1F;
            op == LOAD || op == LOAD_NEG || op == LOAD_ABS || op == LOAD_MQ || op == LOAD_MQ_M
                || op == ADD || op == SUB || op == AND || op == OR || op == XOR
        }),
    ensures
        ({
            let (go, s2, t2) = ias_next(s, t);
            let op = t[(s.pc * 2) as int] & 0x1F;
            let m = ias_word(t, t[(s.pc * 2) + 1]);
            &&& go
            &&& t2 == t
            &&& s2.pc == s.pc + 1
            &&& s2.mq == if op == LOAD_MQ_M { m } else { s.mq }
            &&& op == LOAD ==> s2.ac == m
            &&& op == LOAD_NEG ==> s2.ac == wrap16(-m)
            &&& op == LOAD_ABS ==> s2.ac == wrap16(abs(m as int))
            &&& op == LOAD_MQ ==> s2.ac == s.mq
            &&& op == LOAD_MQ_M ==> s2.ac == m
            &&& op == ADD ==> s2.ac == wrap16(s.ac + m)
            &&& op == SUB ==> s2.ac == wrap16(s.ac - m)
            &&& op == AND ==> s2.ac == s.ac & m
            &&& op == OR ==> s2.ac == s.ac | m
            &&& op == XOR ==> s2.ac == s.ac ^ m
        }),
{
    let m = ias_word(t, t[(s.pc * 2) + 1]);
    lemma_wrapping16(s.ac, m);
    lemma_wrapping16(0, m);
}

/// STORE puts AC in the operand word; STORE_ADDR puts only AC's low byte in
/// the word's first byte (its address field). Nothing else changes but the
/// program counter, which moves on.
pub proof fn law_stores(s: IasState, t: Seq<u8>)
    requires
        s.pc < t.len() / 2,
        t.len() <= usize::MAX,
        t[(s.pc * 2) as int] & 0x1F == STORE || t[(s.pc * 2) as int] & 0x1F == STORE_ADDR,
    ensures
        ({
            let (go, s2, t2) = ias_next(s, t);
            let w = ((t[(s.pc * 2) + 1] as nat % (t.len() / 2)) * 2) as int;
            &&& go
            &&& s2 == IasState { pc: (s.pc + 1) as usize, ac: s.ac, mq: s.mq }
            &&& t2.len() == t.len()
            &&& t[(s.pc * 2) as int] & 0x1F == STORE ==> le16(t2[w], t2[w + 1]) == s.ac && forall|
                i: int,
            | 0 <= i < t.len() && i != w && i != w + 1 ==> t2[i] == t[i]
            &&& t[(s.pc * 2) as int] & 0x1F == STORE_ADDR ==> t2[w] as int == s.ac % 256 && forall|
                i: int,
            | 0 <= i < t.len() && i != w ==> t2[i] == t[i]
        }),
{
    let nw = t.len() / 2;
    let w = ((t[(s.pc * 2) + 1] as nat % nw) * 2) as int;
    assert(w + 1 < t.len()) by (nonlinear_arith)
        requires
            w == (t[(s.pc * 2) + 1] as nat % nw) * 2,
            nw == t.len() / 2,
            nw > 0,
    ;
    lemma_put16_reads_back(t, w, s.ac);
    let a = s.ac;
    assert((a & 0xFF) as u8 as int == a as int % 256) by (bit_vector);
}

/// JMP goes to the word the operand names; JMP_POS does so only when AC is
/// not negative, else moves on. Nothing else changes.
pub proof fn law_jumps(s: IasState, t: Seq<u8>)
    requires
        s.pc < t.len() / 2,
        t.len() <= usize::MAX,
        t[(s.pc * 2) as int] & 0x1F == JMP || t[(s.pc * 2) as int] & 0x1F == JMP_POS,
    ensures
        ({
            let (go, s2, t2) = ias_next(s, t);
            let target = t[(s.pc * 2) + 1];
            &&& go
            &&& t2 == t
            &&& s2.ac == s.ac
            &&& s2.mq == s.mq
            &&& s2.pc == if t[(s.pc * 2) as int] & 0x1F == JMP || s.ac >= 0 {
                target as int
            } else {
                s.pc + 1
            }
        }),
{
}

/// SHIFT_L and SHIFT_R shift AC by the operand's low four bits `k`: left
/// doubles it `k` times with 16-bit wrap-around, right halves it `k` times
/// rounding down. MQ and the tape stay; the program counter moves on.
pub proof fn law_shifts(s: IasState, t: Seq<u8>)
    requires
        s.pc < t.len() / 2,
        t.len() <= usize::MAX,
        t[(s.pc * 2) as int] & 0x1F == SHIFT_L || t[(s.pc * 2) as int] & 0x1F == SHIFT_R,
    ensures
        ({
            let (go, s2, t2) = ias_next(s, t);
            let k = (t[(s.pc * 2) + 1] % 16) as nat;
            &&& go
            &&& t2 == t
            &&& s2.pc == s.pc + 1
            &&& s2.mq == s.mq
            &&& s2.ac == if t[(s.pc * 2) as int] & 0x1F == SHIFT_L {
                doubled16(s.ac as int, k)
            } else {
                halved(s.ac as int, k)
            }
        }),
{
    let o = t[(s.pc * 2) + 1];
    lemma_nibbles(o);
    lemma_shifts16(s.ac, (o & 0x0F) as u32);
}

/// Without a battle mode of its own, a battle is the plain run of the tape,
/// whatever the program size.
pub proof fn law_battle_is_plain_run(t: Seq<u8>, program_size: nat, step_limit: nat)
    ensures
        Ias::spec_execute_battle(t, program_size, step_limit) == Ias::spec_execute(t, step_limit),
{
}

} // verus!

use vstd::prelude::*;

use crate::listing::{list, listing, Lister};
use crate::stepper::{run, run_solo, Stepper};
use crate::substrate::Substrate;
use crate::text::{dec, hex, push_dec, push_hex};
use crate::word::{
    abs,
    lemma_div16_rem16,
    lemma_put16_reads_back,
    lemma_wrapping16,
    wrap16,
    abs16,
    div16,
    is_isqrt,
    isqrt_u32,
    le16,
    neg16,
    put16,
    read_i16,
    rem16,
    wrapping_abs16,
    wrapping_div16,
    wrapping_neg16,
    wrapping_rem16,
    write_i16,
};

verus! {

/// The Zuse Z3 (1941) substrate: arguably the world's first programmable
/// digital computer.
///
/// The defining characteristic of the Z3 is the **complete absence of
/// conditional branching**. Programs are purely sequential: the PC always
/// advances by one word, with no jumps, skips, or branches. The only way
/// execution can "loop" is through self-modification (STORE instructions
/// rewriting future instruction bytes on the tape) or by hitting the step
/// limit.
///
/// The real Z3 used 22-bit floating-point words (1 sign + 7 exponent +
/// 14 mantissa) and had 64 words of memory. We simplify to i16 (2-byte
/// little-endian) arithmetic on the byte tape.
///
/// State:
/// - `pc`: program counter (word index), starts at 0
/// - `r1`: register 1 (i16, wrapping), starts at 0
/// - `r2`: register 2 (i16, wrapping), starts at 0
/// - Number of words = tape.len() / 2
///
/// Instruction encoding: 2-byte words (little-endian). The low 4 bits of the
/// first byte select the opcode. The second byte is the operand `S` (a word
/// address, used by LOAD/STORE/COPY_FWD).
pub struct Z3;

pub const HALT: u8 = 0x0;

pub const LOAD1: u8 = 0x1;

pub const LOAD2: u8 = 0x2;

pub const STORE1: u8 = 0x3;

pub const STORE2: u8 = 0x4;

pub const ADD: u8 = 0x5;

pub const SUB: u8 = 0x6;

pub const MUL: u8 = 0x7;

pub const DIV: u8 = 0x8;

pub const SQRT: u8 = 0x9;

pub const NEG: u8 = 0xA;

pub const ABS: u8 = 0xB;

pub const MOD: u8 = 0xC;

pub const SWAP: u8 = 0xD;

pub const COPY_FWD: u8 = 0xE;

pub const NOP: u8 = 0xF;

/// The word at word index `idx` (modulo the number of words).
pub open spec fn z3_word(t: Seq<u8>, idx: nat) -> i16 {
    let w = ((idx % (t.len() / 2)) * 2) as int;
    le16(t[w], t[w + 1])
}

/// The tape with `val` written at word index `idx` (modulo the number of words).
pub open spec fn z3_put(t: Seq<u8>, idx: nat, val: i16) -> Seq<u8> {
    put16(t, ((idx % (t.len() / 2)) * 2) as int, val)
}

/// Read word at word-index `idx` (wrapping) from the tape.
pub fn read_word(tape: &[u8], idx: usize, num_words: usize) -> (v: i16)
    requires
        num_words == tape@.len() / 2,
        num_words > 0,
        tape@.len() <= isize::MAX,
    ensures
        v == z3_word(tape@, idx as nat),
{
    let w = idx % num_words;
    read_i16(tape, w * 2)
}

/// Write word at word-index `idx` (wrapping) into the tape.
pub fn write_word(tape: &mut [u8], idx: usize, num_words: usize, val: i16)
    requires
        num_words == old(tape)@.len() / 2,
        num_words > 0,
        old(tape)@.len() <= isize::MAX,
    ensures
        final(tape)@ == z3_put(old(tape)@, idx as nat, val),
{
    let w = idx % num_words;
    write_i16(tape, w * 2, val)
}

/// The integer square root of the magnitude of `val`: the largest `r` with
/// `r * r <= |val|` (for `i16::MIN` the magnitude is 32768).
pub open spec fn z3_isqrt(val: i16) -> i16 {
    (choose|r: nat| #[trigger] is_isqrt(abs(val as int) as nat, r)) as i16
}

proof fn lemma_isqrt_unique(n: nat, a: nat, b: nat)
    requires
        is_isqrt(n, a),
        is_isqrt(n, b),
    ensures
        a == b,
{
    assert(a < b + 1) by (nonlinear_arith)
        requires
            a * a <= n,
            n < (b + 1) * (b + 1),
    ;
    assert(b < a + 1) by (nonlinear_arith)
        requires
            b * b <= n,
            n < (a + 1) * (a + 1),
    ;
}

/// Integer square root of the magnitude of `val` (the square root rounded
/// down, which is what converting the floating-point square root of such a
/// small integer back to an integer gives).
pub fn isqrt(val: i16) -> (r: i16)
    ensures
        r == z3_isqrt(val),
{
    let abs_val: u32 = if val < 0 {
        (0 - (val as i32)) as u32
    } else {
        val as u32
    };
    let r = isqrt_u32(abs_val);
    proof {
        let n = abs(val as int) as nat;
        let c = choose|x: nat| #[trigger] is_isqrt(n, x);
        assert(is_isqrt(n, r as nat));
        lemma_isqrt_unique(n, c, r as nat);
    }
    r as i16
}

/// The registers of a running Z3 program.
#[derive(Clone, Copy)]
pub struct Z3State {
    pub pc: usize,
    pub r1: i16,
    pub r2: i16,
}

/// The meaning of one Z3 instruction.
pub open spec fn z3_next(st: Z3State, t: Seq<u8>) -> (bool, Z3State, Seq<u8>) {
    let nw = t.len() / 2;
    if st.pc >= nw {
        (false, st, t)
    } else {
        let opcode = t[(st.pc * 2) as int] & 0x0F;
        let operand = t[(st.pc * 2 + 1) as int] as nat;
        let pc1 = (st.pc + 1) as usize;
        let r1 = st.r1;
        let r2 = st.r2;
        if opcode == HALT {
            (false, st, t)
        } else if opcode == LOAD1 {
            (true, Z3State { pc: pc1, r1: z3_word(t, operand), r2 }, t)
        } else if opcode == LOAD2 {
            (true, Z3State { pc: pc1, r1, r2: z3_word(t, operand) }, t)
        } else if opcode == STORE1 {
            (true, Z3State { pc: pc1, r1, r2 }, z3_put(t, operand, r1))
        } else if opcode == STORE2 {
            (true, Z3State { pc: pc1, r1, r2 }, z3_put(t, operand, r2))
        } else if opcode == ADD {
            (true, Z3State { pc: pc1, r1: r1.wrapping_add(r2), r2 }, t)
        } else if opcode == SUB {
            (true, Z3State { pc: pc1, r1: r1.wrapping_sub(r2), r2 }, t)
        } else if opcode == MUL {
            (true, Z3State { pc: pc1, r1: r1.wrapping_mul(r2), r2 }, t)
        } else if opcode == DIV {
            (
                true,
                Z3State {
                    pc: pc1,
                    r1: if r2 != 0 {
                        div16(r1, r2)
                    } else {
                        0
                    },
                    r2,
                },
                t,
            )
        } else if opcode == SQRT {
            (true, Z3State { pc: pc1, r1: z3_isqrt(abs16(r1)), r2 }, t)
        } else if opcode == NEG {
            (true, Z3State { pc: pc1, r1: neg16(r1), r2 }, t)
        } else if opcode == ABS {
            (true, Z3State { pc: pc1, r1: abs16(r1), r2 }, t)
        } else if opcode == MOD {
            (
                true,
                Z3State {
                    pc: pc1,
                    r1: if r2 != 0 {
                        rem16(r1, r2)
                    } else {
                        0
                    },
                    r2,
                },
                t,
            )
        } else if opcode == SWAP {
            (true, Z3State { pc: pc1, r1: r2, r2: r1 }, t)
        } else if opcode == COPY_FWD {
            (
                true,
                Z3State { pc: pc1, r1, r2 },
                z3_put(t, operand, z3_word(t, (operand + 1) % nw)),
            )
        } else {
            (true, Z3State { pc: pc1, r1, r2 }, t)
        }
    }
}

/// Execute one Z3 instruction. Returns true if still running.
pub fn z3_step(st: &mut Z3State, tape: &mut [u8]) -> (go: bool)
    requires
        old(tape)@.len() <= isize::MAX,
    ensures
        (go, *final(st), final(tape)@) == z3_next(*old(st), old(tape)@),
{
    let nw = tape.len() / 2;
    if st.pc >= nw {
        return false;
    }
    let opcode = tape[st.pc * 2] & 0x0F;
    let operand = tape[st.pc * 2 + 1] as usize;
    if opcode == HALT {
        return false;
    } else if opcode == LOAD1 {
        st.r1 = read_word(tape, operand, nw);
    } else if opcode == LOAD2 {
        st.r2 = read_word(tape, operand, nw);
    } else if opcode == STORE1 {
        write_word(tape, operand, nw, st.r1);
    } else if opcode == STORE2 {
        write_word(tape, operand, nw, st.r2);
    } else if opcode == ADD {
        st.r1 = st.r1.wrapping_add(st.r2);
    } else if opcode == SUB {
        st.r1 = st.r1.wrapping_sub(st.r2);
    } else if opcode == MUL {
        st.r1 = st.r1.wrapping_mul(st.r2);
    } else if opcode == DIV {
        if st.r2 != 0 {
            st.r1 = wrapping_div16(st.r1, st.r2);
        } else {
            st.r1 = 0;
        }
    } else if opcode == SQRT {
        st.r1 = isqrt(wrapping_abs16(st.r1));
    } else if opcode == NEG {
        st.r1 = wrapping_neg16(st.r1);
    } else if opcode == ABS {
        st.r1 = wrapping_abs16(st.r1);
    } else if opcode == MOD {
        if st.r2 != 0 {
            st.r1 = wrapping_rem16(st.r1, st.r2);
        } else {
            st.r1 = 0;
        }
    } else if opcode == SWAP {
        let t = st.r1;
        st.r1 = st.r2;
        st.r2 = t;
    } else if opcode == COPY_FWD {
        let src = (operand + 1) % nw;
        let val = read_word(tape, src, nw);
        write_word(tape, operand, nw, val);
    }
    // The Z3 has no branching: the PC always advances by one word.
    st.pc = st.pc + 1;
    true
}

impl Stepper for Z3 {
    type State = Z3State;

    open spec fn spec_live(s: Z3State, tape: Seq<u8>) -> bool {
        s.pc < tape.len() / 2
    }

    open spec fn spec_step(s: Z3State, tape: Seq<u8>) -> (bool, Z3State, Seq<u8>) {
        z3_next(s, tape)
    }

    fn live(s: &Z3State, tape: &[u8]) -> (b: bool) {
        s.pc < tape.len() / 2
    }

    fn step(s: &mut Z3State, tape: &mut [u8]) -> (go: bool) {
        z3_step(s, tape)
    }

    proof fn lemma_step_len(s: Z3State, tape: Seq<u8>) {
    }
}

/// What `Z3::execute` computes: the final tape and the step count.
pub open spec fn z3_execute(t: Seq<u8>, step_limit: nat) -> (Seq<u8>, nat) {
    if t.len() / 2 == 0 {
        (t, 0)
    } else {
        run::<Z3>(Z3State { pc: 0, r1: 0, r2: 0 }, t, step_limit)
    }
}

proof fn lemma_run_within_words(s: Z3State, t: Seq<u8>, fuel: nat)
    requires
        s.pc <= t.len() / 2,
        t.len() <= isize::MAX,
    ensures
        run::<Z3>(s, t, fuel).1 <= t.len() / 2 - s.pc,
    decreases fuel,
{
    if fuel > 0 && Z3::spec_live(s, t) {
        let (go, s2, t2) = z3_next(s, t);
        if go {
            assert(s2.pc == s.pc + 1);
            assert(t2.len() == t.len());
            lemma_run_within_words(s2, t2, (fuel - 1) as nat);
        }
    }
}

proof fn lemma_isqrt_from(n: nat, r: nat) -> (x: nat)
    requires
        r * r <= n <= 32768,
    ensures
        is_isqrt(n, x),
        x <= 181,
    decreases n - r * r,
{
    assert(r <= 181) by (nonlinear_arith)
        requires
            r * r <= 32768,
    ;
    if (r + 1) * (r + 1) <= n {
        assert((r + 1) * (r + 1) > r * r) by (nonlinear_arith);
        lemma_isqrt_from(n, r + 1)
    } else {
        r
    }
}

/// The Z3 has no branches: the program counter only moves forward, one word
/// per instruction, so a run never takes more steps than the tape has words.
pub proof fn law_steps_within_words(t: Seq<u8>, step_limit: nat)
    requires
        t.len() <= isize::MAX,
    ensures
        z3_execute(t, step_limit).1 <= t.len() / 2,
{
    if t.len() / 2 > 0 {
        lemma_run_within_words(Z3State { pc: 0, r1: 0, r2: 0 }, t, step_limit);
    }
}

/// The square root instruction computes the integer square root of the
/// magnitude: the largest `r` with `r * r <= |v|`.
pub proof fn law_isqrt_is_integer_square_root(v: i16)
    ensures
        is_isqrt(abs(v as int) as nat, z3_isqrt(v) as nat),
        0 <= z3_isqrt(v) <= 181,
{
    let n = abs(v as int) as nat;
    let r = lemma_isqrt_from(n, 0);
    assert(is_isqrt(n, r));
    let c = choose|x: nat| #[trigger] is_isqrt(n, x);
    lemma_isqrt_unique(n, c, r);
}

/// The text of the Z3 instruction word `b0`, `s` on a tape of `nw` words.
pub open spec fn z3_mnemonic(b0: u8, s: u8, nw: nat) -> Seq<char> {
    let op = b0 & 0x0F;
    if op == LOAD1 {
        "LOAD1 ["@ + dec(s as nat) + "]"@
    } else if op == LOAD2 {
        "LOAD2 ["@ + dec(s as nat) + "]"@
    } else if op == STORE1 {
        "STORE1 ["@ + dec(s as nat) + "]"@
    } else if op == STORE2 {
        "STORE2 ["@ + dec(s as nat) + "]"@
    } else if op == COPY_FWD {
        "COPY_FWD ["@ + dec(s as nat) + "] <- ["@ + dec(((s as nat + 1) % nw) as nat) + "]"@
    } else if op == HALT {
        "HALT"@
    } else if op == ADD {
        "ADD"@
    } else if op == SUB {
        "SUB"@
    } else if op == MUL {
        "MUL"@
    } else if op == DIV {
        "DIV"@
    } else if op == SQRT {
        "SQRT"@
    } else if op == NEG {
        "NEG"@
    } else if op == ABS {
        "ABS"@
    } else if op == MOD {
        "MOD"@
    } else if op == SWAP {
        "SWAP"@
    } else {
        "NOP"@
    }
}

fn z3_mnemonic_exec(b0: u8, s: u8, nw: usize) -> (out: String)
    requires
        nw > 0,
    ensures
        out@ == z3_mnemonic(b0, s, nw as nat),
{
    let op = b0 & 0x0F;
    let mut out = String::new();
    if op == LOAD1 || op == LOAD2 || op == STORE1 || op == STORE2 || op == COPY_FWD {
        out.append(
            if op == LOAD1 {
                "LOAD1 ["
            } else if op == LOAD2 {
                "LOAD2 ["
            } else if op == STORE1 {
                "STORE1 ["
            } else if op == STORE2 {
                "STORE2 ["
            } else {
                "COPY_FWD ["
            },
        );
        push_dec(&mut out, s as usize);
        if op == COPY_FWD {
            out.append("] <- [");
            push_dec(&mut out, (s as usize + 1) % nw);
        }
        out.append("]");
    } else {
        out.append(
            if op == HALT {
                "HALT"
            } else if op == ADD {
                "ADD"
            } else if op == SUB {
                "SUB"
            } else if op == MUL {
                "MUL"
            } else if op == DIV {
                "DIV"
            } else if op == SQRT {
                "SQRT"
            } else if op == NEG {
                "NEG"
            } else if op == ABS {
                "ABS"
            } else if op == MOD {
                "MOD"
            } else if op == SWAP {
                "SWAP"
            } else {
                "NOP"
            },
        );
    }
    assert(out@ =~= z3_mnemonic(b0, s, nw as nat));
    out
}

impl Lister for Z3 {
    open spec fn spec_line(t: Seq<u8>, pc: nat) -> (Seq<char>, nat) {
        if pc + 1 < t.len() {
            let b0 = t[pc as int];
            let b1 = t[pc + 1int];
            (
                hex(pc, 4) + ": "@ + hex(b0 as nat, 2) + " "@ + hex(b1 as nat, 2) + "  "@
                    + z3_mnemonic(b0, b1, t.len() / 2) + "\n"@,
                2,
            )
        } else {
            (Seq::empty(), 1)
        }
    }

    fn line(t: &[u8], pc: usize) -> (r: (String, usize)) {
        let mut out = String::new();
        if pc + 1 < t.len() {
            let b0 = t[pc];
            let b1 = t[pc + 1];
            push_hex(&mut out, pc, 4);
            out.append(": ");
            push_hex(&mut out, b0 as usize, 2);
            out.append(" ");
            push_hex(&mut out, b1 as usize, 2);
            out.append("  ");
            let m = z3_mnemonic_exec(b0, b1, t.len() / 2);
            out.append(m.as_str());
            out.append("\n");
            assert(out@ =~= Self::spec_line(t@, pc as nat).0);
            (out, 2)
        } else {
            (out, 1)
        }
    }
}

impl Substrate for Z3 {
    open spec fn spec_execute(tape: Seq<u8>, step_limit: nat) -> (Seq<u8>, nat) {
        z3_execute(tape, step_limit)
    }

    /// Without a battle mode of its own, a battle runs the plain execution.
    open spec fn spec_execute_battle(tape: Seq<u8>, ps: nat, step_limit: nat) -> (Seq<u8>, nat) {
        Self::spec_execute(tape, step_limit)
    }

    fn execute_battle(tape: &mut [u8], ps: usize, step_limit: usize) -> (steps: usize) {
        Self::execute(tape, step_limit)
    }

    fn execute(tape: &mut [u8], step_limit: usize) -> (steps: usize)
    {
        let num_words = tape.len() / 2;
        if num_words == 0 {
            return 0;
        }
        let mut state = Z3State { pc: 0, r1: 0, r2: 0 };
        run_solo::<Z3>(&mut state, tape, step_limit)
    }

    open spec fn spec_is_instruction(byte: u8) -> bool {
        (byte & 0x0F) <= COPY_FWD
    }

    fn is_instruction(byte: u8) -> (r: bool) {
        (byte & 0x0F) <= COPY_FWD
    }

    fn disassemble(tape: &[u8]) -> (out: String)
        ensures
            out@ == listing::<Z3>(tape@, 0),
    {
        list::<Z3>(tape)
    }
}

/// A word whose opcode is no instruction only moves the program counter on:
/// the registers and the tape stay as they are.
pub proof fn law_non_instruction_only_advances(s: Z3State, t: Seq<u8>)
    requires
        s.pc < t.len() / 2,
        !Z3::spec_is_instruction(t[(s.pc * 2) as int]),
    ensures
        z3_next(s, t) == (true, Z3State { pc: (s.pc + 1) as usize, r1: s.r1, r2: s.r2 }, t),
{
}

/// The register ops: ADD, SUB and MUL combine R1 with R2 into R1 with
/// 16-bit wrap-around, NEG negates R1 and ABS takes its size (both wrapping
/// at i16::MIN), SWAP exchanges R1 and R2. R2 stays unless swapped, the tape
/// stays, and the program counter moves on.
pub proof fn law_register_ops(s: Z3State, t: Seq<u8>)
    requires
        s.pc < t.len() / 2,
        t.len() <= usize::MAX,
        ({
            let op = t[(s.pc * 2) as int] & 0x0F;
            op == ADD || op == SUB || op == MUL || op == NEG || op == ABS || op == SWAP
        }),
    ensures
        ({
            let (go, s2, t2) = z3_next(s, t);
            let op = t[(s.pc * 2) as int] & 0x0F;
            &&& go
            &&& t2 == t
            &&& s2.pc == s.pc + 1
            &&& s2.r2 == if op == SWAP { s.r1 } else { s.r2 }
            &&& op == ADD ==> s2.r1 == wrap16(s.r1 + s.r2)
            &&& op == SUB ==> s2.r1 == wrap16(s.r1 - s.r2)
            &&& op == MUL ==> s2.r1 == wrap16(s.r1 * s.r2)
            &&& op == NEG ==> s2.r1 == wrap16(-s.r1)
            &&& op == ABS ==> s2.r1 == wrap16(abs(s.r1 as int))
            &&& op == SWAP ==> s2.r1 == s.r2
        }),
{
    lemma_wrapping16(s.r1, s.r2);
    lemma_wrapping16(0, s.r1);
}

/// DIV and MOD divide R1 by R2, rounding toward zero: DIV leaves a quotient
/// `q` and MOD a remainder `m` such that R1 - q * R2 (for DIV) and m (for
/// MOD) are the remainder: smaller than R2 in size, zero or of R1's sign,
/// and R1 - m a multiple of R2. A zero R2 gives 0. (i16::MIN by -1 gives
/// i16::MIN and 0.) R2, the tape and the flow (on by one) are untouched.
pub proof fn law_division(s: Z3State, t: Seq<u8>)
    requires
        s.pc < t.len() / 2,
        t.len() <= usize::MAX,
        t[(s.pc * 2) as int] & 0x0F == DIV || t[(s.pc * 2) as int] & 0x0F == MOD,
    ensures
        ({
            let (go, s2, t2) = z3_next(s, t);
            let op = t[(s.pc * 2) as int] & 0x0F;
            let a = s.r1 as int;
            let b = s.r2 as int;
            &&& go
            &&& t2 == t
            &&& s2.pc == s.pc + 1
            &&& s2.r2 == s.r2
            &&& b == 0 ==> s2.r1 == 0
            &&& b != 0 && !(s.r1 == i16::MIN && b == -1) ==> {
                let rem = if op == DIV { a - s2.r1 * b } else { s2.r1 as int };
                &&& abs(rem) < abs(b)
                &&& rem == 0 || (rem < 0) == (a < 0)
                &&& op == MOD ==> exists|q: int| #[trigger] (q * b) == a - rem
            }
            &&& s.r1 == i16::MIN && b == -1 ==> s2.r1 == if op == DIV { i16::MIN } else { 0 }
        }),
{
    if s.r2 != 0 && !(s.r1 == i16::MIN && s.r2 == -1) {
        lemma_div16_rem16(s.r1, s.r2);
        let q = div16(s.r1, s.r2) as int;
        assert(q * s.r2 == s.r1 - rem16(s.r1, s.r2));
    }
}

proof fn lemma_isqrt_exists(n: nat)
    ensures
        exists|r: nat| #[trigger] is_isqrt(n, r),
    decreases n,
{
    if n == 0 {
        assert(1nat * 1nat == 1);
        assert(is_isqrt(0, 0));
    } else {
        lemma_isqrt_exists((n - 1) as nat);
        let r = choose|r: nat| #[trigger] is_isqrt((n - 1) as nat, r);
        if (r + 1) * (r + 1) <= n {
            assert((r + 1) * (r + 1) == n);
            assert(n < (r + 2) * (r + 2)) by (nonlinear_arith)
                requires
                    (r + 1) * (r + 1) == n,
            ;
            assert(is_isqrt(n, r + 1));
        } else {
            assert(is_isqrt(n, r));
        }
    }
}

/// SQRT replaces R1 by the square root of its size, rounded down: the
/// largest `r` whose square does not pass |R1|. R2, the tape and the flow
/// (on by one) are untouched.
pub proof fn law_square_root(s: Z3State, t: Seq<u8>)
    requires
        s.pc < t.len() / 2,
        t.len() <= usize::MAX,
        t[(s.pc * 2) as int] & 0x0F == SQRT,
    ensures
        ({
            let (go, s2, t2) = z3_next(s, t);
            let r = s2.r1 as int;
            let n = abs(s.r1 as int);
            &&& go
            &&& t2 == t
            &&& s2.pc == s.pc + 1
            &&& s2.r2 == s.r2
            &&& 0 <= r
            &&& r * r <= n < (r + 1) * (r + 1)
        }),
{
    let v = abs16(s.r1);
    let n = abs(v as int) as nat;
    assert(n == abs(s.r1 as int));
    lemma_isqrt_exists(n);
    let c = choose|x: nat| #[trigger] is_isqrt(n, x);
    assert(c <= 181) by (nonlinear_arith)
        requires
            c * c <= n,
            n <= 32768,
    ;
    assert(z3_isqrt(v) as int == c);
}

/// The memory ops on word `S` (around the memory): LOAD1 and LOAD2 load it
/// into R1 or R2, STORE1 and STORE2 put R1 or R2 in it, COPY_FWD copies the
/// next word (around the memory) into it. Only the two bytes of word S can
/// change; the flow moves on by one.
pub proof fn law_memory_ops(s: Z3State, t: Seq<u8>)
    requires
        s.pc < t.len() / 2,
        t.len() <= usize::MAX,
        ({
            let op = t[(s.pc * 2) as int] & 0x0F;
            op == LOAD1 || op == LOAD2 || op == STORE1 || op == STORE2 || op == COPY_FWD
        }),
    ensures
        ({
            let (go, s2, t2) = z3_next(s, t);
            let op = t[(s.pc * 2) as int] & 0x0F;
            let nw = t.len() / 2;
            let k = t[(s.pc * 2 + 1) as int] as nat % nw;
            let w = (k * 2) as int;
            let w_next = (((t[(s.pc * 2 + 1) as int] as nat + 1) % nw) * 2) as int;
            let m = le16(t[w], t[w + 1]);
            &&& go
            &&& s2.pc == s.pc + 1
            &&& t2.len() == t.len()
            &&& forall|i: int| 0 <= i < t.len() && i != w && i != w + 1 ==> t2[i] == t[i]
            &&& op == LOAD1 ==> t2 == t && s2.r1 == m && s2.r2 == s.r2
            &&& op == LOAD2 ==> t2 == t && s2.r1 == s.r1 && s2.r2 == m
            &&& op == STORE1 ==> s2.r1 == s.r1 && s2.r2 == s.r2 && le16(t2[w], t2[w + 1]) == s.r1
            &&& op == STORE2 ==> s2.r1 == s.r1 && s2.r2 == s.r2 && le16(t2[w], t2[w + 1]) == s.r2
            &&& op == COPY_FWD ==> s2.r1 == s.r1 && s2.r2 == s.r2 && le16(t2[w], t2[w + 1]) == le16(
                t[w_next],
                t[w_next + 1],
            )
        }),
{
    let nw = t.len() / 2;
    let k = t[(s.pc * 2 + 1) as int] as nat % nw;
    let w = (k * 2) as int;
    let j = (t[(s.pc * 2 + 1) as int] as nat + 1) % nw;
    let w_next = (j * 2) as int;
    assert(w + 1 < t.len() && w_next + 1 < t.len()) by (nonlinear_arith)
        requires
            k < nw,
            j < nw,
            w == k * 2,
            w_next == j * 2,
            nw == t.len() / 2,
    ;
    vstd::arithmetic::div_mod::lemma_small_mod(j, nw);
    let v = z3_word(t, (t[(s.pc * 2 + 1) as int] as nat + 1) % nw);
    lemma_put16_reads_back(t, w, s.r1);
    lemma_put16_reads_back(t, w, s.r2);
    lemma_put16_reads_back(t, w, v);
}

/// Without a battle mode of its own, a battle is the plain run of the tape,
/// whatever the program size.
pub proof fn law_battle_is_plain_run(t: Seq<u8>, program_size: nat, step_limit: nat)
    ensures
        Z3::spec_execute_battle(t, program_size, step_limit) == Z3::spec_execute(t, step_limit),
{
}

} // verus!

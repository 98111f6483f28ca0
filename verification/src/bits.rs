use vstd::prelude::*;

use crate::stepper::{battle, rel_jump, rel_jump_exec, run, run_battle, run_solo, Stepper};
use crate::substrate::Substrate;
use crate::text::{hex, push_hex, push_signed, signed_dec};
use crate::word::{lemma_byte_arith, lemma_nibbles};

verus! {

/// The Bits (Bit-Serial Machine) instruction set: it operates on individual bits.
///
/// Unlike all other substrates which operate at byte granularity, Bits addresses
/// individual bits within the tape. This creates a fundamentally different
/// computational granularity.
///
/// State:
/// - `pc`: instruction pointer (byte-addressed), starts at 0
/// - `bp`: bit read pointer, starts at 0
/// - `wp`: bit write pointer, starts at `tape.len() * 8 / 2` (midpoint in bits)
/// - `carry`: 1-bit register, starts at 0
///
/// Bit addressing: bit `n` is `(tape[n / 8] >> (n % 8)) & 1`.
/// All bit pointers wrap modulo `tape.len() * 8`.
pub struct Bits;

/// The number of bits on a tape of `len` bytes.
pub open spec fn spec_total_bits(len: nat) -> nat {
    len * 8
}

/// Bit `bit_pos` (modulo the number of bits) of the tape; 0 on an empty tape.
pub open spec fn spec_read_bit(t: Seq<u8>, bit_pos: nat) -> u8 {
    let tb = spec_total_bits(t.len());
    if tb == 0 {
        0
    } else {
        let pos = bit_pos % tb;
        (t[(pos / 8) as int] >> ((pos % 8) as u8)) & 1
    }
}

/// The tape with bit `bit_pos` (modulo the number of bits) set to the low
/// bit of `val`; an empty tape is left alone.
pub open spec fn spec_write_bit(t: Seq<u8>, bit_pos: nat, val: u8) -> Seq<u8> {
    let tb = spec_total_bits(t.len());
    if tb == 0 {
        t
    } else {
        let pos = bit_pos % tb;
        let byte_idx = (pos / 8) as int;
        let mask = 1u8 << ((pos % 8) as u8);
        if val & 1 == 1 {
            t.update(byte_idx, t[byte_idx] | mask)
        } else {
            t.update(byte_idx, t[byte_idx] & !mask)
        }
    }
}

/// The number of bits on the tape.
pub fn total_bits(tape: &[u8]) -> (tb: u128)
    ensures
        tb as nat == spec_total_bits(tape@.len()),
{
    tape.len() as u128 * 8
}

/// Read bit `bit_pos` (modulo the number of bits) of the tape.
pub fn read_bit(tape: &[u8], bit_pos: u128) -> (b: u8)
    ensures
        b == spec_read_bit(tape@, bit_pos as nat),
{
    let tb = total_bits(tape);
    if tb == 0 {
        return 0;
    }
    let pos = bit_pos % tb;
    (tape[(pos / 8) as usize] >> ((pos % 8) as u8)) & 1
}

/// Set bit `bit_pos` (modulo the number of bits) of the tape to the low bit of `val`.
pub fn write_bit(tape: &mut [u8], bit_pos: u128, val: u8)
    ensures
        final(tape)@ == spec_write_bit(old(tape)@, bit_pos as nat, val),
{
    let tb = total_bits(tape);
    if tb == 0 {
        return;
    }
    let pos = bit_pos % tb;
    let byte_idx = (pos / 8) as usize;
    let bit_idx = (pos % 8) as u8;
    if val & 1 == 1 {
        tape[byte_idx] = tape[byte_idx] | (1u8 << bit_idx);
    } else {
        tape[byte_idx] = tape[byte_idx] & !(1u8 << bit_idx);
    }
}

/// The registers of one running Bits context.
#[derive(Clone, Copy)]
pub struct BitsState {
    pub pc: usize,
    pub bp: u128,
    pub wp: u128,
    pub carry: u8,
}

/// The meaning of one Bits instruction.
pub open spec fn bits_next(s: BitsState, t: Seq<u8>) -> (bool, BitsState, Seq<u8>) {
    let len = t.len();
    if s.pc >= len {
        (false, s, t)
    } else {
        let tb = spec_total_bits(len) as int;
        let op = t[s.pc as int] >> 4;
        let pc1 = (s.pc + 1) as usize;
        let bp1 = ((s.bp as int % tb + 1) % tb) as u128;
        let wp1 = ((s.wp as int % tb + 1) % tb) as u128;
        if op == 0x0 {
            // COPY_BIT
            let bit = spec_read_bit(t, s.bp as nat);
            (
                true,
                BitsState { pc: pc1, bp: bp1, wp: wp1, carry: s.carry },
                spec_write_bit(t, s.wp as nat, bit),
            )
        } else if op == 0x1 {
            // SET_BIT
            (
                true,
                BitsState { pc: pc1, bp: s.bp, wp: wp1, carry: s.carry },
                spec_write_bit(t, s.wp as nat, 1),
            )
        } else if op == 0x2 {
            // CLR_BIT
            (
                true,
                BitsState { pc: pc1, bp: s.bp, wp: wp1, carry: s.carry },
                spec_write_bit(t, s.wp as nat, 0),
            )
        } else if op == 0x3 {
            // SKIP_BIT
            (true, BitsState { pc: pc1, bp: bp1, wp: s.wp, carry: s.carry }, t)
        } else if op == 0x4 {
            // READ_CARRY
            (
                true,
                BitsState { pc: pc1, bp: bp1, wp: s.wp, carry: spec_read_bit(t, s.bp as nat) },
                t,
            )
        } else if op == 0x5 {
            // WRITE_CARRY
            (
                true,
                BitsState { pc: pc1, bp: s.bp, wp: wp1, carry: s.carry },
                spec_write_bit(t, s.wp as nat, s.carry),
            )
        } else if op == 0x6 {
            // FLIP_CARRY
            (true, BitsState { pc: pc1, bp: s.bp, wp: s.wp, carry: s.carry ^ 1 }, t)
        } else if op == 0x7 {
            // AND_CARRY
            (
                true,
                BitsState {
                    pc: pc1,
                    bp: bp1,
                    wp: s.wp,
                    carry: s.carry & spec_read_bit(t, s.bp as nat),
                },
                t,
            )
        } else if op == 0x8 {
            // OR_CARRY
            (
                true,
                BitsState {
                    pc: pc1,
                    bp: bp1,
                    wp: s.wp,
                    carry: s.carry | spec_read_bit(t, s.bp as nat),
                },
                t,
            )
        } else if op == 0x9 {
            // XOR_CARRY
            (
                true,
                BitsState {
                    pc: pc1,
                    bp: bp1,
                    wp: s.wp,
                    carry: s.carry ^ spec_read_bit(t, s.bp as nat),
                },
                t,
            )
        } else if op == 0xA || op == 0xB {
            // JZ_CARRY / JNZ_CARRY: two-byte relative jump on the carry.
            if s.pc + 1 >= len {
                (false, s, t)
            } else if (op == 0xA) == (s.carry == 0) {
                match rel_jump(s.pc, t[s.pc + 1] as i8) {
                    Some(np) => (true, BitsState { pc: np, bp: s.bp, wp: s.wp, carry: s.carry }, t),
                    None => (false, s, t),
                }
            } else {
                (
                    true,
                    BitsState { pc: (s.pc + 2) as usize, bp: s.bp, wp: s.wp, carry: s.carry },
                    t,
                )
            }
        } else if op == 0xC {
            // BP_RESET
            (true, BitsState { pc: pc1, bp: 0, wp: s.wp, carry: s.carry }, t)
        } else if op == 0xD {
            // WP_RESET
            (true, BitsState { pc: pc1, bp: s.bp, wp: (tb / 2) as u128, carry: s.carry }, t)
        } else if op == 0xE {
            // HALT
            (false, s, t)
        } else {
            // NOP
            (true, BitsState { pc: pc1, bp: s.bp, wp: s.wp, carry: s.carry }, t)
        }
    }
}

/// The tape `t2` differs from `t` at most in bit `w` (taken modulo the
/// number of bits): every other byte is the same, and so are the other
/// seven bits of the byte that holds it.
pub open spec fn at_most_bit(t: Seq<u8>, t2: Seq<u8>, w: nat) -> bool {
    let tb = spec_total_bits(t.len());
    &&& t2.len() == t.len()
    &&& tb > 0 ==> {
        let pos = w % tb;
        let mask = 1u8 << ((pos % 8) as u8);
        &&& forall|k: int| 0 <= k < t.len() && k != pos / 8 ==> #[trigger] t2[k] == t[k]
        &&& t2[(pos / 8) as int] & !mask == t[(pos / 8) as int] & !mask
    }
    &&& tb == 0 ==> t2 == t
}

proof fn lemma_write_bit_at_most(t: Seq<u8>, w: nat, val: u8)
    ensures
        at_most_bit(t, spec_write_bit(t, w, val), w),
{
    let tb = spec_total_bits(t.len());
    if tb > 0 {
        let pos = w % tb;
        assert(pos / 8 < t.len()) by (nonlinear_arith)
            requires
                pos < tb,
                tb == t.len() * 8,
        ;
        let x = t[(pos / 8) as int];
        let sh = (pos % 8) as u8;
        assert(sh < 8);
        let mask = 1u8 << sh;
        assert((x | mask) & !mask == x & !mask) by (bit_vector);
        assert((x & !mask) & !mask == x & !mask) by (bit_vector);
    }
}

/// One Bits step changes at most the bit under the write pointer, and a
/// step that stops the context leaves the tape alone.
pub proof fn law_step_changes_at_most_write_bit(s: BitsState, t: Seq<u8>)
    ensures
        at_most_bit(t, bits_next(s, t).2, s.wp as nat),
        !bits_next(s, t).0 ==> bits_next(s, t).2 == t,
{
    lemma_write_bit_at_most(t, s.wp as nat, spec_read_bit(t, s.bp as nat));
    lemma_write_bit_at_most(t, s.wp as nat, 1);
    lemma_write_bit_at_most(t, s.wp as nat, 0);
    lemma_write_bit_at_most(t, s.wp as nat, s.carry);
    let tb = spec_total_bits(t.len());
    if tb > 0 {
        let pos = (s.wp as nat) % tb;
        assert(pos / 8 < t.len()) by (nonlinear_arith)
            requires
                pos < tb,
                tb == t.len() * 8,
        ;
    }
}

/// A bit written reads back as the low bit of the value written, and every
/// other bit of the tape reads as before.
pub proof fn law_written_bit_reads_back(t: Seq<u8>, w: nat, v: u8, p: nat)
    requires
        t.len() > 0,
    ensures
        spec_read_bit(spec_write_bit(t, w, v), w) == v & 1,
        p % spec_total_bits(t.len()) != w % spec_total_bits(t.len()) ==> spec_read_bit(
            spec_write_bit(t, w, v),
            p,
        ) == spec_read_bit(t, p),
{
    let tb = spec_total_bits(t.len());
    let pos = w % tb;
    let q = p % tb;
    assert(pos / 8 < t.len() && q / 8 < t.len()) by (nonlinear_arith)
        requires
            pos < tb,
            q < tb,
            tb == t.len() * 8,
    ;
    let x = t[(pos / 8) as int];
    let sh = (pos % 8) as u8;
    let sh2 = (q % 8) as u8;
    assert(((x | (1u8 << sh)) >> sh) & 1 == 1 && ((x & !(1u8 << sh)) >> sh) & 1 == 0 && (v & 1 == 1
        || v & 1 == 0) && (sh2 != sh ==> ((x | (1u8 << sh)) >> sh2) & 1 == (x >> sh2) & 1 && ((x
        & !(1u8 << sh)) >> sh2) & 1 == (x >> sh2) & 1)) by (bit_vector)
        requires
            sh < 8,
            sh2 < 8,
    ;
    if q != pos && q / 8 == pos / 8 {
        assert(sh2 != sh);
    }
}

/// The bit ops, with `b` the bit under the read pointer and `tb` the number
/// of bits: COPY_BIT (high nibble 0) writes b at the write pointer, SET_BIT
/// (1) and CLR_BIT (2) write 1 and 0 there, WRITE_CARRY (5) writes the
/// carry; READ_CARRY (4) loads b into the carry, FLIP_CARRY (6) flips it,
/// AND_, OR_ and XOR_CARRY (7-9) combine it with b. Each op that reads b
/// (0, 3, 4, 7-9) moves the read pointer on by one bit, each that writes
/// moves the write pointer on by one bit, around the tape. The flow moves on
/// by one byte.
pub proof fn law_bit_ops(s: BitsState, t: Seq<u8>)
    requires
        s.pc < t.len() <= usize::MAX,
        t[s.pc as int] / 16 <= 9,
    ensures
        ({
            let (go, s2, t2) = bits_next(s, t);
            let op = t[s.pc as int] / 16;
            let tb = spec_total_bits(t.len()) as int;
            let b = spec_read_bit(t, s.bp as nat);
            let reads = op == 0 || op == 3 || op == 4 || op == 7 || op == 8 || op == 9;
            let writes = op == 0 || op == 1 || op == 2 || op == 5;
            &&& go
            &&& s2.pc == s.pc + 1
            &&& s2.bp as int == if reads { (s.bp as int % tb + 1) % tb } else { s.bp as int }
            &&& s2.wp as int == if writes { (s.wp as int % tb + 1) % tb } else { s.wp as int }
            &&& !writes ==> t2 == t
            &&& writes ==> spec_read_bit(t2, s.wp as nat) == if op == 0 {
                b
            } else if op == 1 {
                1
            } else if op == 2 {
                0
            } else {
                s.carry & 1
            }
            &&& s2.carry == if op == 4 {
                b
            } else if op == 6 {
                s.carry ^ 1
            } else if op == 7 {
                s.carry & b
            } else if op == 8 {
                s.carry | b
            } else if op == 9 {
                s.carry ^ b
            } else {
                s.carry
            }
        }),
{
    let x = t[s.pc as int];
    let tb = spec_total_bits(t.len());
    assert(x >> 4 == x / 16) by (bit_vector);
    law_written_bit_reads_back(t, s.wp as nat, spec_read_bit(t, s.bp as nat), 0);
    law_written_bit_reads_back(t, s.wp as nat, 1, 0);
    law_written_bit_reads_back(t, s.wp as nat, 0, 0);
    law_written_bit_reads_back(t, s.wp as nat, s.carry, 0);
    let b = spec_read_bit(t, s.bp as nat);
    let pos = s.bp as nat % tb;
    assert(pos / 8 < t.len()) by (nonlinear_arith)
        requires
            pos < tb,
            tb == t.len() * 8,
    ;
    let y = t[(pos / 8) as int];
    let sh = (pos % 8) as u8;
    assert(((y >> sh) & 1) & 1 == (y >> sh) & 1 && (1u8 & 1 == 1) && (0u8 & 1 == 0)) by (bit_vector);
}

/// The control ops: JZ_CARRY (high nibble 0xA) and JNZ_CARRY (0xB) read a
/// signed offset from the next byte and, on a zero or nonzero carry, go on
/// at the byte after it plus the offset (stopping before the tape's start),
/// else skip it; with no next byte they stop. BP_RESET (0xC) puts the read
/// pointer at bit 0, WP_RESET (0xD) puts the write pointer at the middle
/// bit, HALT (0xE) stops. None of them changes the tape.
pub proof fn law_control_ops(s: BitsState, t: Seq<u8>)
    requires
        s.pc < t.len(),
        t.len() + 128 <= usize::MAX,
        0xA <= t[s.pc as int] / 16 <= 0xE,
    ensures
        ({
            let (go, s2, t2) = bits_next(s, t);
            let op = t[s.pc as int] / 16;
            let taken = (op == 0xA && s.carry == 0) || (op == 0xB && s.carry != 0);
            let d = t[s.pc + 1] as int;
            let target = s.pc + 2 + if d >= 128 { d - 256 } else { d };
            &&& t2 == t
            &&& op == 0xC ==> go && s2 == BitsState { pc: (s.pc + 1) as usize, bp: 0, ..s }
            &&& op == 0xD ==> go && s2 == BitsState {
                pc: (s.pc + 1) as usize,
                wp: (t.len() * 4) as u128,
                ..s
            }
            &&& op == 0xE ==> !go && s2 == s
            &&& (op == 0xA || op == 0xB) && s.pc + 1 >= t.len() ==> !go && s2 == s
            &&& (op == 0xA || op == 0xB) && s.pc + 1 < t.len() ==> {
                &&& taken && target < 0 ==> !go && s2 == s
                &&& taken && target >= 0 ==> go && s2 == BitsState { pc: target as usize, ..s }
                &&& !taken ==> go && s2 == BitsState { pc: (s.pc + 2) as usize, ..s }
            }
        }),
{
    lemma_nibbles(t[s.pc as int]);
    if s.pc + 1 < t.len() {
        let e = t[s.pc + 1];
        lemma_byte_arith(e, 0, e.wrapping_add(0), e.wrapping_sub(0));
    }
}

/// Execute one Bits instruction for a context. Returns true if still running.
pub fn bits_battle_step(state: &mut BitsState, tape: &mut [u8]) -> (go: bool)
    requires
        old(tape)@.len() <= isize::MAX,
    ensures
        (go, *final(state), final(tape)@) == bits_next(*old(state), old(tape)@),
{
    let len = tape.len();
    if state.pc >= len {
        return false;
    }
    let tb = total_bits(tape);
    let op = tape[state.pc] >> 4;
    if op == 0x0 {
        let bit = read_bit(tape, state.bp);
        write_bit(tape, state.wp, bit);
        state.bp = (state.bp % tb + 1) % tb;
        state.wp = (state.wp % tb + 1) % tb;
    } else if op == 0x1 {
        write_bit(tape, state.wp, 1);
        state.wp = (state.wp % tb + 1) % tb;
    } else if op == 0x2 {
        write_bit(tape, state.wp, 0);
        state.wp = (state.wp % tb + 1) % tb;
    } else if op == 0x3 {
        state.bp = (state.bp % tb + 1) % tb;
    } else if op == 0x4 {
        state.carry = read_bit(tape, state.bp);
        state.bp = (state.bp % tb + 1) % tb;
    } else if op == 0x5 {
        write_bit(tape, state.wp, state.carry);
        state.wp = (state.wp % tb + 1) % tb;
    } else if op == 0x6 {
        state.carry = state.carry ^ 1;
    } else if op == 0x7 {
        state.carry = state.carry & read_bit(tape, state.bp);
        state.bp = (state.bp % tb + 1) % tb;
    } else if op == 0x8 {
        state.carry = state.carry | read_bit(tape, state.bp);
        state.bp = (state.bp % tb + 1) % tb;
    } else if op == 0x9 {
        state.carry = state.carry ^ read_bit(tape, state.bp);
        state.bp = (state.bp % tb + 1) % tb;
    } else if op == 0xA || op == 0xB {
        if state.pc + 1 >= len {
            return false;
        }
        if (op == 0xA) == (state.carry == 0) {
            match rel_jump_exec(state.pc, tape[state.pc + 1] as i8) {
                Some(np) => {
                    state.pc = np;
                    return true;
                },
                None => {
                    return false;
                },
            }
        }
        state.pc = state.pc + 2;
        return true;
    } else if op == 0xC {
        state.bp = 0;
    } else if op == 0xD {
        state.wp = tb / 2;
    } else if op == 0xE {
        return false;
    }
    state.pc = state.pc + 1;
    true
}

impl Stepper for Bits {
    type State = BitsState;

    open spec fn spec_live(s: BitsState, tape: Seq<u8>) -> bool {
        s.pc < tape.len()
    }

    open spec fn spec_step(s: BitsState, tape: Seq<u8>) -> (bool, BitsState, Seq<u8>) {
        bits_next(s, tape)
    }

    fn live(s: &BitsState, tape: &[u8]) -> (b: bool) {
        s.pc < tape.len()
    }

    fn step(s: &mut BitsState, tape: &mut [u8]) -> (go: bool) {
        bits_battle_step(s, tape)
    }

    proof fn lemma_step_len(s: BitsState, tape: Seq<u8>) {
    }
}

/// The state a single program starts in.
pub open spec fn bits_start(len: nat) -> BitsState {
    BitsState { pc: 0, bp: 0, wp: (spec_total_bits(len) / 2) as u128, carry: 0 }
}

/// What `Bits::execute` computes: the final tape and the step count.
pub open spec fn bits_execute(t: Seq<u8>, step_limit: nat) -> (Seq<u8>, nat) {
    if t.len() == 0 {
        (t, 0)
    } else {
        run::<Bits>(bits_start(t.len()), t, step_limit)
    }
}

/// What `Bits::execute_battle` computes: context A starts at 0 reading bit 0
/// and writing at bit `8 * ps`; context B starts at `ps` reading bit `8 * ps`
/// and writing at bit 0.
pub open spec fn bits_execute_battle(t: Seq<u8>, ps: nat, step_limit: nat) -> (Seq<u8>, nat) {
    if t.len() == 0 {
        (t, 0)
    } else {
        battle::<Bits>(
            BitsState { pc: 0, bp: 0, wp: (ps * 8) as u128, carry: 0 },
            BitsState { pc: ps as usize, bp: (ps * 8) as u128, wp: 0, carry: 0 },
            false,
            false,
            t,
            step_limit,
        )
    }
}

/// The text and the length of the instruction at `pc` in the disassembly.
pub open spec fn bits_desc(t: Seq<u8>, pc: int) -> (Seq<char>, nat) {
    let op = t[pc] >> 4;
    if op == 0xA || op == 0xB {
        let name = if op == 0xA {
            "JZ_CARRY"@
        } else {
            "JNZ_CARRY"@
        };
        if pc + 1 < t.len() {
            let offset = (t[pc + 1] as i8) as int;
            (
                name + " "@ + signed_dec(offset, true) + " (-> "@ + signed_dec(pc + 2 + offset, false)
                    + ")"@,
                2,
            )
        } else {
            (name + " ???"@, 1)
        }
    } else {
        (bits_op_name(op), 1)
    }
}

/// The mnemonic of a one-byte Bits instruction with high nibble `op`.
pub open spec fn bits_op_name(op: u8) -> Seq<char> {
    if op == 0x0 {
        "COPY_BIT"@
    } else if op == 0x1 {
        "SET_BIT"@
    } else if op == 0x2 {
        "CLR_BIT"@
    } else if op == 0x3 {
        "SKIP_BIT"@
    } else if op == 0x4 {
        "READ_CARRY"@
    } else if op == 0x5 {
        "WRITE_CARRY"@
    } else if op == 0x6 {
        "FLIP_CARRY"@
    } else if op == 0x7 {
        "AND_CARRY"@
    } else if op == 0x8 {
        "OR_CARRY"@
    } else if op == 0x9 {
        "XOR_CARRY"@
    } else if op == 0xC {
        "BP_RESET"@
    } else if op == 0xD {
        "WP_RESET"@
    } else if op == 0xE {
        "HALT"@
    } else {
        "NOP"@
    }
}

/// The address shown for the instruction at `pc` whose length is `size`:
/// a jump whose address would leave the next position at 2 or more is shown
/// two bytes back from it, everything else one byte back.
pub open spec fn bits_shown_addr(t: Seq<u8>, pc: int, size: nat) -> int {
    let op = t[pc] >> 4;
    if (op == 0xA || op == 0xB) && pc + size >= 2 {
        pc + size - 2
    } else {
        pc + size - 1
    }
}

/// The disassembly from `pc` to the end of the tape.
pub open spec fn bits_listing(t: Seq<u8>, pc: nat) -> Seq<char>
    decreases t.len() - pc,
{
    if pc >= t.len() {
        Seq::empty()
    } else {
        let (desc, size) = bits_desc(t, pc as int);
        let addr = bits_shown_addr(t, pc as int, size);
        hex(addr as nat, 4) + ": "@ + hex(t[pc as int] as nat, 2) + "  "@ + desc + "\n"@
            + bits_listing(t, pc + size)
    }
}

fn bits_name(op: u8) -> (s: &'static str)
    ensures
        s@ == bits_op_name(op),
{
    if op == 0x0 {
        "COPY_BIT"
    } else if op == 0x1 {
        "SET_BIT"
    } else if op == 0x2 {
        "CLR_BIT"
    } else if op == 0x3 {
        "SKIP_BIT"
    } else if op == 0x4 {
        "READ_CARRY"
    } else if op == 0x5 {
        "WRITE_CARRY"
    } else if op == 0x6 {
        "FLIP_CARRY"
    } else if op == 0x7 {
        "AND_CARRY"
    } else if op == 0x8 {
        "OR_CARRY"
    } else if op == 0x9 {
        "XOR_CARRY"
    } else if op == 0xC {
        "BP_RESET"
    } else if op == 0xD {
        "WP_RESET"
    } else if op == 0xE {
        "HALT"
    } else {
        "NOP"
    }
}

fn bits_desc_exec(tape: &[u8], pc: usize) -> (r: (String, usize))
    requires
        pc < tape@.len() <= isize::MAX,
    ensures
        (r.0@, r.1 as nat) == bits_desc(tape@, pc as int),
{
    let len = tape.len();
    let op = tape[pc] >> 4;
    let mut line = String::new();
    if op == 0xA || op == 0xB {
        let name = if op == 0xA {
            "JZ_CARRY"
        } else {
            "JNZ_CARRY"
        };
        line.append(name);
        if pc + 1 < len {
            let offset = tape[pc + 1] as i8;
            line.append(" ");
            push_signed(&mut line, offset as i128, true);
            line.append(" (-> ");
            push_signed(&mut line, pc as i128 + 2 + offset as i128, false);
            line.append(")");
            assert(line@ =~= bits_desc(tape@, pc as int).0);
            (line, 2)
        } else {
            line.append(" ???");
            assert(line@ =~= bits_desc(tape@, pc as int).0);
            (line, 1)
        }
    } else {
        line.append(bits_name(op));
        (line, 1)
    }
}

impl Substrate for Bits {
    open spec fn spec_execute(tape: Seq<u8>, step_limit: nat) -> (Seq<u8>, nat) {
        bits_execute(tape, step_limit)
    }

    open spec fn spec_execute_battle(tape: Seq<u8>, ps: nat, step_limit: nat) -> (Seq<u8>, nat) {
        bits_execute_battle(tape, ps, step_limit)
    }

    fn execute(tape: &mut [u8], step_limit: usize) -> (steps: usize)
    {
        let len = tape.len();
        if len == 0 {
            return 0;
        }
        let tb = total_bits(tape);
        let mut state = BitsState { pc: 0, bp: 0, wp: tb / 2, carry: 0 };
        run_solo::<Bits>(&mut state, tape, step_limit)
    }

    fn execute_battle(tape: &mut [u8], ps: usize, step_limit: usize) -> (steps: usize)
    {
        let len = tape.len();
        if len == 0 {
            return 0;
        }
        let mut a = BitsState { pc: 0, bp: 0, wp: ps as u128 * 8, carry: 0 };
        let mut b = BitsState { pc: ps, bp: ps as u128 * 8, wp: 0, carry: 0 };
        run_battle::<Bits>(&mut a, &mut b, tape, step_limit)
    }

    open spec fn spec_is_instruction(byte: u8) -> bool {
        (byte >> 4) <= 0xE
    }

    fn is_instruction(byte: u8) -> (r: bool) {
        (byte >> 4) <= 0xE
    }

    fn disassemble(tape: &[u8]) -> (out: String)
        ensures
            out@ == bits_listing(tape@, 0),
    {
        let mut out = String::new();
        let len = tape.len();
        let mut pc: usize = 0;
        while pc < len
            invariant
                pc <= len == tape@.len() <= isize::MAX,
                out@ + bits_listing(tape@, pc as nat) == bits_listing(tape@, 0),
            decreases len - pc,
        {
            let b = tape[pc];
            let ghost before = out@;
            let ghost pc0 = pc;
            let (line, size) = bits_desc_exec(tape, pc);
            let shown = if (b >> 4 == 0xA || b >> 4 == 0xB) && pc + size >= 2 {
                pc + size - 2
            } else {
                pc + size - 1
            };
            let ghost desc = line@;
            pc += size;
            push_hex(&mut out, shown, 4);
            out.append(": ");
            push_hex(&mut out, b as usize, 2);
            out.append("  ");
            out.append(line.as_str());
            out.append("\n");
            assert(out@ =~= before + (hex(shown as nat, 4) + ": "@ + hex(b as nat, 2) + "  "@ + desc
                + "\n"@));
        }
        out
    }
}

/// A byte that is no instruction only moves the program counter on: the bit
/// pointers, the carry and the tape stay as they are.
pub proof fn law_non_instruction_only_advances(s: BitsState, t: Seq<u8>)
    requires
        s.pc < t.len(),
        !Bits::spec_is_instruction(t[s.pc as int]),
    ensures
        bits_next(s, t) == (
            true,
            BitsState { pc: (s.pc + 1) as usize, bp: s.bp, wp: s.wp, carry: s.carry },
            t,
        ),
{
}

} // verus!

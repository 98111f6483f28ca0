use vstd::prelude::*;

use crate::listing::{list, listing, Lister};
use crate::stepper::{battle, run, run_battle, run_solo, Stepper};
use crate::substrate::Substrate;
use crate::text::{dec, hex, pad_right, push_dec, push_hex, push_padded};
use crate::word::lemma_byte_arith;

verus! {

/// The Skim (Skip-Chain Machine) instruction set: a substrate where
/// every byte is simultaneously an opcode AND a jump distance.
///
/// There is no sequential PC increment. The low 4 bits of each instruction
/// determine how far to skip for the next instruction: `pc = (pc + low_nibble + 1) % len`.
/// The high 4 bits determine the operation.
///
/// This means data IS control flow: every byte in the tape, including data
/// regions, redirects execution when reached.
///
/// State:
/// - `pc`: instruction pointer, starts at 0
/// - `acc`: accumulator register (u8), starts at 0
/// - `wp`: write pointer, a position below the tape length, starts at
///   `tape.len() / 2`
///
/// All pointer arithmetic wraps modulo tape length.
pub struct Skim;

/// The registers of one running Skim context.
#[derive(Clone, Copy)]
pub struct SkimState {
    pub pc: usize,
    pub acc: u8,
    pub wp: usize,
}

/// The meaning of one Skim instruction.
pub open spec fn skim_next(s: SkimState, t: Seq<u8>) -> (bool, SkimState, Seq<u8>) {
    let len = t.len();
    if s.pc >= len {
        (false, s, t)
    } else {
        let instr = t[s.pc as int];
        let skip = (instr & 0x0F) as nat + 1;
        let w = (s.wp as nat % len) as int;
        let wp_on = ((w + 1) % (len as int)) as usize;
        let wp_back = ((w + len - 1) % (len as int)) as usize;
        let op = instr >> 4;
        let npc = ((s.pc + skip) % (len as int)) as usize;
        let pc_one = ((s.pc + 1) % (len as int)) as usize;
        if op == 0x0 {
            (true, SkimState { pc: npc, acc: t[w], wp: s.wp }, t)
        } else if op == 0x1 {
            (true, SkimState { pc: npc, acc: s.acc, wp: s.wp }, t.update(w, s.acc))
        } else if op == 0x2 {
            (true, SkimState { pc: npc, acc: s.acc, wp: wp_on }, t.update(w, instr))
        } else if op == 0x3 {
            (true, SkimState { pc: npc, acc: s.acc.wrapping_add(1), wp: s.wp }, t)
        } else if op == 0x4 {
            (true, SkimState { pc: npc, acc: s.acc.wrapping_sub(1), wp: s.wp }, t)
        } else if op == 0x5 {
            (true, SkimState { pc: npc, acc: s.acc ^ t[w], wp: s.wp }, t)
        } else if op == 0x6 {
            (true, SkimState { pc: npc, acc: s.acc, wp: wp_on }, t)
        } else if op == 0x7 {
            (true, SkimState { pc: npc, acc: s.acc, wp: wp_back }, t)
        } else if op == 0x8 {
            (true, SkimState { pc: npc, acc: s.acc, wp: (s.acc as nat % len) as usize }, t)
        } else if op == 0x9 {
            (true, SkimState { pc: npc, acc: s.wp as u8, wp: s.wp }, t)
        } else if op == 0xA || op == 0xB {
            // SKZ / SKNZ: the normal skip when the test holds, else skip 1
            if (op == 0xA) == (s.acc == 0) {
                (true, SkimState { pc: npc, acc: s.acc, wp: s.wp }, t)
            } else {
                (true, SkimState { pc: pc_one, acc: s.acc, wp: s.wp }, t)
            }
        } else if op == 0xC {
            (false, s, t)
        } else {
            (true, SkimState { pc: npc, acc: s.acc, wp: s.wp }, t)
        }
    }
}

/// Execute one Skim instruction for a context. Returns true if still running.
pub fn skim_battle_step(state: &mut SkimState, tape: &mut [u8]) -> (go: bool)
    requires
        old(tape)@.len() <= isize::MAX,
    ensures
        (go, *final(state), final(tape)@) == skim_next(*old(state), old(tape)@),
{
    let len = tape.len();
    if state.pc >= len {
        return false;
    }
    let instr = tape[state.pc];
    let skip = (instr & 0x0F) as usize + 1;
    let w = state.wp % len;
    let op = instr >> 4;
    if op == 0x0 {
        state.acc = tape[w];
    } else if op == 0x1 {
        tape[w] = state.acc;
    } else if op == 0x2 {
        tape[w] = instr;
        state.wp = (w + 1) % len;
    } else if op == 0x3 {
        state.acc = state.acc.wrapping_add(1);
    } else if op == 0x4 {
        state.acc = state.acc.wrapping_sub(1);
    } else if op == 0x5 {
        state.acc = state.acc ^ tape[w];
    } else if op == 0x6 {
        state.wp = (w + 1) % len;
    } else if op == 0x7 {
        state.wp = (w + len - 1) % len;
    } else if op == 0x8 {
        state.wp = state.acc as usize % len;
    } else if op == 0x9 {
        state.acc = state.wp as u8;
    } else if op == 0xA || op == 0xB {
        if (op == 0xA) != (state.acc == 0) {
            state.pc = (state.pc + 1) % len;
            return true;
        }
    } else if op == 0xC {
        return false;
    }
    state.pc = (state.pc + skip) % len;
    true
}

impl Stepper for Skim {
    type State = SkimState;

    open spec fn spec_live(s: SkimState, tape: Seq<u8>) -> bool {
        true
    }

    open spec fn spec_step(s: SkimState, tape: Seq<u8>) -> (bool, SkimState, Seq<u8>) {
        skim_next(s, tape)
    }

    fn live(s: &SkimState, tape: &[u8]) -> (b: bool) {
        true
    }

    fn step(s: &mut SkimState, tape: &mut [u8]) -> (go: bool) {
        skim_battle_step(s, tape)
    }

    proof fn lemma_step_len(s: SkimState, tape: Seq<u8>) {
    }
}

/// What `Skim::execute` computes: the final tape and the step count.
pub open spec fn skim_execute(t: Seq<u8>, step_limit: nat) -> (Seq<u8>, nat) {
    if t.len() == 0 {
        (t, 0)
    } else {
        run::<Skim>(SkimState { pc: 0, acc: 0, wp: (t.len() / 2) as usize }, t, step_limit)
    }
}

/// What `Skim::execute_battle` computes: context A starts at 0 writing at
/// `ps`, context B starts at `ps` writing at 0.
pub open spec fn skim_execute_battle(t: Seq<u8>, ps: nat, step_limit: nat) -> (Seq<u8>, nat) {
    if t.len() == 0 {
        (t, 0)
    } else {
        battle::<Skim>(
            SkimState { pc: 0, acc: 0, wp: ps as usize },
            SkimState { pc: ps as usize, acc: 0, wp: 0 },
            false,
            false,
            t,
            step_limit,
        )
    }
}

/// The mnemonic of a Skim instruction with high nibble `op`.
pub open spec fn skim_name(op: u8) -> Seq<char> {
    if op == 0x0 {
        "LOAD"@
    } else if op == 0x1 {
        "STORE"@
    } else if op == 0x2 {
        "COPY_FWD"@
    } else if op == 0x3 {
        "INC"@
    } else if op == 0x4 {
        "DEC"@
    } else if op == 0x5 {
        "XOR"@
    } else if op == 0x6 {
        "WP_INC"@
    } else if op == 0x7 {
        "WP_DEC"@
    } else if op == 0x8 {
        "SET_WP"@
    } else if op == 0x9 {
        "GET_WP"@
    } else if op == 0xA {
        "SKZ"@
    } else if op == 0xB {
        "SKNZ"@
    } else if op == 0xC {
        "HALT"@
    } else {
        "NOP"@
    }
}

fn skim_name_exec(op: u8) -> (s: &'static str)
    ensures
        s@ == skim_name(op),
{
    if op == 0x0 {
        "LOAD"
    } else if op == 0x1 {
        "STORE"
    } else if op == 0x2 {
        "COPY_FWD"
    } else if op == 0x3 {
        "INC"
    } else if op == 0x4 {
        "DEC"
    } else if op == 0x5 {
        "XOR"
    } else if op == 0x6 {
        "WP_INC"
    } else if op == 0x7 {
        "WP_DEC"
    } else if op == 0x8 {
        "SET_WP"
    } else if op == 0x9 {
        "GET_WP"
    } else if op == 0xA {
        "SKZ"
    } else if op == 0xB {
        "SKNZ"
    } else if op == 0xC {
        "HALT"
    } else {
        "NOP"
    }
}

impl Lister for Skim {
    open spec fn spec_line(t: Seq<u8>, pc: nat) -> (Seq<char>, nat) {
        let b = t[pc as int];
        let skip = (b & 0x0F) as nat + 1;
        let target = (pc + skip) % t.len();
        (
            hex(pc, 4) + ": "@ + hex(b as nat, 2) + "  "@ + pad_right(skim_name(b >> 4), 10)
                + " skip "@ + dec(skip) + " -> "@ + hex(target, 4) + "\n"@,
            1,
        )
    }

    fn line(t: &[u8], pc: usize) -> (r: (String, usize)) {
        let b = t[pc];
        let skip = (b & 0x0F) as usize + 1;
        let target = (pc + skip) % t.len();
        let mut s = String::new();
        push_hex(&mut s, pc, 4);
        s.append(": ");
        push_hex(&mut s, b as usize, 2);
        s.append("  ");
        push_padded(&mut s, skim_name_exec(b >> 4), 10);
        s.append(" skip ");
        push_dec(&mut s, skip);
        s.append(" -> ");
        push_hex(&mut s, target, 4);
        s.append("\n");
        assert(s@ =~= Self::spec_line(t@, pc as nat).0);
        (s, 1)
    }
}

impl Substrate for Skim {
    open spec fn spec_execute(tape: Seq<u8>, step_limit: nat) -> (Seq<u8>, nat) {
        skim_execute(tape, step_limit)
    }

    open spec fn spec_execute_battle(tape: Seq<u8>, ps: nat, step_limit: nat) -> (Seq<u8>, nat) {
        skim_execute_battle(tape, ps, step_limit)
    }

    fn execute(tape: &mut [u8], step_limit: usize) -> (steps: usize)
    {
        let len = tape.len();
        if len == 0 {
            return 0;
        }
        let mut state = SkimState { pc: 0, acc: 0, wp: len / 2 };
        run_solo::<Skim>(&mut state, tape, step_limit)
    }

    fn execute_battle(tape: &mut [u8], ps: usize, step_limit: usize) -> (steps: usize)
    {
        let len = tape.len();
        if len == 0 {
            return 0;
        }
        let mut a = SkimState { pc: 0, acc: 0, wp: ps };
        let mut b = SkimState { pc: ps, acc: 0, wp: 0 };
        run_battle::<Skim>(&mut a, &mut b, tape, step_limit)
    }

    open spec fn spec_is_instruction(byte: u8) -> bool {
        (byte >> 4) <= 0xC
    }

    fn is_instruction(byte: u8) -> (r: bool) {
        (byte >> 4) <= 0xC
    }

    fn disassemble(tape: &[u8]) -> (out: String)
        ensures
            out@ == listing::<Skim>(tape@, 0),
    {
        list::<Skim>(tape)
    }
}

/// A byte that is no instruction changes nothing but the program counter,
/// which skips ahead by the byte's low nibble plus one, around the tape.
pub proof fn law_non_instruction_only_moves_on(s: SkimState, t: Seq<u8>)
    requires
        s.pc < t.len(),
        !Skim::spec_is_instruction(t[s.pc as int]),
    ensures
        skim_next(s, t) == (
            true,
            SkimState {
                pc: ((s.pc + (t[s.pc as int] & 0x0F) as nat + 1) % (t.len() as int)) as usize,
                acc: s.acc,
                wp: s.wp,
            },
            t,
        ),
{
    let b = t[s.pc as int];
    assert(b >> 4 >= 0xD) by (bit_vector)
        requires
            !((b >> 4) <= 0xC),
    ;
}

/// Every byte is also a jump distance: after any instruction but HALT
/// (high nibble 0xC) the flow goes on `low nibble + 1` bytes further
/// (around the tape), except that SKZ (0xA) with a nonzero accumulator and
/// SKNZ (0xB) with a zero one go on by a single byte. HALT stops the machine
/// and changes nothing.
pub proof fn law_every_byte_skips(s: SkimState, t: Seq<u8>)
    requires
        s.pc < t.len() <= usize::MAX,
    ensures
        ({
            let (go, s2, t2) = skim_next(s, t);
            let instr = t[s.pc as int];
            let len = t.len() as int;
            let op = instr / 16;
            let short = (op == 0xA && s.acc != 0) || (op == 0xB && s.acc == 0);
            &&& op == 0xC ==> !go && s2 == s && t2 == t
            &&& op != 0xC ==> go && s2.pc == if short {
                (s.pc + 1) % len
            } else {
                (s.pc + instr % 16 + 1) % len
            }
        }),
{
    let b = t[s.pc as int];
    assert(b >> 4 == b / 16 && b & 0x0F == b % 16) by (bit_vector);
}

/// The data ops, with `w` the write pointer's cell (around the tape): LOAD
/// (high nibble 0) takes the byte at w into the accumulator, STORE (1) puts
/// the accumulator at w, COPY_FWD (2) puts the instruction byte itself at w
/// and moves the pointer on, INC (3) and DEC (4) add or take one (mod 256),
/// XOR (5) mixes in the byte at w, WP_INC (6) and WP_DEC (7) move the pointer
/// on or back, SET_WP (8) sets it to the accumulator, GET_WP (9) loads its
/// low byte. The pointer moves around the tape; only the cell at w can
/// change.
pub proof fn law_data_ops(s: SkimState, t: Seq<u8>)
    requires
        s.pc < t.len() <= usize::MAX,
        t[s.pc as int] / 16 <= 9,
    ensures
        ({
            let (go, s2, t2) = skim_next(s, t);
            let instr = t[s.pc as int];
            let len = t.len() as int;
            let op = instr / 16;
            let w = s.wp as int % len;
            &&& go
            &&& t2.len() == t.len()
            &&& forall|i: int| 0 <= i < len && i != w ==> t2[i] == t[i]
            &&& t2[w] == if op == 1 { s.acc } else if op == 2 { instr } else { t[w] }
            &&& s2.acc as int == if op == 0 {
                t[w] as int
            } else if op == 3 {
                (s.acc + 1) % 256
            } else if op == 4 {
                (s.acc + 255) % 256
            } else if op == 5 {
                (s.acc ^ t[w]) as int
            } else if op == 9 {
                s.wp as int % 256
            } else {
                s.acc as int
            }
            &&& s2.wp as int == if op == 2 || op == 6 {
                (w + 1) % len
            } else if op == 7 {
                (w + len - 1) % len
            } else if op == 8 {
                s.acc as int % len
            } else {
                s.wp as int
            }
        }),
{
    let b = t[s.pc as int];
    let wp = s.wp;
    assert(b >> 4 == b / 16 && b & 0x0F == b % 16 && (wp as u8) as int == wp as int % 256)
        by (bit_vector);
    lemma_byte_arith(s.acc, 1, s.acc.wrapping_add(1), s.acc.wrapping_sub(1));
}

} // verus!

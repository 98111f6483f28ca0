use vstd::prelude::*;

verus! {

/// An instruction set described one instruction at a time.
///
/// `spec_step` is the meaning of a single instruction: from a register state
/// and a tape it gives whether the machine keeps running, the next register
/// state and the next tape. `step` is its executable form. `spec_live` is the
/// guard that the single-program run loop checks before each instruction.
pub trait Stepper {
    type State;

    spec fn spec_live(s: Self::State, tape: Seq<u8>) -> bool;

    spec fn spec_step(s: Self::State, tape: Seq<u8>) -> (bool, Self::State, Seq<u8>);

    fn live(s: &Self::State, tape: &[u8]) -> (b: bool)
        requires
            tape@.len() <= isize::MAX,
        ensures
            b == Self::spec_live(*s, tape@),
    ;

    fn step(s: &mut Self::State, tape: &mut [u8]) -> (go: bool)
        requires
            0 < old(tape)@.len() <= isize::MAX,
        ensures
            (go, *final(s), final(tape)@) == Self::spec_step(*old(s), old(tape)@),
    ;

    /// One instruction never changes the length of the tape.
    proof fn lemma_step_len(s: Self::State, tape: Seq<u8>)
        requires
            0 < tape.len(),
        ensures
            Self::spec_step(s, tape).2.len() == tape.len(),
    ;
}

/// The result of running one program alone for at most `fuel` instructions:
/// the final tape and the number of instructions executed. Each instruction
/// is counted, the one that stops the machine included; the guard
/// `spec_live` is checked before each instruction.
pub open spec fn run<M: Stepper>(s: M::State, tape: Seq<u8>, fuel: nat) -> (Seq<u8>, nat)
    decreases fuel,
{
    if fuel == 0 || !M::spec_live(s, tape) {
        (tape, 0)
    } else {
        let (go, s2, t2) = M::spec_step(s, tape);
        if !go {
            (t2, 1)
        } else {
            let r = run::<M>(s2, t2, (fuel - 1) as nat);
            (r.0, r.1 + 1)
        }
    }
}

/// The result of running two contexts `a` and `b` alternately on one tape
/// for at most `fuel` instructions in total. `ha`/`hb` say whether a context
/// has already stopped; a stopped context is skipped. Each round runs one
/// instruction of `a`, then (fuel permitting) one of `b`.
pub open spec fn battle<M: Stepper>(
    a: M::State,
    b: M::State,
    ha: bool,
    hb: bool,
    tape: Seq<u8>,
    fuel: nat,
) -> (Seq<u8>, nat)
    decreases fuel,
{
    if fuel == 0 || (ha && hb) {
        (tape, 0)
    } else if !ha {
        let (ga, a2, t1) = M::spec_step(a, tape);
        if fuel == 1 {
            (t1, 1)
        } else if !hb {
            let (gb, b2, t2) = M::spec_step(b, t1);
            let r = battle::<M>(a2, b2, !ga, !gb, t2, (fuel - 2) as nat);
            (r.0, r.1 + 2)
        } else {
            let r = battle::<M>(a2, b, !ga, hb, t1, (fuel - 1) as nat);
            (r.0, r.1 + 1)
        }
    } else {
        let (gb, b2, t2) = M::spec_step(b, tape);
        let r = battle::<M>(a, b2, ha, !gb, t2, (fuel - 1) as nat);
        (r.0, r.1 + 1)
    }
}

/// The target of a relative jump stored after the opcode at `pc`: the
/// position just past the two-byte instruction plus the signed offset, or
/// `None` when that lands before the start of the tape.
pub open spec fn rel_jump(pc: usize, offset: i8) -> Option<usize> {
    let np = pc + 2 + offset as int;
    if np < 0 {
        None
    } else {
        Some(np as usize)
    }
}

/// Compute `rel_jump` without leaving the range of `usize`.
pub fn rel_jump_exec(pc: usize, offset: i8) -> (r: Option<usize>)
    requires
        pc <= isize::MAX,
    ensures
        r == rel_jump(pc, offset),
{
    if offset >= 0 {
        Some(pc + 2 + offset as usize)
    } else {
        let back = (0 - (offset as i16)) as usize;
        if pc + 2 < back {
            None
        } else {
            Some(pc + 2 - back)
        }
    }
}

/// A solo run keeps the tape's length and counts no more steps than its fuel.
pub proof fn lemma_run_bounds<M: Stepper>(s: M::State, tape: Seq<u8>, fuel: nat)
    requires
        0 < tape.len(),
    ensures
        run::<M>(s, tape, fuel).0.len() == tape.len(),
        run::<M>(s, tape, fuel).1 <= fuel,
    decreases fuel,
{
    if fuel > 0 && M::spec_live(s, tape) {
        M::lemma_step_len(s, tape);
        let (go, s2, t2) = M::spec_step(s, tape);
        if go {
            lemma_run_bounds::<M>(s2, t2, (fuel - 1) as nat);
        }
    }
}

/// A battle keeps the tape's length and counts no more steps than its fuel.
pub proof fn lemma_battle_bounds<M: Stepper>(
    a: M::State,
    b: M::State,
    ha: bool,
    hb: bool,
    tape: Seq<u8>,
    fuel: nat,
)
    requires
        0 < tape.len(),
    ensures
        battle::<M>(a, b, ha, hb, tape, fuel).0.len() == tape.len(),
        battle::<M>(a, b, ha, hb, tape, fuel).1 <= fuel,
    decreases fuel,
{
    if fuel == 0 || (ha && hb) {
    } else if !ha {
        M::lemma_step_len(a, tape);
        let (ga, a2, t1) = M::spec_step(a, tape);
        if fuel == 1 {
        } else if !hb {
            M::lemma_step_len(b, t1);
            let (gb, b2, t2) = M::spec_step(b, t1);
            lemma_battle_bounds::<M>(a2, b2, !ga, !gb, t2, (fuel - 2) as nat);
        } else {
            lemma_battle_bounds::<M>(a2, b, !ga, hb, t1, (fuel - 1) as nat);
        }
    } else {
        M::lemma_step_len(b, tape);
        let (gb, b2, t2) = M::spec_step(b, tape);
        lemma_battle_bounds::<M>(a, b2, ha, !gb, t2, (fuel - 1) as nat);
    }
}

/// A battle of two running contexts begins with one instruction of the
/// first context and then one of the second, on the tape the first left:
/// with room for one instruction only the first runs, with room for two
/// both run, first before second.
pub proof fn law_battle_first_turns<M: Stepper>(a: M::State, b: M::State, tape: Seq<u8>)
    ensures
        battle::<M>(a, b, false, false, tape, 1) == (M::spec_step(a, tape).2, 1nat),
        battle::<M>(a, b, false, false, tape, 2) == (
            M::spec_step(b, M::spec_step(a, tape).2).2,
            2nat,
        ),
{
    let (ga, a2, t1) = M::spec_step(a, tape);
    let (gb, b2, t2) = M::spec_step(b, t1);
    assert(battle::<M>(a2, b2, !ga, !gb, t2, 0) == (t2, 0nat));
}

/// Run one program alone from state `s` for at most `step_limit` instructions.
pub fn run_solo<M: Stepper>(s: &mut M::State, tape: &mut [u8], step_limit: usize) -> (steps: usize)
    requires
        0 < old(tape)@.len() <= isize::MAX,
    ensures
        (final(tape)@, steps as nat) == run::<M>(*old(s), old(tape)@, step_limit as nat),
        steps <= step_limit,
        final(tape)@.len() == old(tape)@.len(),
{
    let ghost s0 = *s;
    let ghost t0 = tape@;
    proof {
        lemma_run_bounds::<M>(s0, t0, step_limit as nat);
    }
    let mut steps: usize = 0;
    let mut going = true;
    while going && steps < step_limit && M::live(s, tape)
        invariant
            steps <= step_limit,
            tape@.len() == t0.len(),
            0 < t0.len() <= isize::MAX,
            going ==> run::<M>(s0, t0, step_limit as nat) == (
                run::<M>(*s, tape@, (step_limit - steps) as nat).0,
                (run::<M>(*s, tape@, (step_limit - steps) as nat).1 + steps) as nat,
            ),
            !going ==> run::<M>(s0, t0, step_limit as nat) == (tape@, steps as nat),
        decreases step_limit - steps,
    {
        let ghost sb = *s;
        let ghost tb = tape@;
        proof {
            M::lemma_step_len(sb, tb);
        }
        steps += 1;
        let go = M::step(s, tape);
        if !go {
            going = false;
        }
    }
    steps
}

/// Run two contexts `a` and `b` alternately on one tape for at most
/// `step_limit` instructions in total, until both have stopped.
pub fn run_battle<M: Stepper>(
    a: &mut M::State,
    b: &mut M::State,
    tape: &mut [u8],
    step_limit: usize,
) -> (steps: usize)
    requires
        0 < old(tape)@.len() <= isize::MAX,
    ensures
        (final(tape)@, steps as nat) == battle::<M>(
            *old(a),
            *old(b),
            false,
            false,
            old(tape)@,
            step_limit as nat,
        ),
        steps <= step_limit,
        final(tape)@.len() == old(tape)@.len(),
{
    let ghost a0 = *a;
    let ghost b0 = *b;
    let ghost t0 = tape@;
    proof {
        lemma_battle_bounds::<M>(a0, b0, false, false, t0, step_limit as nat);
    }
    let mut steps: usize = 0;
    let mut halted_a = false;
    let mut halted_b = false;
    let mut out_of_fuel = false;
    while !out_of_fuel && steps < step_limit && (!halted_a || !halted_b)
        invariant
            steps <= step_limit,
            tape@.len() == t0.len(),
            0 < t0.len() <= isize::MAX,
            !out_of_fuel ==> battle::<M>(a0, b0, false, false, t0, step_limit as nat) == (
                battle::<M>(*a, *b, halted_a, halted_b, tape@, (step_limit - steps) as nat).0,
                (battle::<M>(*a, *b, halted_a, halted_b, tape@, (step_limit - steps) as nat).1
                    + steps) as nat,
            ),
            out_of_fuel ==> battle::<M>(a0, b0, false, false, t0, step_limit as nat) == (
                tape@,
                steps as nat,
            ),
        decreases step_limit - steps,
    {
        if !halted_a {
            proof {
                M::lemma_step_len(*a, tape@);
            }
            halted_a = !M::step(a, tape);
            steps += 1;
            if steps >= step_limit {
                out_of_fuel = true;
            }
        }
        if !out_of_fuel && !halted_b {
            proof {
                M::lemma_step_len(*b, tape@);
            }
            halted_b = !M::step(b, tape);
            steps += 1;
        }
    }
    steps
}

} // verus!

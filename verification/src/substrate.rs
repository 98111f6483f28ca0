use vstd::prelude::*;

verus! {

/// A computational substrate that defines how programs are executed on a tape.
///
/// Each instruction set (BFF, Forth, SUBLEQ, ...) implements this trait.
/// The simulation engine is generic over `Substrate`, so adding a new
/// instruction set requires only implementing this trait.
pub trait Substrate {
    /// What `execute` computes from a tape and a step limit: the final tape
    /// and the number of steps executed.
    spec fn spec_execute(tape: Seq<u8>, step_limit: nat) -> (Seq<u8>, nat);

    /// What `execute_battle` computes from a tape, a program size and a step
    /// limit: the final tape and the number of steps executed.
    spec fn spec_execute_battle(tape: Seq<u8>, program_size: nat, step_limit: nat) -> (
        Seq<u8>,
        nat,
    );

    /// Execute the program encoded in `tape`, starting from the beginning.
    ///
    /// The tape is modified in place during execution (programs are
    /// self-modifying). Execution stops when the program terminates
    /// naturally or when `step_limit` steps have been consumed.
    ///
    /// Returns the number of steps actually executed; it never exceeds
    /// `step_limit`, and the tape keeps its length.
    fn execute(tape: &mut [u8], step_limit: usize) -> (steps: usize)
        requires
            old(tape)@.len() <= isize::MAX,
        ensures
            (final(tape)@, steps as nat) == Self::spec_execute(old(tape)@, step_limit as nat),
            steps <= step_limit,
            final(tape)@.len() == old(tape)@.len(),
    ;

    /// Execute two programs interleaved on a shared tape.
    ///
    /// `program_size` is the size of each program (`tape.len() / 2`).
    /// Context A starts at position 0, context B starts at `program_size`.
    /// Execution alternates one instruction at a time between the two contexts.
    ///
    /// A substrate without a battle mode runs the plain `execute`.
    fn execute_battle(tape: &mut [u8], program_size: usize, step_limit: usize) -> (steps: usize)
        requires
            old(tape)@.len() <= isize::MAX,
            program_size <= old(tape)@.len() / 2,
        ensures
            (final(tape)@, steps as nat) == Self::spec_execute_battle(
                old(tape)@,
                program_size as nat,
                step_limit as nat,
            ),
            steps <= step_limit,
            final(tape)@.len() == old(tape)@.len(),
    ;

    /// Which bytes are meaningful instructions in this substrate (as opposed
    /// to no-ops).
    spec fn spec_is_instruction(byte: u8) -> bool;

    /// Returns true if the byte is a meaningful instruction in this substrate
    /// (as opposed to a no-op). Used for visualization.
    fn is_instruction(byte: u8) -> (r: bool)
        ensures
            r == Self::spec_is_instruction(byte),
    ;

    /// Pretty-print a disassembly of the given tape for human inspection.
    fn disassemble(tape: &[u8]) -> String
        requires
            tape@.len() <= isize::MAX,
    ;
}

} // verus!

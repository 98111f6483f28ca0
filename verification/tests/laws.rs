use complife::bff::Bff;
use complife::bits::Bits;
use complife::echo::Echo;
use complife::edsac::Edsac;
use complife::edvac::Edvac;
use complife::forth::Forth;
use complife::ias::Ias;
use complife::metrics::{byte_frequency_histogram, unique_program_count};
use complife::pdp1::Pdp1;
use complife::qop::Qop;
use complife::rig::Rig;
use complife::skim::Skim;
use complife::ssem::Ssem;
use complife::substrate::Substrate;
use complife::z3::Z3;

/// A tape made only of a byte that is no instruction runs without changing.
fn no_op_tape_is_left_alone<S: Substrate>() {
    let b = (0..=255u8).find(|&b| !S::is_instruction(b)).expect("some byte is no instruction");
    let mut tape = vec![b; 64];
    let steps = S::execute(&mut tape, 1000);
    assert!(steps <= 1000);
    assert_eq!(tape, vec![b; 64]);
}

#[test]
fn law_no_op_bytes_leave_tapes_alone() {
    no_op_tape_is_left_alone::<Bff>();
    no_op_tape_is_left_alone::<Bits>();
    no_op_tape_is_left_alone::<Echo>();
    no_op_tape_is_left_alone::<Edsac>();
    no_op_tape_is_left_alone::<Edvac>();
    no_op_tape_is_left_alone::<Forth>();
    no_op_tape_is_left_alone::<Ias>();
    no_op_tape_is_left_alone::<Pdp1>();
    no_op_tape_is_left_alone::<Qop>();
    no_op_tape_is_left_alone::<Rig>();
    no_op_tape_is_left_alone::<Skim>();
    no_op_tape_is_left_alone::<Ssem>();
    no_op_tape_is_left_alone::<Z3>();
}

#[test]
fn law_histogram_counts_every_byte_example() {
    let programs = vec![vec![1, 2, 3, 3], vec![0, 0], vec![], vec![255]];
    let hist = byte_frequency_histogram(&programs);
    assert_eq!(hist.iter().sum::<usize>(), 7);
    assert_eq!(hist[3], 2);
    assert_eq!(hist[0], 2);
    assert_eq!(hist[255], 1);
}

#[test]
fn law_unique_count_bounds_example() {
    let programs = vec![vec![1, 2], vec![1, 2], vec![2, 1], vec![1, 2]];
    let n = unique_program_count(&programs);
    assert_eq!(n, 2);
    assert!(1 <= n && n <= programs.len());
}

#[test]
fn law_z3_steps_within_words_example() {
    // The Z3 has no jumps: a run takes at most one step per word.
    let mut tape = vec![0u8; 15];
    let steps = Z3::execute(&mut tape, 1000);
    assert!(steps <= tape.len() / 2);
}

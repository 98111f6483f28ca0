use complife::subleq::{Rsubleq4, Subleq};
use complife::substrate::Substrate;

// --- SUBLEQ tests ---

#[test]
fn test_subleq_basic_subtraction() {
    // tape: a=3, b=4, c=99 (oob branch target)
    // tape[3]=10, tape[4]=3
    // tape[3] -= tape[4] => 10 - 3 = 7. 7 > 0 => pc += 3.
    // pc=3: a=tape[3]=7, b=tape[4]=3, c=tape[5]=0.
    // tape[7] -= tape[3] => 0 - 7 = 249. 249 as i8 = -7 <= 0 => goto 0.
    // Verify the first subtraction happened correctly.
    let mut tape = vec![3, 4, 99, 10, 3, 0, 0, 0];
    Subleq::execute(&mut tape, 1);
    assert_eq!(tape[3], 7); // 10 - 3
}

#[test]
fn test_subleq_branch_on_zero() {
    // Set up so *a becomes exactly 0.
    // tape[3]=5, tape[4]=5. a=3, b=4. tape[3] -= tape[4] => 5-5=0. 0<=0 => goto c.
    let mut tape = vec![3, 4, 7, 5, 5, 0, 0, 0];
    // c=7 which is tape[2]=7. goto 7. pc=7, but pc+2=9 >= 8 => terminate.
    let steps = Subleq::execute(&mut tape, 100);
    assert_eq!(steps, 1);
    assert_eq!(tape[3], 0);
}

#[test]
fn test_subleq_branch_on_negative() {
    // tape[3]=2, tape[4]=5. a=3, b=4. tape[3] -= tape[4] => 2-5=253 (wrapping).
    // 253 as i8 = -3 <= 0 => goto c.
    let mut tape = vec![3, 4, 7, 2, 5, 0, 0, 0];
    let steps = Subleq::execute(&mut tape, 100);
    assert_eq!(steps, 1);
    assert_eq!(tape[3], 253); // 2 - 5 wrapping
}

#[test]
fn test_subleq_no_branch_positive() {
    // tape[3]=10, tape[4]=3. a=3, b=4. tape[3] -= tape[4] => 10-3=7. 7>0 => pc+=3.
    // pc=3. a=tape[3]=7, b=tape[4]=3, c=tape[5]=0.
    // tape[7] -= tape[3] => 0-7=249. 249 as i8 = -7 <= 0 => goto 0. Loops.
    let mut tape = vec![3, 4, 0, 10, 3, 0, 0, 0];
    let steps = Subleq::execute(&mut tape, 3);
    assert_eq!(steps, 3);
}

#[test]
fn test_subleq_terminates_oob() {
    // c=255 (out of bounds for an 8-byte tape). After branching, pc=255.
    // pc+2=257 >= 8, so terminates.
    let mut tape = vec![3, 4, 255, 5, 5, 0, 0, 0];
    let steps = Subleq::execute(&mut tape, 100);
    assert_eq!(steps, 1);
}

#[test]
fn test_subleq_empty_tape() {
    let mut tape: Vec<u8> = vec![];
    let steps = Subleq::execute(&mut tape, 100);
    assert_eq!(steps, 0);
}

#[test]
fn test_subleq_small_tape() {
    let mut tape = vec![0, 0];
    let steps = Subleq::execute(&mut tape, 100);
    assert_eq!(steps, 0);
}

#[test]
fn test_subleq_step_limit() {
    // Self-subtracting loop: a=b=0, c=0. tape[0] -= tape[0] => always 0.
    // 0 <= 0 => goto 0. Infinite loop.
    let mut tape = vec![0, 0, 0, 0, 0, 0, 0, 0];
    let steps = Subleq::execute(&mut tape, 50);
    assert_eq!(steps, 50);
}

#[test]
fn test_subleq_address_wraps() {
    // a=200, b=201, on a 64-byte tape. 200%64=8, 201%64=9.
    let mut tape = vec![0u8; 64];
    tape[0] = 200; // a = 200 % 64 = 8
    tape[1] = 201; // b = 201 % 64 = 9
    tape[2] = 63; // c = 63 (goto 63, which is oob for next instruction)
    tape[8] = 10;
    tape[9] = 3;
    Subleq::execute(&mut tape, 1);
    assert_eq!(tape[8], 7); // 10 - 3 = 7
}

#[test]
fn test_subleq_self_modifying() {
    // a=0, b=1, c=0. tape[0] -= tape[1].
    // tape[0]=0, tape[1]=1. tape[0] = 0-1 = 255. 255 as i8 = -1 <= 0 => goto tape[2]=0.
    // Now tape[0]=255 (a=255%8=7), tape[1]=1 (b=1). tape[7] -= tape[1] => 0-1=255.
    // Self-modifying: the instruction operands change because we wrote to tape[0].
    let mut tape = vec![0, 1, 0, 0, 0, 0, 0, 0];
    Subleq::execute(&mut tape, 2);
    assert_eq!(tape[0], 255); // first instruction modified tape[0]
    assert_eq!(tape[7], 255); // second instruction used modified a=255%8=7
}

// --- RSUBLEQ4 tests ---

#[test]
fn test_rsubleq4_basic() {
    // pc=0. a=4, b=5, c=6 (unsigned offsets), d=7 (signed, but positive).
    // addr_a = (0+4)%8=4, addr_b = (0+5)%8=5, addr_c = (0+6)%8=6.
    // tape[4] = tape[5] - tape[6] = 10 - 3 = 7. 7 > 0 => pc += 4.
    // pc=4: a=tape[4]=7, b=tape[5]=10, c=tape[6]=3, d=tape[7]=0.
    // addr_a = (4+7)%8=3, addr_b = (4+10)%8=6, addr_c = (4+3)%8=7.
    // tape[3] = tape[6] - tape[7] = 3 - 0 = 3. 3 > 0 => pc += 4 = 8.
    // pc=8, pc+3=11 >= 8 => terminate.
    let mut tape = vec![4, 5, 6, 7, 0, 10, 3, 0];
    let steps = Rsubleq4::execute(&mut tape, 100);
    assert_eq!(steps, 2);
    assert_eq!(tape[4], 7); // 10 - 3
}

#[test]
fn test_rsubleq4_large_unsigned_offset() {
    // a=0xFF (255 unsigned). pc=0. addr_a = (0+255)%8 = 7.
    // b=5, c=6. addr_b = (0+5)%8=5, addr_c = (0+6)%8=6.
    // tape[7] = tape[5] - tape[6] = 10 - 3 = 7. 7 > 0 => pc += 4.
    let mut tape: Vec<u8> = vec![0xFF, 5, 6, 4, 0, 10, 3, 0];
    Rsubleq4::execute(&mut tape, 1);
    assert_eq!(tape[7], 7); // 10 - 3
}

#[test]
fn test_rsubleq4_branch_taken() {
    // tape[4] = tape[5] - tape[6]. If result <= 0, goto pc + d.
    // Set tape[5]=3, tape[6]=5. Result = 3-5 = 254 (wrapping). 254 as i8 = -2 <= 0.
    // d = tape[3] = 0xFC (-4 as i8). pc goes to 0 + (-4) = -4, terminates.
    let mut tape: Vec<u8> = vec![4, 5, 6, 0xFC, 0, 3, 5, 0];
    let steps = Rsubleq4::execute(&mut tape, 100);
    assert_eq!(steps, 1); // terminates because new_pc = -4 < 0
    assert_eq!(tape[4], 254); // 3 - 5 wrapping
}

#[test]
fn test_rsubleq4_branch_forward() {
    // d=8 means skip to pc+8, which is out of bounds for an 8-byte tape.
    // tape[5]=0, tape[6]=0. Result = 0-0 = 0. 0 <= 0 => goto pc+d.
    // d = tape[3] = 8. pc = 0+8 = 8. pc+3 = 11 >= 8 => terminate.
    let mut tape: Vec<u8> = vec![4, 5, 6, 8, 0, 0, 0, 0];
    let steps = Rsubleq4::execute(&mut tape, 100);
    assert_eq!(steps, 1);
}

#[test]
fn test_rsubleq4_empty_tape() {
    let mut tape: Vec<u8> = vec![];
    let steps = Rsubleq4::execute(&mut tape, 100);
    assert_eq!(steps, 0);
}

#[test]
fn test_rsubleq4_small_tape() {
    let mut tape = vec![0, 0, 0];
    let steps = Rsubleq4::execute(&mut tape, 100);
    assert_eq!(steps, 0);
}

#[test]
fn test_rsubleq4_step_limit() {
    // Self-loop: a=0, b=0, c=0, d=0. tape[pc+0] = tape[pc+0] - tape[pc+0] = 0.
    // 0 <= 0 => goto pc+0 = 0. Infinite loop.
    let mut tape = vec![0, 0, 0, 0, 0, 0, 0, 0];
    let steps = Rsubleq4::execute(&mut tape, 50);
    assert_eq!(steps, 50);
}

#[test]
fn test_subleq_is_instruction() {
    assert!(Subleq::is_instruction(0));
    assert!(Subleq::is_instruction(42));
    assert!(Subleq::is_instruction(255));
}

#[test]
fn test_rsubleq4_is_instruction() {
    assert!(Rsubleq4::is_instruction(0));
    assert!(Rsubleq4::is_instruction(42));
    assert!(Rsubleq4::is_instruction(255));
}

/// Verify the 25-byte RSUBLEQ4 self-replicator from Section 3.2 of the paper.
///
/// The replicator uses positions 8-9 as loop counter working memory, so
/// the copy is not byte-identical to the original at those positions.
/// We verify functional self-replication: the copy should also produce
/// a copy of itself when run with food.
#[test]
fn test_rsubleq4_paper_self_replicator() {
    // From the paper: 9 16 20 4 4 5 19 4 0 0 12 4 -3 -3 9 4 -8 8 -7 -12 0 -1 -1 -64 -73
    // As u8 (two's complement):
    let replicator: [u8; 25] = [
        9, 16, 20, 4, 4, 5, 19, 4, 0, 0, 12, 4, 253, 253, 9, 4, // -3, -3, 9, 4
        248, 8, 249, 244, // -8, 8, -7, -12
        0, 255, 255, 192, 183, // 0, -1, -1, -64, -73
    ];

    // Run 1: place replicator in first 64 bytes, zeros as food.
    let mut tape = vec![0u8; 128];
    tape[..25].copy_from_slice(&replicator);

    Rsubleq4::execute(&mut tape, 8192);

    // The copy is in the second half. It may differ at working-memory
    // positions (8, 9) from the original, but it should be functionally
    // identical.
    let copy = tape[64..128].to_vec();

    // Verify the non-counter bytes match exactly.
    assert_eq!(&copy[..8], &replicator[..8], "bytes 0-7 should match");
    assert_eq!(
        &copy[10..25],
        &replicator[10..25],
        "bytes 10-24 should match"
    );

    // Run 2: the copy should also self-replicate.
    let mut tape2 = vec![0u8; 128];
    tape2[..64].copy_from_slice(&copy);

    Rsubleq4::execute(&mut tape2, 8192);

    let copy2 = tape2[64..128].to_vec();

    // The copy-of-copy should match the copy (stable fixed point).
    assert_eq!(
        &copy2[..25],
        &copy[..25],
        "RSUBLEQ4 copy should also self-replicate (fixed point)"
    );
}


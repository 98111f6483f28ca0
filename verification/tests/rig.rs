use complife::rig::Rig;
use complife::substrate::Substrate;

fn make_tape(program: &[u8], size: usize) -> Vec<u8> {
    let mut tape = vec![0u8; size];
    for (i, &b) in program.iter().enumerate() {
        if i < size {
            tape[i] = b;
        }
    }
    tape
}

// Register encoding helpers
// dst=r0 src=r0 -> 0x00, dst=r1 src=r0 -> 0x04
// dst=r0 src=r1 -> 0x01, dst=r1 src=r1 -> 0x05
// dst bits[3:2], src bits[1:0]

#[test]
fn rig_test_halt() {
    let mut tape = make_tape(&[0xB0], 128);
    let steps = Rig::execute(&mut tape, 8192);
    assert_eq!(steps, 1);
}

#[test]
fn test_inc_r0() {
    // INC r0 (0x60), INC r0 (0x60), STORE [r1], r0 (0x10 + dst=r1,src=r0 = 0x14), HALT
    // r0 becomes 2, stored to tape[r1=64].
    let mut tape = make_tape(&[0x60, 0x60, 0x14, 0xB0], 128);
    Rig::execute(&mut tape, 8192);
    assert_eq!(tape[64], 2);
}

#[test]
fn test_dec_r0_wraps() {
    // DEC r0 (0x70): 0 - 1 = 255. STORE [r1], r0. HALT.
    let mut tape = make_tape(&[0x70, 0x14, 0xB0], 128);
    Rig::execute(&mut tape, 8192);
    assert_eq!(tape[64], 255);
}

#[test]
fn rig_test_load() {
    // Set tape[64] = 42. LOAD r0, [r1] (0x01): r0 = tape[r1=64] = 42.
    // STORE [r1], r0: tape[64] = 42 (unchanged, but confirms load worked).
    // INC r1, STORE [r1], r0: tape[65] = 42.
    let mut tape = make_tape(&[0x01, 0x64, 0x14, 0xB0], 128);
    tape[64] = 42;
    Rig::execute(&mut tape, 8192);
    assert_eq!(tape[65], 42);
}

#[test]
fn rig_test_store() {
    // INC r0 x3 -> r0=3. STORE [r1], r0: tape[64] = 3.
    let mut tape = make_tape(&[0x60, 0x60, 0x60, 0x14, 0xB0], 128);
    Rig::execute(&mut tape, 8192);
    assert_eq!(tape[64], 3);
}

#[test]
fn test_mov() {
    // MOV r2, r1 (0x29): r2 = r1 = 64. STORE [r1], r2 (0x16): tape[64] = 64.
    // 0x16: STORE, dst=r1(01), src=r2(10) -> low nibble = 0110 = 0x6.
    let mut tape = make_tape(&[0x29, 0x16, 0xB0], 128);
    Rig::execute(&mut tape, 8192);
    assert_eq!(tape[64], 64);
}

#[test]
fn rig_test_add() {
    // INC r0 (r0=1). INC r0 (r0=2). ADD r0, r1 (0x31): r0 = 2 + 64 = 66.
    // STORE [r1], r0: tape[64] = 66.
    let mut tape = make_tape(&[0x60, 0x60, 0x31, 0x14, 0xB0], 128);
    Rig::execute(&mut tape, 8192);
    assert_eq!(tape[64], 66);
}

#[test]
fn rig_test_sub() {
    // MOV r0, r1 (0x01... no, MOV is 0x2_). MOV r0, r1 = 0x21: r0 = r1 = 64.
    // INC r0 (r0=65). SUB r0, r1 (0x41): r0 = 65 - 64 = 1.
    // STORE [r1], r0: tape[64] = 1.
    let mut tape = make_tape(&[0x21, 0x60, 0x41, 0x14, 0xB0], 128);
    Rig::execute(&mut tape, 8192);
    assert_eq!(tape[64], 1);
}

#[test]
fn rig_test_xor() {
    // INC r0 x3 (r0=3). MOV r2, r1 (r2=64).
    // XOR r0, r2 (0x52): r0 = 3 ^ 64 = 67. STORE [r1], r0: tape[64] = 67.
    let mut tape = make_tape(&[0x60, 0x60, 0x60, 0x29, 0x52, 0x14, 0xB0], 128);
    Rig::execute(&mut tape, 8192);
    assert_eq!(tape[64], 67);
}

#[test]
fn rig_test_jz_taken() {
    // r0=0, r3=0. JZ r3, r0 (0x8C): r0==0, pc = r3 = 0. Infinite loop.
    let mut tape = make_tape(&[0x8C, 0xB0], 128);
    let steps = Rig::execute(&mut tape, 10);
    assert_eq!(steps, 10);
}

#[test]
fn rig_test_jz_not_taken() {
    // INC r0 (r0=1). JZ r3, r0 (0x8C): r0!=0, fall through. HALT.
    let mut tape = make_tape(&[0x60, 0x8C, 0xB0], 128);
    let steps = Rig::execute(&mut tape, 8192);
    assert_eq!(steps, 3);
}

#[test]
fn rig_test_jnz_taken() {
    // INC r0 (r0=1). JNZ r3, r0 (0x9C): r0!=0, pc = r3 = 0. Loop.
    let mut tape = make_tape(&[0x60, 0x9C], 128);
    let steps = Rig::execute(&mut tape, 10);
    assert_eq!(steps, 10);
}

#[test]
fn rig_test_jnz_not_taken() {
    // r0=0, r3=0. JNZ r3, r0 (0x9C): r0==0, fall through. HALT.
    let mut tape = make_tape(&[0x9C, 0xB0], 128);
    let steps = Rig::execute(&mut tape, 8192);
    assert_eq!(steps, 2);
}

#[test]
fn test_copy_instruction() {
    // COPY [r1], [r0] (0xA4): tape[r1=64] = tape[r0=0].
    // tape[0] = 0xA4 (the COPY instruction itself).
    let mut tape = make_tape(&[0xA4, 0xB0], 128);
    Rig::execute(&mut tape, 8192);
    assert_eq!(tape[64], 0xA4);
}

#[test]
fn test_r1_starts_at_half() {
    // STORE [r1], r1 (0x15): tape[r1] = r1. In a 128-byte tape, r1=64.
    let mut tape = make_tape(&[0x15, 0xB0], 128);
    Rig::execute(&mut tape, 8192);
    assert_eq!(tape[64], 64);
}

#[test]
fn rig_test_nop_bytes() {
    // 0xC0-0xFF are NOPs. Should just advance pc.
    let mut tape = make_tape(&[0xC0, 0xD5, 0xEF, 0xFF, 0x60, 0x14, 0xB0], 128);
    Rig::execute(&mut tape, 8192);
    assert_eq!(tape[64], 1); // only one INC executed
}

#[test]
fn rig_test_empty_tape() {
    let mut tape: Vec<u8> = vec![];
    let steps = Rig::execute(&mut tape, 8192);
    assert_eq!(steps, 0);
}

#[test]
fn rig_test_step_limit() {
    // JZ r3, r3 at pc=0: r3==0, pc = r3 = 0. Infinite loop.
    let mut tape = make_tape(&[0x8F], 128);
    let steps = Rig::execute(&mut tape, 100);
    assert_eq!(steps, 100);
}

// --- Replicator tests ---

#[test]
fn test_4_byte_self_replicator() {
    // COPY [r1], [r0] (0xA4): tape[r1] = tape[r0]
    // INC r0 (0x60): r0++
    // INC r1 (0x64): r1++
    // JNZ r3, r0 (0x9C): if r0 != 0, pc = r3 = 0
    //
    // r0 starts at 0, r1 at 64, r3 at 0 (jump target).
    // Copies tape[0..255] to tape[64..] wrapping, but after 64 iterations
    // all of the first half is copied to the second half.
    let replicator: [u8; 4] = [0xA4, 0x60, 0x64, 0x9C];

    let mut tape = vec![0u8; 128];
    tape[..4].copy_from_slice(&replicator);

    Rig::execute(&mut tape, 8192);

    // First 4 bytes of second half should match the replicator.
    assert_eq!(&tape[64..68], &replicator);
    // Rest should be zeros (copied from the zero-padded first half).
    assert_eq!(&tape[68..128], &vec![0u8; 60]);
}

#[test]
fn rig_test_replicator_is_functional_fixed_point() {
    let replicator: [u8; 4] = [0xA4, 0x60, 0x64, 0x9C];

    // Run 1: original replicates.
    let mut tape1 = vec![0u8; 128];
    tape1[..4].copy_from_slice(&replicator);
    Rig::execute(&mut tape1, 8192);
    let copy1 = tape1[64..128].to_vec();

    // Run 2: the copy should also replicate.
    let mut tape2 = vec![0u8; 128];
    tape2[..64].copy_from_slice(&copy1);
    Rig::execute(&mut tape2, 8192);
    let copy2 = tape2[64..128].to_vec();

    assert_eq!(copy1, copy2, "Rig replicator should be a fixed point");
}


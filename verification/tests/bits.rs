use complife::bits::Bits;
use complife::substrate::Substrate;

fn make_tape(program: &[u8], size: usize) -> Vec<u8> {
    let mut tape = vec![0u8; size];
    for (i, &b) in program.iter().enumerate() {
        if i < size {
            tape[i] = b;
        }
    }
    tape
}

#[test]
fn bits_test_halt() {
    let mut tape = make_tape(&[0xE0], 128);
    let steps = Bits::execute(&mut tape, 8192);
    assert_eq!(steps, 1);
}

#[test]
fn test_copy_bit() {
    // Set tape[0] = 0x05 (bits: 10100000). COPY_BIT copies bit 0 (=1) to bit 512 (= byte 64, bit 0).
    let mut tape = make_tape(&[0x05], 128);
    // tape[0] = 0x05, but COPY_BIT is opcode 0x0_, so tape[0] must be 0x0_.
    // 0x05 >> 4 = 0x0, so it IS a COPY_BIT. It copies bit bp=0 to bit wp=512.
    // bit 0 of tape[0] = 1 (0x05 & 1 = 1). bit 512 = byte 64, bit 0.
    // After: tape[64] should have bit 0 set.
    Bits::execute(&mut tape, 1);
    assert_eq!(tape[64] & 1, 1);
}

#[test]
fn test_set_bit() {
    // SET_BIT: write 1 to wp (bit 512 = byte 64 bit 0).
    let mut tape = make_tape(&[0x10, 0xE0], 128);
    Bits::execute(&mut tape, 8192);
    assert_eq!(tape[64] & 1, 1);
}

#[test]
fn test_clr_bit() {
    // Set tape[64] = 0xFF. CLR_BIT clears bit 512 (byte 64 bit 0).
    let mut tape = make_tape(&[0x20, 0xE0], 128);
    tape[64] = 0xFF;
    Bits::execute(&mut tape, 8192);
    assert_eq!(tape[64], 0xFE); // bit 0 cleared
}

#[test]
fn test_skip_bit() {
    // SKIP_BIT advances bp. Then READ_CARRY reads bit 1 (not bit 0).
    // tape[0] = SKIP_BIT = 0x30. Bit 0 = 0, bit 1 = 0, bit 4 = 1, bit 5 = 1.
    // After SKIP_BIT: bp=1. READ_CARRY at pc=1: carry = bit 1 of tape[0] = 0.
    let mut tape = make_tape(&[0x30, 0x40, 0xE0], 128);
    // Bit 1 of 0x30 = 0. So carry = 0. Nothing observable without writing.
    Bits::execute(&mut tape, 8192);
    // Just verify no panic.
}

#[test]
fn test_read_carry() {
    // Set tape[0] bit pattern. READ_CARRY reads bit 0 into carry.
    // tape[0] = 0x41 (READ_CARRY opcode). Bit 0 = 1. carry becomes 1.
    // WRITE_CARRY writes carry to wp (bit 512 = byte 64 bit 0).
    let mut tape = make_tape(&[0x41, 0x50, 0xE0], 128);
    Bits::execute(&mut tape, 8192);
    assert_eq!(tape[64] & 1, 1);
}

#[test]
fn test_write_carry() {
    // FLIP_CARRY (carry=1), WRITE_CARRY (bit 512 = 1).
    let mut tape = make_tape(&[0x60, 0x50, 0xE0], 128);
    Bits::execute(&mut tape, 8192);
    assert_eq!(tape[64] & 1, 1);
}

#[test]
fn test_flip_carry() {
    // FLIP_CARRY twice: carry goes 0->1->0. WRITE_CARRY should write 0.
    let mut tape = make_tape(&[0x60, 0x60, 0x50, 0xE0], 128);
    tape[64] = 0xFF;
    Bits::execute(&mut tape, 8192);
    assert_eq!(tape[64] & 1, 0); // bit 0 cleared
}

#[test]
fn test_and_carry() {
    // FLIP_CARRY (carry=1). AND_CARRY with bit 0 of tape.
    // tape[0] = 0x60 = FLIP_CARRY. Bit 0 of 0x60 = 0. carry = 1 & 0 = 0.
    // Next: tape[1] = AND_CARRY. bp was 0, AND reads bit bp=0, then bp=1.
    // Wait, FLIP_CARRY doesn't advance bp. So bp=0 when AND executes.
    // tape[0] = 0x60: bit 0 = 0. carry = 1 & 0 = 0.
    // WRITE_CARRY writes 0 to wp.
    let mut tape = make_tape(&[0x60, 0x70, 0x50, 0xE0], 128);
    tape[64] = 0xFF;
    Bits::execute(&mut tape, 8192);
    assert_eq!(tape[64] & 1, 0);
}

#[test]
fn test_or_carry() {
    // carry=0. OR_CARRY with bit 0.
    // tape[0] = 0x81 (OR_CARRY). Bit 0 = 1. carry = 0 | 1 = 1.
    // WRITE_CARRY writes 1 to bit 512.
    let mut tape = make_tape(&[0x81, 0x50, 0xE0], 128);
    Bits::execute(&mut tape, 8192);
    assert_eq!(tape[64] & 1, 1);
}

#[test]
fn test_xor_carry() {
    // FLIP_CARRY (carry=1). XOR_CARRY with bit 0.
    // tape[0] = 0x60. bit 0 = 0. carry = 1 ^ 0 = 1.
    // tape[1] = XOR_CARRY = 0x90. bp=0 (FLIP doesn't advance bp).
    // bit 0 of tape[0] = 0. carry = 1 ^ 0 = 1.
    // WRITE_CARRY writes 1.
    let mut tape = make_tape(&[0x60, 0x90, 0x50, 0xE0], 128);
    Bits::execute(&mut tape, 8192);
    assert_eq!(tape[64] & 1, 1);
}

#[test]
fn test_jz_carry_taken() {
    // carry=0. JZ_CARRY with offset +1: skip 1 byte, land on HALT.
    let mut tape = make_tape(&[0xA0, 0x01, 0xF0, 0xE0], 128);
    let steps = Bits::execute(&mut tape, 8192);
    // JZ at 0: carry==0, jump to 0+2+1=3. HALT at 3.
    assert_eq!(steps, 2); // JZ + HALT
}

#[test]
fn test_jz_carry_not_taken() {
    // FLIP_CARRY (carry=1). JZ_CARRY: carry!=0, fall through.
    let mut tape = make_tape(&[0x60, 0xA0, 0x02, 0xE0], 128);
    let steps = Bits::execute(&mut tape, 8192);
    // FLIP at 0. JZ at 1: carry=1, not taken, pc=3. HALT at 3.
    assert_eq!(steps, 3);
}

#[test]
fn test_jnz_carry_taken() {
    // FLIP_CARRY (carry=1). JNZ_CARRY offset +1: skip NOP, land on HALT.
    let mut tape = make_tape(&[0x60, 0xB0, 0x01, 0xF0, 0xE0], 128);
    let steps = Bits::execute(&mut tape, 8192);
    // FLIP at 0. JNZ at 1: carry=1, jump to 1+2+1=4. HALT at 4.
    assert_eq!(steps, 3); // FLIP + JNZ + HALT
}

#[test]
fn test_jnz_carry_not_taken() {
    // carry=0. JNZ_CARRY: not taken, fall through.
    let mut tape = make_tape(&[0xB0, 0x01, 0xE0], 128);
    let steps = Bits::execute(&mut tape, 8192);
    // JNZ at 0: carry=0, not taken, pc=2. HALT at 2.
    assert_eq!(steps, 2);
}

#[test]
fn test_jnz_backward() {
    // Infinite loop: FLIP_CARRY, JNZ_CARRY back to start.
    // FLIP at 0, JNZ at 1 with offset -3: pc = 1+2+(-3) = 0.
    let mut tape = make_tape(&[0x60, 0xB0, 0xFD], 128);
    let steps = Bits::execute(&mut tape, 100);
    assert_eq!(steps, 100);
}

#[test]
fn test_bp_reset() {
    // SKIP_BIT (bp=1), SKIP_BIT (bp=2), BP_RESET (bp=0).
    // READ_CARRY at bp=0: reads bit 0 of tape[0].
    // tape[0] = 0x30 = SKIP_BIT. Bit 0 = 0.
    // WRITE_CARRY writes 0.
    let mut tape = make_tape(&[0x30, 0x30, 0xC0, 0x40, 0x50, 0xE0], 128);
    tape[64] = 0xFF;
    Bits::execute(&mut tape, 8192);
    assert_eq!(tape[64] & 1, 0); // carry was 0, cleared bit 0 of tape[64]
}

#[test]
fn test_wp_reset() {
    // SET_BIT (wp=513), WP_RESET (wp=512), CLR_BIT (wp=512, clears bit 512).
    let mut tape = make_tape(&[0x10, 0xD0, 0x20, 0xE0], 128);
    Bits::execute(&mut tape, 8192);
    // SET_BIT wrote 1 to bit 512 (byte 64 bit 0). WP_RESET moved wp back to 512.
    // CLR_BIT cleared bit 512 again. So byte 64 bit 0 = 0.
    assert_eq!(tape[64] & 1, 0);
}

#[test]
fn bits_test_nop() {
    let mut tape = make_tape(&[0xF0, 0xF0, 0xE0], 128);
    let steps = Bits::execute(&mut tape, 8192);
    assert_eq!(steps, 3);
}

#[test]
fn bits_test_empty_tape() {
    let mut tape: Vec<u8> = vec![];
    let steps = Bits::execute(&mut tape, 8192);
    assert_eq!(steps, 0);
}

#[test]
fn bits_test_step_limit() {
    // FLIP + JNZ back = infinite loop.
    let mut tape = make_tape(&[0x60, 0xB0, 0xFD], 128);
    let steps = Bits::execute(&mut tape, 50);
    assert_eq!(steps, 50);
}

// --- Replicator tests ---

#[test]
fn test_4_byte_replicator() {
    // COPY_BIT (0x00), FLIP_CARRY (0x60), JNZ_CARRY (0xB0), offset -4 (0xFC).
    // Copies one bit per iteration. After 512 iterations, all 64 bytes copied.
    let replicator: [u8; 4] = [0x00, 0x60, 0xB0, 0xFC];

    let mut tape = vec![0u8; 128];
    tape[..4].copy_from_slice(&replicator);

    Bits::execute(&mut tape, 8192);

    // First 4 bytes of second half should match the replicator.
    assert_eq!(
        &tape[64..68],
        &replicator,
        "replicator bytes should be copied"
    );
    // Rest should be zeros.
    assert_eq!(&tape[68..128], &vec![0u8; 60], "padding should be zeros");
}

#[test]
fn bits_test_replicator_is_functional_fixed_point() {
    let replicator: [u8; 4] = [0x00, 0x60, 0xB0, 0xFC];

    // Run 1
    let mut tape1 = vec![0u8; 128];
    tape1[..4].copy_from_slice(&replicator);
    Bits::execute(&mut tape1, 8192);
    let copy1 = tape1[64..128].to_vec();

    // Run 2
    let mut tape2 = vec![0u8; 128];
    tape2[..64].copy_from_slice(&copy1);
    Bits::execute(&mut tape2, 8192);
    let copy2 = tape2[64..128].to_vec();

    assert_eq!(copy1, copy2, "Bits replicator should be a fixed point");
}


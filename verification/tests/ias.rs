use complife::ias::{ADD, AND, DIV, HALT, Ias, JMP, JMP_POS, LOAD, LOAD_ABS, LOAD_MQ, LOAD_MQ_M, LOAD_NEG, MUL, OR, SHIFT_L, SHIFT_R, STORE, STORE_ADDR, SUB, XOR};
use complife::substrate::Substrate;

/// Build a tape of `size` bytes, placing `program` at the start.
/// `program` is a flat sequence of (opcode, operand) byte pairs.
fn make_tape(program: &[u8], size: usize) -> Vec<u8> {
    let mut tape = vec![0u8; size];
    for (i, &b) in program.iter().enumerate() {
        if i < size {
            tape[i] = b;
        }
    }
    tape
}

/// Helper: write an i16 word at word-address `addr` in a tape.
fn set_word(tape: &mut [u8], addr: usize, val: i16) {
    let idx = addr * 2;
    let bytes = val.to_le_bytes();
    tape[idx] = bytes[0];
    tape[idx + 1] = bytes[1];
}

/// Helper: read an i16 word at word-address `addr` in a tape.
fn get_word(tape: &[u8], addr: usize) -> i16 {
    let idx = addr * 2;
    i16::from_le_bytes([tape[idx], tape[idx + 1]])
}

#[test]
fn ias_test_empty_tape() {
    let mut tape: Vec<u8> = vec![];
    let steps = Ias::execute(&mut tape, 8192);
    assert_eq!(steps, 0);
}

#[test]
fn ias_test_single_byte_tape() {
    let mut tape = vec![0x01];
    let steps = Ias::execute(&mut tape, 8192);
    assert_eq!(steps, 0);
}

#[test]
fn ias_test_halt() {
    // Slot 0: HALT, Slot 1: LOAD (should never run)
    let mut tape = make_tape(&[HALT, 0x00, LOAD, 0x05], 128);
    let steps = Ias::execute(&mut tape, 8192);
    assert_eq!(steps, 1);
}

#[test]
fn ias_test_load() {
    // Put value 42 at word address 10. LOAD 10 -> ac=42. STORE 11 -> word[11]=42.
    let mut tape = make_tape(
        &[LOAD, 10, STORE, 11, HALT, 0x00],
        128,
    );
    set_word(&mut tape, 10, 42);
    Ias::execute(&mut tape, 8192);
    assert_eq!(get_word(&tape, 11), 42);
}

#[test]
fn ias_test_load_neg() {
    // Put value 42 at word address 10. LOAD_NEG 10 -> ac=-42. STORE 11.
    let mut tape = make_tape(
        &[LOAD_NEG, 10, STORE, 11, HALT, 0x00],
        128,
    );
    set_word(&mut tape, 10, 42);
    Ias::execute(&mut tape, 8192);
    assert_eq!(get_word(&tape, 11), -42);
}

#[test]
fn test_load_abs() {
    // Put value -7 at word address 10. LOAD_ABS 10 -> ac=7. STORE 11.
    let mut tape = make_tape(
        &[LOAD_ABS, 10, STORE, 11, HALT, 0x00],
        128,
    );
    set_word(&mut tape, 10, -7);
    Ias::execute(&mut tape, 8192);
    assert_eq!(get_word(&tape, 11), 7);
}

#[test]
fn test_load_mq() {
    // LOAD_MQ_M from word 10 (value 99) -> mq=99, ac=99.
    // Then LOAD 11 (value 0) -> ac=0.
    // Then LOAD_MQ -> ac=mq=99. STORE 12.
    let mut tape = make_tape(
        &[LOAD_MQ_M, 10, LOAD, 11, LOAD_MQ, 0x00, STORE, 12, HALT, 0x00],
        128,
    );
    set_word(&mut tape, 10, 99);
    Ias::execute(&mut tape, 8192);
    assert_eq!(get_word(&tape, 12), 99);
}

#[test]
fn test_load_mq_m() {
    // LOAD_MQ_M from word 10 (value 55) -> mq=55, ac=55. STORE 11.
    let mut tape = make_tape(
        &[LOAD_MQ_M, 10, STORE, 11, HALT, 0x00],
        128,
    );
    set_word(&mut tape, 10, 55);
    Ias::execute(&mut tape, 8192);
    assert_eq!(get_word(&tape, 11), 55);
}

#[test]
fn ias_test_store() {
    // LOAD 10 (value 123). STORE 11. Check word 11.
    let mut tape = make_tape(
        &[LOAD, 10, STORE, 11, HALT, 0x00],
        128,
    );
    set_word(&mut tape, 10, 123);
    Ias::execute(&mut tape, 8192);
    assert_eq!(get_word(&tape, 11), 123);
}

#[test]
fn ias_test_add() {
    // LOAD 10 (value 30). ADD 11 (value 12). STORE 12.
    let mut tape = make_tape(
        &[LOAD, 10, ADD, 11, STORE, 12, HALT, 0x00],
        128,
    );
    set_word(&mut tape, 10, 30);
    set_word(&mut tape, 11, 12);
    Ias::execute(&mut tape, 8192);
    assert_eq!(get_word(&tape, 12), 42);
}

#[test]
fn ias_test_add_wrapping() {
    // LOAD 10 (i16::MAX). ADD 11 (1). Wraps to i16::MIN.
    let mut tape = make_tape(
        &[LOAD, 10, ADD, 11, STORE, 12, HALT, 0x00],
        128,
    );
    set_word(&mut tape, 10, i16::MAX);
    set_word(&mut tape, 11, 1);
    Ias::execute(&mut tape, 8192);
    assert_eq!(get_word(&tape, 12), i16::MIN);
}

#[test]
fn ias_test_sub() {
    // LOAD 10 (value 50). SUB 11 (value 8). STORE 12.
    let mut tape = make_tape(
        &[LOAD, 10, SUB, 11, STORE, 12, HALT, 0x00],
        128,
    );
    set_word(&mut tape, 10, 50);
    set_word(&mut tape, 11, 8);
    Ias::execute(&mut tape, 8192);
    assert_eq!(get_word(&tape, 12), 42);
}

#[test]
fn ias_test_mul() {
    // LOAD_MQ_M 10 (value 7). MUL 11 (value 6). mq = 42, ac = 0 (small product).
    // Then LOAD_MQ -> ac=42. STORE 12.
    let mut tape = make_tape(
        &[LOAD_MQ_M, 10, MUL, 11, LOAD_MQ, 0x00, STORE, 12, HALT, 0x00],
        128,
    );
    set_word(&mut tape, 10, 7);
    set_word(&mut tape, 11, 6);
    Ias::execute(&mut tape, 8192);
    assert_eq!(get_word(&tape, 12), 42);
}

#[test]
fn test_mul_high_bits() {
    // LOAD_MQ_M 10 (value 1000). MUL 11 (value 1000). Product = 1_000_000.
    // 1_000_000 = 0x000F_4240. mq = 0x4240, ac = 0x000F.
    let mut tape = make_tape(
        &[LOAD_MQ_M, 10, MUL, 11, STORE, 12, LOAD_MQ, 0x00, STORE, 13, HALT, 0x00],
        128,
    );
    set_word(&mut tape, 10, 1000);
    set_word(&mut tape, 11, 1000);
    Ias::execute(&mut tape, 8192);
    assert_eq!(get_word(&tape, 12), 0x000F); // high bits in ac
    assert_eq!(get_word(&tape, 13), 0x4240u16 as i16); // low bits in mq
}

#[test]
fn ias_test_div() {
    // LOAD 10 (value 42). DIV 11 (value 5). mq=42/5=8, ac=42%5=2.
    // STORE 12 (ac=2). LOAD_MQ. STORE 13 (mq=8).
    let mut tape = make_tape(
        &[LOAD, 10, DIV, 11, STORE, 12, LOAD_MQ, 0x00, STORE, 13, HALT, 0x00],
        128,
    );
    set_word(&mut tape, 10, 42);
    set_word(&mut tape, 11, 5);
    Ias::execute(&mut tape, 8192);
    assert_eq!(get_word(&tape, 12), 2);  // remainder
    assert_eq!(get_word(&tape, 13), 8);  // quotient
}

#[test]
fn ias_test_div_by_zero_halts() {
    // LOAD 10 (value 42). DIV 11 (value 0). Should halt immediately.
    // The STORE should never execute.
    let mut tape = make_tape(
        &[LOAD, 10, DIV, 11, STORE, 12, HALT, 0x00],
        128,
    );
    set_word(&mut tape, 10, 42);
    set_word(&mut tape, 11, 0);
    let steps = Ias::execute(&mut tape, 8192);
    assert_eq!(steps, 2); // LOAD + DIV (halts on DIV)
    assert_eq!(get_word(&tape, 12), 0); // STORE never ran
}

#[test]
fn ias_test_jmp() {
    // Slot 0: JMP 3. Slot 1: HALT (skipped). Slot 2: HALT (skipped).
    // Slot 3: LOAD 10 (value 77). Slot 4: STORE 11. Slot 5: HALT.
    let mut tape = make_tape(
        &[
            JMP, 3,
            HALT, 0x00,
            HALT, 0x00,
            LOAD, 10,
            STORE, 11,
            HALT, 0x00,
        ],
        128,
    );
    set_word(&mut tape, 10, 77);
    Ias::execute(&mut tape, 8192);
    assert_eq!(get_word(&tape, 11), 77);
}

#[test]
fn test_jmp_pos_taken() {
    // LOAD 10 (value 5, positive). JMP_POS 4. Slot 2: HALT (skipped).
    // Slot 3: HALT (skipped). Slot 4: STORE 11. Slot 5: HALT.
    let mut tape = make_tape(
        &[
            LOAD, 10,
            JMP_POS, 4,
            HALT, 0x00,
            HALT, 0x00,
            STORE, 11,
            HALT, 0x00,
        ],
        128,
    );
    set_word(&mut tape, 10, 5);
    Ias::execute(&mut tape, 8192);
    assert_eq!(get_word(&tape, 11), 5);
}

#[test]
fn test_jmp_pos_not_taken() {
    // LOAD 10 (value -1, negative). JMP_POS 4 (not taken). STORE 11. HALT.
    let mut tape = make_tape(
        &[
            LOAD, 10,
            JMP_POS, 4,
            STORE, 11,
            HALT, 0x00,
        ],
        128,
    );
    set_word(&mut tape, 10, -1);
    Ias::execute(&mut tape, 8192);
    assert_eq!(get_word(&tape, 11), -1);
}

#[test]
fn test_jmp_pos_zero_taken() {
    // ac=0 (>= 0), so JMP_POS should be taken.
    // Slot 0: JMP_POS 2. Slot 1: HALT (skipped). Slot 2: STORE 10. Slot 3: HALT.
    let mut tape = make_tape(
        &[
            JMP_POS, 2,
            HALT, 0x00,
            STORE, 10,
            HALT, 0x00,
        ],
        128,
    );
    Ias::execute(&mut tape, 8192);
    assert_eq!(get_word(&tape, 10), 0); // ac was 0, stored 0
}

#[test]
fn ias_test_shift_left() {
    // LOAD 10 (value 1). SHIFT_L 3. ac = 1 << 3 = 8. STORE 11.
    let mut tape = make_tape(
        &[LOAD, 10, SHIFT_L, 3, STORE, 11, HALT, 0x00],
        128,
    );
    set_word(&mut tape, 10, 1);
    Ias::execute(&mut tape, 8192);
    assert_eq!(get_word(&tape, 11), 8);
}

#[test]
fn ias_test_shift_right() {
    // LOAD 10 (value -8). SHIFT_R 2. ac = -8 >> 2 = -2 (arithmetic shift). STORE 11.
    let mut tape = make_tape(
        &[LOAD, 10, SHIFT_R, 2, STORE, 11, HALT, 0x00],
        128,
    );
    set_word(&mut tape, 10, -8);
    Ias::execute(&mut tape, 8192);
    assert_eq!(get_word(&tape, 11), -2);
}

#[test]
fn test_shift_right_positive() {
    // LOAD 10 (value 16). SHIFT_R 2. ac = 16 >> 2 = 4. STORE 11.
    let mut tape = make_tape(
        &[LOAD, 10, SHIFT_R, 2, STORE, 11, HALT, 0x00],
        128,
    );
    set_word(&mut tape, 10, 16);
    Ias::execute(&mut tape, 8192);
    assert_eq!(get_word(&tape, 11), 4);
}

#[test]
fn test_shift_uses_low_4_bits() {
    // Operand is 0xF3 but only low 4 bits (3) are used for shift amount.
    let mut tape = make_tape(
        &[LOAD, 10, SHIFT_L, 0xF3, STORE, 11, HALT, 0x00],
        128,
    );
    set_word(&mut tape, 10, 1);
    Ias::execute(&mut tape, 8192);
    assert_eq!(get_word(&tape, 11), 8); // 1 << 3 = 8
}

#[test]
fn test_store_addr() {
    // LOAD 10 (value 0x1234). STORE_ADDR 11. Only low byte (0x34) is stored.
    let mut tape = make_tape(
        &[LOAD, 10, STORE_ADDR, 11, HALT, 0x00],
        128,
    );
    set_word(&mut tape, 10, 0x1234);
    Ias::execute(&mut tape, 8192);
    // STORE_ADDR writes only the low byte of ac to the low byte of the target word.
    assert_eq!(tape[11 * 2], 0x34);
}

#[test]
fn ias_test_and() {
    // LOAD 10 (value 0x0F0F). AND 11 (value 0x00FF). STORE 12.
    let mut tape = make_tape(
        &[LOAD, 10, AND, 11, STORE, 12, HALT, 0x00],
        128,
    );
    set_word(&mut tape, 10, 0x0F0F);
    set_word(&mut tape, 11, 0x00FF);
    Ias::execute(&mut tape, 8192);
    assert_eq!(get_word(&tape, 12), 0x000F);
}

#[test]
fn ias_test_or() {
    // LOAD 10 (value 0x0F00). OR 11 (value 0x00F0). STORE 12.
    let mut tape = make_tape(
        &[LOAD, 10, OR, 11, STORE, 12, HALT, 0x00],
        128,
    );
    set_word(&mut tape, 10, 0x0F00);
    set_word(&mut tape, 11, 0x00F0);
    Ias::execute(&mut tape, 8192);
    assert_eq!(get_word(&tape, 12), 0x0FF0);
}

#[test]
fn ias_test_xor() {
    // LOAD 10 (value 0xFF00). XOR 11 (value 0x0FF0). STORE 12.
    let mut tape = make_tape(
        &[LOAD, 10, XOR, 11, STORE, 12, HALT, 0x00],
        128,
    );
    set_word(&mut tape, 10, 0x7F00u16 as i16);
    set_word(&mut tape, 11, 0x0FF0);
    Ias::execute(&mut tape, 8192);
    assert_eq!(get_word(&tape, 12), 0x70F0);
}

#[test]
fn ias_test_nop_bytes() {
    // Opcodes 0x13-0x1F are NOP. Just advances pc.
    let mut tape = make_tape(
        &[0x13, 0x00, 0x14, 0x00, 0x1F, 0x00, LOAD, 10, STORE, 11, HALT, 0x00],
        128,
    );
    set_word(&mut tape, 10, 77);
    Ias::execute(&mut tape, 8192);
    assert_eq!(get_word(&tape, 11), 77);
}

#[test]
fn ias_test_high_bits_ignored_for_opcode() {
    // Byte 0xE1 has low 5 bits = 0x01 = LOAD. Should work as LOAD.
    let mut tape = make_tape(
        &[0xE1, 10, STORE, 11, HALT, 0x00],
        128,
    );
    set_word(&mut tape, 10, 33);
    Ias::execute(&mut tape, 8192);
    assert_eq!(get_word(&tape, 11), 33);
}

#[test]
fn ias_test_step_limit() {
    // Infinite loop: JMP 0 (jump to self forever)
    let mut tape = make_tape(&[JMP, 0x00], 128);
    let steps = Ias::execute(&mut tape, 100);
    assert_eq!(steps, 100);
}

#[test]
fn test_address_wraps() {
    // Tape has 64 words (128 bytes). Address 200 wraps to 200 % 64 = 8.
    let mut tape = make_tape(
        &[LOAD, 200, STORE, 11, HALT, 0x00],
        128,
    );
    set_word(&mut tape, 200 % 64, 999);
    Ias::execute(&mut tape, 8192);
    assert_eq!(get_word(&tape, 11), 999);
}

#[test]
fn ias_test_disassemble() {
    let tape = vec![LOAD, 10, ADD, 5, HALT, 0x00];
    let listing = Ias::disassemble(&tape);
    assert!(listing.contains("LOAD 10"));
    assert!(listing.contains("ADD 5"));
    assert!(listing.contains("HALT"));
}

#[test]
fn ias_test_disassemble_empty() {
    let tape: Vec<u8> = vec![];
    let listing = Ias::disassemble(&tape);
    assert!(listing.is_empty());
}

#[test]
fn ias_test_disassemble_single_byte() {
    let tape = vec![0x01];
    let listing = Ias::disassemble(&tape);
    assert!(listing.is_empty());
}

#[test]
fn ias_test_is_instruction() {
    assert!(Ias::is_instruction(HALT));
    assert!(Ias::is_instruction(LOAD));
    assert!(Ias::is_instruction(XOR));
    assert!(!Ias::is_instruction(0x13));
    assert!(!Ias::is_instruction(0xFF));
    // High bits should not matter — only low 5 bits checked.
    assert!(Ias::is_instruction(0xE1)); // low 5 bits = 0x01 = LOAD
    assert!(!Ias::is_instruction(0x33)); // low 5 bits = 0x13 = NOP
}

#[test]
fn test_program_counter_increments() {
    // Verify that each instruction advances pc by 1 (one slot = 2 bytes).
    // LOAD 10, ADD 10, ADD 10, STORE 11, HALT.
    let mut tape = make_tape(
        &[LOAD, 10, ADD, 10, ADD, 10, STORE, 11, HALT, 0x00],
        128,
    );
    set_word(&mut tape, 10, 5);
    let steps = Ias::execute(&mut tape, 8192);
    assert_eq!(steps, 5); // 4 instructions + HALT
    assert_eq!(get_word(&tape, 11), 15); // 5 + 5 + 5
}

#[test]
fn ias_test_self_modifying_code() {
    // Use STORE to modify a data word that a later instruction reads.
    // Slot 0: LOAD 10 (value 42).
    // Slot 1: STORE 20 (writes ac=42 to word 20).
    // Slot 2: LOAD 20 (now reads 42 instead of original 0).
    // Slot 3: STORE 11.
    // Slot 4: HALT.
    let mut tape = make_tape(
        &[LOAD, 10, STORE, 20, LOAD, 20, STORE, 11, HALT, 0x00],
        128,
    );
    set_word(&mut tape, 10, 42);
    // word 20 starts as 0, but STORE 20 will write 42 there before LOAD 20 reads it.
    Ias::execute(&mut tape, 8192);
    assert_eq!(get_word(&tape, 11), 42);
    assert_eq!(get_word(&tape, 20), 42);
}


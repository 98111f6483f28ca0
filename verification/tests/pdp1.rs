use complife::pdp1::{ADD, AND, CLR, DEC, HALT, INC, IOR, ISZ, JMP, JSR, LOAD, LOAD_IO, LOAD_NEG, MAX_OPCODE, Pdp1, ROT_L, SHIFT_L, SHIFT_R, SKP_NEG, SKP_OVF, SKP_POS, SKP_Z, STORE, STORE_IO, SUB, SWAP, XOR};
use complife::substrate::Substrate;

/// Build a tape from a sequence of (opcode, operand) instruction pairs,
/// with extra space for data words.
fn make_tape(instrs: &[(u8, u8)], total_words: usize) -> Vec<u8> {
    let mut tape = vec![0u8; total_words * 2];
    for (i, &(op, arg)) in instrs.iter().enumerate() {
        let off = i * 2;
        if off + 1 < tape.len() {
            tape[off] = op;
            tape[off + 1] = arg;
        }
    }
    tape
}

/// Write a 16-bit value at a given word index in the tape.
fn set_word(tape: &mut [u8], word_idx: usize, val: i16) {
    let off = word_idx * 2;
    let bytes = val.to_le_bytes();
    tape[off] = bytes[0];
    tape[off + 1] = bytes[1];
}

/// Read a 16-bit value from a given word index in the tape.
fn get_word(tape: &[u8], word_idx: usize) -> i16 {
    let off = word_idx * 2;
    i16::from_le_bytes([tape[off], tape[off + 1]])
}

#[test]
fn pdp1_test_empty_tape() {
    let mut tape: Vec<u8> = vec![];
    let steps = Pdp1::execute(&mut tape, 8192);
    assert_eq!(steps, 0);
}

#[test]
fn pdp1_test_single_byte_tape() {
    let mut tape = vec![0u8; 1];
    let steps = Pdp1::execute(&mut tape, 8192);
    assert_eq!(steps, 0);
}

#[test]
fn pdp1_test_halt() {
    // HALT at word 0, then INC at word 1 — should never reach INC
    let mut tape = make_tape(&[(HALT, 0), (INC, 0)], 8);
    let steps = Pdp1::execute(&mut tape, 8192);
    assert_eq!(steps, 1);
}

#[test]
fn pdp1_test_load() {
    // Put 42 at word 4, LOAD from word 4, STORE to word 5, HALT
    let mut tape = make_tape(&[(LOAD, 4), (STORE, 5), (HALT, 0)], 8);
    set_word(&mut tape, 4, 42);
    Pdp1::execute(&mut tape, 8192);
    assert_eq!(get_word(&tape, 5), 42);
}

#[test]
fn pdp1_test_store() {
    // LOAD 100 from word 4, STORE to word 5
    let mut tape = make_tape(&[(LOAD, 4), (STORE, 5), (HALT, 0)], 8);
    set_word(&mut tape, 4, 100);
    Pdp1::execute(&mut tape, 8192);
    assert_eq!(get_word(&tape, 5), 100);
}

#[test]
fn pdp1_test_add() {
    // ac = mem[4]=10, ac += mem[5]=20 => ac=30, store to word 6
    let mut tape = make_tape(&[(LOAD, 4), (ADD, 5), (STORE, 6), (HALT, 0)], 8);
    set_word(&mut tape, 4, 10);
    set_word(&mut tape, 5, 20);
    Pdp1::execute(&mut tape, 8192);
    assert_eq!(get_word(&tape, 6), 30);
}

#[test]
fn test_add_overflow() {
    // ac = i16::MAX, ac += 1 => overflow, ac wraps to i16::MIN
    let mut tape = make_tape(
        &[(LOAD, 5), (ADD, 6), (STORE, 7), (SKP_OVF, 0), (HALT, 0)],
        10,
    );
    set_word(&mut tape, 5, i16::MAX);
    set_word(&mut tape, 6, 1);
    Pdp1::execute(&mut tape, 8192);
    assert_eq!(get_word(&tape, 7), i16::MIN); // wrapped
}

#[test]
fn pdp1_test_sub() {
    // ac = 50, ac -= 30 => ac=20
    let mut tape = make_tape(&[(LOAD, 4), (SUB, 5), (STORE, 6), (HALT, 0)], 8);
    set_word(&mut tape, 4, 50);
    set_word(&mut tape, 5, 30);
    Pdp1::execute(&mut tape, 8192);
    assert_eq!(get_word(&tape, 6), 20);
}

#[test]
fn test_sub_overflow() {
    // ac = i16::MIN, ac -= 1 => overflow
    let mut tape = make_tape(
        &[(LOAD, 5), (SUB, 6), (STORE, 7), (SKP_OVF, 0), (HALT, 0)],
        10,
    );
    set_word(&mut tape, 5, i16::MIN);
    set_word(&mut tape, 6, 1);
    Pdp1::execute(&mut tape, 8192);
    assert_eq!(get_word(&tape, 7), i16::MAX); // wrapped
}

#[test]
fn pdp1_test_and() {
    let mut tape = make_tape(&[(LOAD, 4), (AND, 5), (STORE, 6), (HALT, 0)], 8);
    set_word(&mut tape, 4, 0x0F0F);
    set_word(&mut tape, 5, 0x00FF);
    Pdp1::execute(&mut tape, 8192);
    assert_eq!(get_word(&tape, 6), 0x000F);
}

#[test]
fn test_ior() {
    let mut tape = make_tape(&[(LOAD, 4), (IOR, 5), (STORE, 6), (HALT, 0)], 8);
    set_word(&mut tape, 4, 0x0F00);
    set_word(&mut tape, 5, 0x00F0);
    Pdp1::execute(&mut tape, 8192);
    assert_eq!(get_word(&tape, 6), 0x0FF0);
}

#[test]
fn pdp1_test_xor() {
    let mut tape = make_tape(&[(LOAD, 4), (XOR, 5), (STORE, 6), (HALT, 0)], 8);
    set_word(&mut tape, 4, 0x0FF0);
    set_word(&mut tape, 5, 0x0F0F);
    Pdp1::execute(&mut tape, 8192);
    assert_eq!(get_word(&tape, 6), 0x00FF);
}

#[test]
fn pdp1_test_load_neg() {
    // ac = -mem[4] = -42
    let mut tape = make_tape(&[(LOAD_NEG, 4), (STORE, 5), (HALT, 0)], 8);
    set_word(&mut tape, 4, 42);
    Pdp1::execute(&mut tape, 8192);
    assert_eq!(get_word(&tape, 5), -42);
}

#[test]
fn pdp1_test_swap() {
    // ac = mem[4]=10. SWAP mem[5]=20: ac becomes 20, mem[5] becomes 10.
    let mut tape = make_tape(&[(LOAD, 4), (SWAP, 5), (STORE, 6), (HALT, 0)], 8);
    set_word(&mut tape, 4, 10);
    set_word(&mut tape, 5, 20);
    Pdp1::execute(&mut tape, 8192);
    assert_eq!(get_word(&tape, 5), 10); // old ac
    assert_eq!(get_word(&tape, 6), 20); // ac is now the old mem[5]
}

#[test]
fn pdp1_test_jmp() {
    // JMP to word 3. Word 3 has HALT. Word 1 has INC (should be skipped).
    let mut tape = make_tape(&[(JMP, 3), (INC, 0), (INC, 0), (HALT, 0)], 8);
    let steps = Pdp1::execute(&mut tape, 8192);
    assert_eq!(steps, 2); // JMP + HALT
}

#[test]
fn test_jsr() {
    // JSR to word 3: io = pc+1 = 1, pc = 3. Word 3: LOAD_IO, STORE to word 5, HALT.
    let mut tape = make_tape(
        &[
            (JSR, 3),
            (INC, 0), // skipped
            (INC, 0), // skipped
            (LOAD_IO, 0),
            (STORE, 5),
            (HALT, 0),
        ],
        8,
    );
    Pdp1::execute(&mut tape, 8192);
    assert_eq!(get_word(&tape, 5), 1); // io was pc+1=1
}

#[test]
fn test_skp_z_taken() {
    // ac=0 (initial). SKP_Z skips the HALT at word 1. Word 2 has INC, word 3 STORE, word 4 HALT.
    let mut tape = make_tape(
        &[(SKP_Z, 0), (HALT, 0), (INC, 0), (STORE, 6), (HALT, 0)],
        8,
    );
    Pdp1::execute(&mut tape, 8192);
    assert_eq!(get_word(&tape, 6), 1); // INC ran
}

#[test]
fn test_skp_z_not_taken() {
    // ac != 0. SKP_Z does not skip.
    let mut tape = make_tape(&[(INC, 0), (SKP_Z, 0), (HALT, 0), (INC, 0)], 8);
    let steps = Pdp1::execute(&mut tape, 8192);
    assert_eq!(steps, 3); // INC, SKP_Z (not taken), HALT
}

#[test]
fn test_skp_pos_taken() {
    // ac=0 (which is >= 0). SKP_POS skips HALT.
    let mut tape = make_tape(
        &[(SKP_POS, 0), (HALT, 0), (INC, 0), (STORE, 6), (HALT, 0)],
        8,
    );
    Pdp1::execute(&mut tape, 8192);
    assert_eq!(get_word(&tape, 6), 1);
}

#[test]
fn test_skp_pos_not_taken() {
    // ac < 0. SKP_POS does not skip.
    let mut tape = make_tape(&[(DEC, 0), (SKP_POS, 0), (HALT, 0), (INC, 0)], 8);
    let steps = Pdp1::execute(&mut tape, 8192);
    assert_eq!(steps, 3); // DEC (ac=-1), SKP_POS (not taken), HALT
}

#[test]
fn test_skp_neg_taken() {
    // ac=-1 (after DEC). SKP_NEG skips HALT.
    let mut tape = make_tape(
        &[(DEC, 0), (SKP_NEG, 0), (HALT, 0), (STORE, 6), (HALT, 0)],
        8,
    );
    Pdp1::execute(&mut tape, 8192);
    assert_eq!(get_word(&tape, 6), -1);
}

#[test]
fn test_skp_neg_not_taken() {
    // ac=0. SKP_NEG does not skip.
    let mut tape = make_tape(&[(SKP_NEG, 0), (HALT, 0), (INC, 0)], 8);
    let steps = Pdp1::execute(&mut tape, 8192);
    assert_eq!(steps, 2); // SKP_NEG (not taken), HALT
}

#[test]
fn test_skp_ovf_taken_and_clears() {
    // Force overflow: ac = i16::MAX, ADD 1. SKP_OVF skips HALT. Then check overflow is clear.
    let mut tape = make_tape(
        &[
            (LOAD, 8),   // ac = i16::MAX
            (ADD, 9),    // ac += 1 => overflow
            (SKP_OVF, 0), // skip (overflow set), clears overflow
            (HALT, 0),   // skipped
            (SKP_OVF, 0), // not taken (overflow cleared)
            (HALT, 0),   // reached
        ],
        10,
    );
    set_word(&mut tape, 8, i16::MAX);
    set_word(&mut tape, 9, 1);
    let steps = Pdp1::execute(&mut tape, 8192);
    // w0=LOAD, w1=ADD, w2=SKP_OVF(skip+clear), w3=HALT(skipped),
    // w4=SKP_OVF(not taken, overflow already cleared), w5=HALT
    assert_eq!(steps, 5);
}

#[test]
fn test_skp_ovf_not_taken_when_no_overflow() {
    // No overflow happened. SKP_OVF does not skip.
    let mut tape = make_tape(&[(SKP_OVF, 0), (HALT, 0), (INC, 0)], 8);
    let steps = Pdp1::execute(&mut tape, 8192);
    assert_eq!(steps, 2); // SKP_OVF (not taken), HALT
}

#[test]
fn pdp1_test_shift_l() {
    // ac = 1, shift left by 3 => 8
    let mut tape = make_tape(&[(LOAD, 4), (SHIFT_L, 3), (STORE, 5), (HALT, 0)], 8);
    set_word(&mut tape, 4, 1);
    Pdp1::execute(&mut tape, 8192);
    assert_eq!(get_word(&tape, 5), 8);
}

#[test]
fn pdp1_test_shift_r() {
    // ac = -16, arithmetic shift right by 2 => -4
    let mut tape = make_tape(&[(LOAD, 4), (SHIFT_R, 2), (STORE, 5), (HALT, 0)], 8);
    set_word(&mut tape, 4, -16);
    Pdp1::execute(&mut tape, 8192);
    assert_eq!(get_word(&tape, 5), -4);
}

#[test]
fn test_rot_l() {
    // ac = 0x8001 as u16 = -32767 as i16. Rotate left by 1 => 0x0003.
    let mut tape = make_tape(&[(LOAD, 4), (ROT_L, 1), (STORE, 5), (HALT, 0)], 8);
    set_word(&mut tape, 4, 0x8001_u16 as i16);
    Pdp1::execute(&mut tape, 8192);
    assert_eq!(get_word(&tape, 5) as u16, 0x0003);
}

#[test]
fn test_clr() {
    // ac = 42, CLR => ac = 0
    let mut tape = make_tape(&[(LOAD, 4), (CLR, 0), (STORE, 5), (HALT, 0)], 8);
    set_word(&mut tape, 4, 42);
    Pdp1::execute(&mut tape, 8192);
    assert_eq!(get_word(&tape, 5), 0);
}

#[test]
fn test_load_io_store_io() {
    // STORE_IO saves ac to io. Load something else. LOAD_IO retrieves it.
    let mut tape = make_tape(
        &[
            (LOAD, 6),     // ac = 99
            (STORE_IO, 0), // io = 99
            (CLR, 0),      // ac = 0
            (LOAD_IO, 0),  // ac = io = 99
            (STORE, 7),    // mem[7] = 99
            (HALT, 0),
        ],
        8,
    );
    set_word(&mut tape, 6, 99);
    Pdp1::execute(&mut tape, 8192);
    assert_eq!(get_word(&tape, 7), 99);
}

#[test]
fn pdp1_test_inc() {
    // ac=0, INC => ac=1
    let mut tape = make_tape(&[(INC, 0), (STORE, 4), (HALT, 0)], 8);
    Pdp1::execute(&mut tape, 8192);
    assert_eq!(get_word(&tape, 4), 1);
}

#[test]
fn pdp1_test_dec() {
    // ac=0, DEC => ac=-1
    let mut tape = make_tape(&[(DEC, 0), (STORE, 4), (HALT, 0)], 8);
    Pdp1::execute(&mut tape, 8192);
    assert_eq!(get_word(&tape, 4), -1);
}

#[test]
fn test_isz_no_skip() {
    // mem[4] = 5. ISZ: mem[4] becomes 6 (not zero), no skip.
    let mut tape = make_tape(&[(ISZ, 4), (HALT, 0), (INC, 0)], 8);
    set_word(&mut tape, 4, 5);
    Pdp1::execute(&mut tape, 8192);
    assert_eq!(get_word(&tape, 4), 6);
}

#[test]
fn test_isz_skip() {
    // mem[4] = -1. ISZ: mem[4] becomes 0, skip HALT.
    let mut tape = make_tape(
        &[(ISZ, 4), (HALT, 0), (INC, 0), (STORE, 5), (HALT, 0)],
        8,
    );
    set_word(&mut tape, 4, -1);
    Pdp1::execute(&mut tape, 8192);
    assert_eq!(get_word(&tape, 4), 0);
    assert_eq!(get_word(&tape, 5), 1); // INC ran because HALT was skipped
}

#[test]
fn pdp1_test_nop_bytes() {
    // Opcodes 0x19-0x1F are NOPs. They should just advance pc.
    let mut tape = make_tape(&[(0x19, 0), (0x1F, 0), (INC, 0), (STORE, 5), (HALT, 0)], 8);
    Pdp1::execute(&mut tape, 8192);
    assert_eq!(get_word(&tape, 5), 1); // only one INC
}

#[test]
fn pdp1_test_step_limit() {
    // Infinite loop: JMP 0
    let mut tape = make_tape(&[(JMP, 0)], 4);
    let steps = Pdp1::execute(&mut tape, 100);
    assert_eq!(steps, 100);
}

#[test]
fn pdp1_test_address_wrapping() {
    // In a tape with 8 words, address 10 wraps to 10%8 = 2.
    let mut tape = make_tape(&[(LOAD, 10), (STORE, 5), (HALT, 0)], 8);
    // Word 2 (which is where address 10 wraps to) = word 2 = the HALT instruction.
    // Let's set word 2 explicitly.
    set_word(&mut tape, 2, 777);
    Pdp1::execute(&mut tape, 8192);
    assert_eq!(get_word(&tape, 5), 777);
}

#[test]
fn pdp1_test_is_instruction() {
    for op in 0..=MAX_OPCODE {
        assert!(Pdp1::is_instruction(op), "opcode {op} should be instruction");
    }
    // Opcodes with higher bits set but low 5 bits in range should also be true
    assert!(Pdp1::is_instruction(0x20 | LOAD)); // 0x26
    assert!(Pdp1::is_instruction(0xE0 | ISZ)); // 0xF8

    // Low 5 bits > MAX_OPCODE should be false
    assert!(!Pdp1::is_instruction(0x19));
    assert!(!Pdp1::is_instruction(0x1F));
}

#[test]
fn pdp1_test_disassemble() {
    let tape = make_tape(&[(LOAD, 4), (ADD, 5), (STORE, 6), (HALT, 0)], 8);
    let disasm = Pdp1::disassemble(&tape);
    assert!(disasm.contains("LOAD"));
    assert!(disasm.contains("ADD"));
    assert!(disasm.contains("STORE"));
    assert!(disasm.contains("HALT"));
}

#[test]
fn test_disassemble_trailing_byte() {
    // Odd-length tape should show trailing byte
    let tape = vec![LOAD, 4, HALT, 0, 0xFF];
    let disasm = Pdp1::disassemble(&tape);
    assert!(disasm.contains("trailing"));
}

#[test]
fn test_jsr_return_pattern() {
    // JSR saves return address in io. Subroutine can JMP back via LOAD_IO + use as address.
    // w0: JSR 3 (io=1, pc=3)
    // w1: STORE 7, w2: HALT (return point and after)
    // w3: INC (subroutine body)
    // w4: LOAD_IO => ac = 1
    // w5: actually we need to JMP to the return address stored in io.
    // Since JMP takes an operand from the instruction, not ac, we need SWAP.
    // Simpler test: just verify io holds the right return address.
    let mut tape = make_tape(
        &[
            (JSR, 3),      // w0: io = 1, pc = 3
            (STORE, 7),    // w1: (return target)
            (HALT, 0),     // w2:
            (LOAD_IO, 0),  // w3: ac = io = 1
            (STORE, 7),    // w4: mem[7] = 1
            (HALT, 0),     // w5:
        ],
        8,
    );
    Pdp1::execute(&mut tape, 8192);
    assert_eq!(get_word(&tape, 7), 1); // io was set to pc+1=1
}


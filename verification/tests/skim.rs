use complife::skim::Skim;
use complife::substrate::Substrate;

fn make_tape(program: &[u8], size: usize) -> Vec<u8> {
    let mut tape = vec![0u8; size];
    for (i, &b) in program.iter().enumerate() {
        if i < size {
            tape[i] = b;
        }
    }
    tape
}

// --- Basic instruction tests ---

#[test]
fn skim_test_halt() {
    // 0xC0 = HALT with skip 1. Should stop immediately.
    let mut tape = make_tape(&[0xC0], 128);
    let steps = Skim::execute(&mut tape, 8192);
    assert_eq!(steps, 1);
}

#[test]
fn test_inc_then_halt() {
    // 0x30 = INC skip 1, 0xC0 = HALT.
    // pc=0: INC, acc=1, pc=1. pc=1: HALT.
    let mut tape = make_tape(&[0x30, 0xC0], 128);
    let steps = Skim::execute(&mut tape, 8192);
    assert_eq!(steps, 2);
}

#[test]
fn test_skip_distance() {
    // 0x33 = INC skip 4. Next instruction at pc=4.
    // 0xC0 at position 4 = HALT.
    // Positions 1,2,3 should be skipped.
    let mut tape = make_tape(&[0x33, 0x30, 0x30, 0x30, 0xC0], 128);
    let steps = Skim::execute(&mut tape, 8192);
    assert_eq!(steps, 2); // INC at 0, HALT at 4
}

#[test]
fn test_store_to_wp() {
    // INC (acc=1), INC (acc=2), STORE (tape[64]=2), HALT.
    // All with skip 1 (low nibble 0).
    let mut tape = make_tape(&[0x30, 0x30, 0x10, 0xC0], 128);
    Skim::execute(&mut tape, 8192);
    assert_eq!(tape[64], 2);
}

#[test]
fn test_load_from_wp() {
    // LOAD (acc=tape[64]), STORE at wp+1... actually just check acc via store.
    // Set tape[64] = 42. LOAD (acc=42). WP_INC (wp=65). STORE (tape[65]=42). HALT.
    let mut tape = make_tape(&[0x00, 0x60, 0x10, 0xC0], 128);
    tape[64] = 42;
    Skim::execute(&mut tape, 8192);
    assert_eq!(tape[65], 42);
}

#[test]
fn skim_test_copy_fwd() {
    // COPY_FWD at pc=0: tape[64] = tape[0] = 0x20; wp becomes 65.
    let mut tape = make_tape(&[0x20, 0xC0], 128);
    Skim::execute(&mut tape, 8192);
    assert_eq!(tape[64], 0x20); // copied itself
}

#[test]
fn test_copy_fwd_advances_wp() {
    // Two COPY_FWDs: first copies tape[0] to tape[64], second copies tape[1] to tape[65].
    let mut tape = make_tape(&[0x20, 0x20, 0xC0], 128);
    Skim::execute(&mut tape, 8192);
    assert_eq!(tape[64], 0x20);
    assert_eq!(tape[65], 0x20);
}

#[test]
fn skim_test_dec() {
    // DEC from 0 wraps to 255. STORE. HALT.
    let mut tape = make_tape(&[0x40, 0x10, 0xC0], 128);
    Skim::execute(&mut tape, 8192);
    assert_eq!(tape[64], 255);
}

#[test]
fn skim_test_xor() {
    // Set tape[64] = 0xFF. INC (acc=1). XOR (acc = 1 ^ 0xFF = 0xFE). STORE at wp=65 after WP_INC. HALT.
    let mut tape = make_tape(&[0x30, 0x50, 0x60, 0x10, 0xC0], 128);
    tape[64] = 0xFF;
    Skim::execute(&mut tape, 8192);
    assert_eq!(tape[65], 0xFE);
}

#[test]
fn test_wp_inc_dec() {
    // WP_INC twice (wp=66), WP_DEC once (wp=65), STORE (tape[65]=0). HALT.
    let mut tape = make_tape(&[0x60, 0x60, 0x70, 0x10, 0xC0], 128);
    Skim::execute(&mut tape, 8192);
    // acc=0, so tape[65] = 0.
    assert_eq!(tape[65], 0);
}

#[test]
fn test_set_wp() {
    // INC 100 times... too many. Instead: use a different approach.
    // INC (acc=1), SET_WP (wp=1), STORE (tape[1]=1). HALT.
    let mut tape = make_tape(&[0x30, 0x80, 0x10, 0xC0], 128);
    Skim::execute(&mut tape, 8192);
    assert_eq!(tape[1], 1);
}

#[test]
fn test_get_wp() {
    // GET_WP (acc=64), STORE (tape[64]=64). HALT.
    let mut tape = make_tape(&[0x90, 0x10, 0xC0], 128);
    Skim::execute(&mut tape, 8192);
    assert_eq!(tape[64], 64);
}

#[test]
fn test_skz_taken() {
    // acc=0, SKZ with skip 3 (0xA2): skip to pc+3. Put HALT there.
    // If taken, goes to pc=3 (skipping positions 1,2).
    let mut tape = make_tape(&[0xA2, 0x30, 0x30, 0xC0], 128);
    let steps = Skim::execute(&mut tape, 8192);
    assert_eq!(steps, 2); // SKZ at 0 -> HALT at 3
}

#[test]
fn test_skz_not_taken() {
    // acc=1, SKZ: skip 1 (go to next byte).
    let mut tape = make_tape(&[0x30, 0xA2, 0xC0, 0x30, 0xC0], 128);
    // INC(acc=1) at 0 -> SKZ at 1 (acc!=0, skip 1 -> pc=2) -> HALT at 2.
    let steps = Skim::execute(&mut tape, 8192);
    assert_eq!(steps, 3);
}

#[test]
fn test_sknz_taken() {
    // INC (acc=1), SKNZ skip 2 (0xB1): acc!=0, take the skip.
    // pc=0: INC skip 1 -> pc=1. pc=1: SKNZ(acc=1!=0) skip 2 -> pc=3.
    // pc=3: 0x30=INC skip 1 -> pc=4. pc=4: HALT.
    let mut tape = make_tape(&[0x30, 0xB1, 0x30, 0x30, 0xC0], 128);
    let steps = Skim::execute(&mut tape, 8192);
    assert_eq!(steps, 4);
}

#[test]
fn test_sknz_not_taken() {
    // acc=0, SKNZ: acc==0, skip 1 -> next byte.
    let mut tape = make_tape(&[0xB2, 0xC0, 0x30, 0xC0], 128);
    // SKNZ at 0: acc=0, skip 1 -> pc=1. HALT at 1.
    let steps = Skim::execute(&mut tape, 8192);
    assert_eq!(steps, 2);
}

#[test]
fn test_pc_wraps() {
    // Put INC with skip 0xF (skip 16) at position 120.
    // Next pc = (120 + 16) % 128 = 8. Put HALT at position 8.
    let mut tape = vec![0xD0; 128]; // all NOPs with skip 1
    tape[0] = 0xDF; // NOP skip 16 -> pc = 16
    tape[16] = 0xDF; // NOP skip 16 -> pc = 32
    tape[32] = 0xDF; // NOP skip 16 -> pc = 48
    tape[48] = 0xDF; // NOP skip 16 -> pc = 64
    tape[64] = 0xDF; // NOP skip 16 -> pc = 80
    tape[80] = 0xDF; // NOP skip 16 -> pc = 96
    tape[96] = 0xDF; // NOP skip 16 -> pc = 112
    tape[112] = 0xDF; // NOP skip 16 -> pc = 0 (wrap!)
    // Now at pc=0 again which is 0xDF -> infinite loop. Use step limit.
    let steps = Skim::execute(&mut tape, 20);
    assert_eq!(steps, 20);
}

#[test]
fn test_nop_still_skips() {
    // NOPs (0xD_, 0xE_, 0xF_) still use their low nibble for skip distance.
    // 0xD3 = NOP skip 4. At pc=0, next pc = 4.
    let mut tape = make_tape(&[0xD3, 0x30, 0x30, 0x30, 0xC0], 128);
    let steps = Skim::execute(&mut tape, 8192);
    assert_eq!(steps, 2); // NOP at 0, HALT at 4
}

#[test]
fn skim_test_empty_tape() {
    let mut tape: Vec<u8> = vec![];
    let steps = Skim::execute(&mut tape, 8192);
    assert_eq!(steps, 0);
}

#[test]
fn skim_test_step_limit() {
    // INC with skip 1 at every position: infinite loop through tape.
    let mut tape = vec![0x30; 128];
    let steps = Skim::execute(&mut tape, 100);
    assert_eq!(steps, 100);
}

// --- Replicator tests ---

#[test]
fn test_64_byte_copy_fwd_replicator() {
    // 64 copies of COPY_FWD with skip 1 (0x20).
    // Each copies tape[pc] to tape[wp], advances wp.
    // Visits pc=0,1,...,63 copying each to wp=64,65,...,127.
    let mut tape = vec![0x20; 64];
    tape.extend(vec![0u8; 64]);

    Skim::execute(&mut tape, 8192);

    assert_eq!(&tape[64..128], &vec![0x20u8; 64]);
}

#[test]
fn test_64_byte_replicator_fixed_point() {
    let mut tape1 = vec![0x20; 64];
    tape1.extend(vec![0u8; 64]);
    Skim::execute(&mut tape1, 8192);
    let copy1 = tape1[64..128].to_vec();

    let mut tape2 = vec![0u8; 128];
    tape2[..64].copy_from_slice(&copy1);
    Skim::execute(&mut tape2, 8192);
    let copy2 = tape2[64..128].to_vec();

    assert_eq!(copy1, copy2, "Skim replicator should be a fixed point");
}


#[test]
fn test_skim_write_pointer_wraps_at_tape_length() {
    // 0x40: acc = 255; 0x80: wp = 255 % 100 = 55; two 0x20s write
    // themselves at cells 55 and 56; 0xC0 halts.
    let mut tape = vec![0u8; 100];
    tape[..5].copy_from_slice(&[0x40, 0x80, 0x20, 0x20, 0xC0]);
    Skim::execute(&mut tape, 100);
    assert_eq!(tape[55], 0x20);
    assert_eq!(tape[56], 0x20);
    assert_eq!(tape[0], 0x40);
}

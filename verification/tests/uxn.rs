use complife::uxn::{disasm_opcode, disassemble, mode_suffix};

#[test]
fn uxn_disassemble() {
    let tape = vec![0x80, 0x42, 0x00]; // LIT 0x42, BRK
    let disasm = disassemble(&tape);
    assert!(!disasm.is_empty());
    assert!(disasm.contains("LIT"));
    assert!(disasm.contains("BRK"));
}

#[test]
fn uxn_disassemble_exact_lines() {
    let tape = vec![0x80, 0x42, 0x00, 0xa0, 0x12, 0x34, 0x38, 0xff];
    let expected = "0000: 80 42        LIT $42\n\
                    0002: 00           BRK\n\
                    0003: A0 12 34     LIT2 $1234\n\
                    0006: 38           ADD2\n\
                    0007: FF           SFT2kr\n";
    assert_eq!(disassemble(&tape), expected);
}

#[test]
fn uxn_disassemble_operand_wraps_around() {
    // LIT2 at the last byte reads its operand from the start of the tape.
    let tape = vec![0x01, 0xa0];
    assert_eq!(disassemble(&tape), "0000: 01           INC\n0001: A0 01 A0     LIT2 $01A0\n");
}

#[test]
fn uxn_disassemble_empty() {
    assert_eq!(disassemble(&[]), "");
}

#[test]
fn uxn_opcode_table() {
    assert_eq!(disasm_opcode(0x00), ("BRK", 0));
    assert_eq!(disasm_opcode(0x20), ("JCI", 2));
    assert_eq!(disasm_opcode(0xc0), ("LITr", 1));
    assert_eq!(disasm_opcode(0x1f), ("SFT", 0));
    assert_eq!(disasm_opcode(0x01), ("INC", 0));
    assert_eq!(mode_suffix(0x00), "");
    assert_eq!(mode_suffix(0x21), "2");
    assert_eq!(mode_suffix(0xc1), "kr");
    assert_eq!(mode_suffix(0x41), "r");
}

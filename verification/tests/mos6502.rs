use complife::mos6502::{disassemble, extra_bytes, format_operand_byte, format_operand_word, AddrMode};

#[test]
fn mos6502_disassemble() {
    let tape = vec![0xA9, 0x42, 0x02]; // LDA #$42; JAM
    let disasm = disassemble(&tape);
    assert!(!disasm.is_empty());
    assert!(disasm.contains("LDA"));
}

#[test]
fn mos6502_disassemble_exact_lines() {
    let tape = vec![0xA9, 0x42, 0x8D, 0x80, 0x00, 0x02];
    let expected = "0000: A9 42        LDA #$42\n\
                    0002: 8D 80 00     STA $0080\n\
                    0005: 02           JAM\n";
    assert_eq!(disassemble(&tape), expected);
}

#[test]
fn mos6502_disassemble_undecoded_opcode() {
    // 0x93 is left undecoded by the NMOS table.
    assert_eq!(disassemble(&[0x93]), "0000: 93           ???\n");
}

#[test]
fn mos6502_disassemble_empty() {
    assert_eq!(disassemble(&[]), "");
}

#[test]
fn mos6502_operand_formats() {
    assert_eq!(extra_bytes(AddrMode::Implied), 0);
    assert_eq!(extra_bytes(AddrMode::ZeroPageX), 1);
    assert_eq!(extra_bytes(AddrMode::BuggyIndirect), 2);
    assert_eq!(format_operand_byte(Some(AddrMode::Immediate), 0x0f), " #$0F");
    assert_eq!(format_operand_byte(Some(AddrMode::IndirectIndexedY), 0x10), " ($10),Y");
    assert_eq!(format_operand_byte(None, 0xab), " $AB");
    assert_eq!(format_operand_word(Some(AddrMode::AbsoluteY), 0x1234), " $1234,Y");
    assert_eq!(format_operand_word(Some(AddrMode::Indirect), 0x00ff), " ($00FF)");
}

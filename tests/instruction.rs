use dcpu::instruction::{Instruction, Opcode};

#[test]
fn test_is_special() {
    let i = Instruction(0b000011_00001_00000);
    let i2 = Instruction(0b000011_00001_00001);
    assert_eq!(true, i.is_special());
    assert_eq!(false, i2.is_special());
}

#[test]
fn test_opcode() {
    let i = Instruction(0x7c01);
    let i2 = Instruction(0b000011_00001_00000);
    assert_eq!(Opcode::SET(0x1f, 0), i.opcode());
    assert_eq!(Opcode::JSR(0b000011), i2.opcode());
}

#[test]
fn test_a() {
    let i = Instruction(0x7c01);
    let i2 = Instruction(0b111111_00000_00001);
    let i3 = Instruction(0xfc01);
    assert_eq!(0b11111, i.a()); // 011111 = 1F = next word -> [PC++]
    assert_eq!(0b111111, i2.a()); // 111111 =
    assert_eq!(0b111111, i3.a()); // 111111 =
}

#[test]
fn test_b() {
    let i = Instruction(0x7c01);
    let expected = 0b0u8; // 00000 = register A
    assert_eq!(expected, i.b());
}

#[test]
fn decode_special_opcodes() {
    assert_eq!(Instruction(0x7d40).opcode(), Opcode::IAS(0x1f));
    assert_eq!(Instruction(0x7d00).opcode(), Opcode::INT(0x1f));
    assert_eq!(Instruction(0x7d60).opcode(), Opcode::RFI(0x1f));
    assert_eq!(Instruction(0x0420).opcode(), Opcode::JSR(0x01));
    assert_eq!(Instruction((0x10 << 5) | (0x21 << 10)).opcode(), Opcode::HWN(0x21));
}

#[test]
fn decode_unknown_words_to_null() {
    // basic opcodes 0x18, 0x19, 0x1c, 0x1d and special opcode 0 are unassigned
    assert_eq!(Instruction(0x0018).opcode(), Opcode::NULL);
    assert_eq!(Instruction(0x0019).opcode(), Opcode::NULL);
    assert_eq!(Instruction(0x001c).opcode(), Opcode::NULL);
    assert_eq!(Instruction(0x0000).opcode(), Opcode::NULL);
    assert_eq!(Instruction(0x02 << 5).opcode(), Opcode::NULL);
}

#[test]
fn special_word_has_no_b() {
    let i = Instruction(0b000011_00001_00000);
    assert_eq!(i.b(), 0);
    assert_eq!(i.a(), 3);
}

#[test]
fn decode_then_encode_gives_the_word_back() {
    // SET A, 30 in its short-literal form: a = 0x3f, b = 0, op = 1
    let w: u16 = 0xfc01;
    match Instruction(w).opcode() {
        Opcode::SET(a, b) => assert_eq!((a as u16) << 10 | (b as u16) << 5 | 0x01, w),
        other => panic!("unexpected {:?}", other),
    }
}

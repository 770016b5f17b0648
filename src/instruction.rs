use vstd::arithmetic::power2::{lemma2_to64, pow2};
use vstd::bits::{lemma_u16_pow2_no_overflow, lemma_u16_shl_is_mul, lemma_u16_shr_is_div};
use vstd::arithmetic::div_mod::{lemma_div_denominator, lemma_fundamental_div_mod};
use vstd::prelude::*;

verus! {

/// A decoded instruction. Two-operand instructions carry `(a, b)`, one-operand
/// ("special") instructions carry `a`; `NULL` stands for every word that encodes
/// no instruction.
#[allow(non_camel_case_types)]
#[derive(Debug, Clone, Copy, PartialEq, Eq, Structural)]
pub enum Opcode {
    SET(u8, u8),
    ADD(u8, u8),
    SUB(u8, u8),
    MUL(u8, u8),
    MLI(u8, u8),
    DIV(u8, u8),
    DVI(u8, u8),
    MOD(u8, u8),
    MDI(u8, u8),
    AND(u8, u8),
    BOR(u8, u8),
    XOR(u8, u8),
    SHR(u8, u8),
    ASR(u8, u8),
    SHL(u8, u8),
    IFB(u8, u8),
    IFC(u8, u8),
    IFE(u8, u8),
    IFN(u8, u8),
    IFG(u8, u8),
    IFA(u8, u8),
    IFL(u8, u8),
    IFU(u8, u8),
    ADX(u8, u8),
    SBX(u8, u8),
    STI(u8, u8),
    STD(u8, u8),
    JSR(u8),
    INT(u8),
    IAG(u8),
    IAS(u8),
    RFI(u8),
    IAQ(u8),
    HWN(u8),
    HWQ(u8),
    HWI(u8),
    NULL,
}

/// Bits 0..4 of an instruction word: the basic opcode, zero for special ones.
pub open spec fn op_field(w: u16) -> u8 {
    (w % 32) as u8
}

/// Bits 5..9: the b operand, or the special opcode.
pub open spec fn b_field(w: u16) -> u8 {
    ((w / 32) % 32) as u8
}

/// Bits 10..15: the a operand.
pub open spec fn a_field(w: u16) -> u8 {
    (w / 1024) as u8
}

/// The two-operand instruction with basic opcode `code`.
pub open spec fn basic_opcode(code: u8, a: u8, b: u8) -> Opcode {
    match code {
        0x01 => Opcode::SET(a, b),
        0x02 => Opcode::ADD(a, b),
        0x03 => Opcode::SUB(a, b),
        0x04 => Opcode::MUL(a, b),
        0x05 => Opcode::MLI(a, b),
        0x06 => Opcode::DIV(a, b),
        0x07 => Opcode::DVI(a, b),
        0x08 => Opcode::MOD(a, b),
        0x09 => Opcode::MDI(a, b),
        0x0a => Opcode::AND(a, b),
        0x0b => Opcode::BOR(a, b),
        0x0c => Opcode::XOR(a, b),
        0x0d => Opcode::SHR(a, b),
        0x0e => Opcode::ASR(a, b),
        0x0f => Opcode::SHL(a, b),
        0x10 => Opcode::IFB(a, b),
        0x11 => Opcode::IFC(a, b),
        0x12 => Opcode::IFE(a, b),
        0x13 => Opcode::IFN(a, b),
        0x14 => Opcode::IFG(a, b),
        0x15 => Opcode::IFA(a, b),
        0x16 => Opcode::IFL(a, b),
        0x17 => Opcode::IFU(a, b),
        0x1a => Opcode::ADX(a, b),
        0x1b => Opcode::SBX(a, b),
        0x1e => Opcode::STI(a, b),
        0x1f => Opcode::STD(a, b),
        _ => Opcode::NULL,
    }
}

/// The one-operand instruction with special opcode `code`.
pub open spec fn special_opcode(code: u8, a: u8) -> Opcode {
    match code {
        0x01 => Opcode::JSR(a),
        0x08 => Opcode::INT(a),
        0x09 => Opcode::IAG(a),
        0x0a => Opcode::IAS(a),
        0x0b => Opcode::RFI(a),
        0x0c => Opcode::IAQ(a),
        0x10 => Opcode::HWN(a),
        0x11 => Opcode::HWQ(a),
        0x12 => Opcode::HWI(a),
        _ => Opcode::NULL,
    }
}

/// What a word decodes to.
pub open spec fn decode(w: u16) -> Opcode {
    if op_field(w) != 0 {
        basic_opcode(op_field(w), a_field(w), b_field(w))
    } else {
        special_opcode(b_field(w), a_field(w))
    }
}

/// The opcode number of an instruction: basic or special, as its kind says.
pub open spec fn opcode_number(op: Opcode) -> u8 {
    match op {
        Opcode::SET(..) => 0x01,
        Opcode::ADD(..) => 0x02,
        Opcode::SUB(..) => 0x03,
        Opcode::MUL(..) => 0x04,
        Opcode::MLI(..) => 0x05,
        Opcode::DIV(..) => 0x06,
        Opcode::DVI(..) => 0x07,
        Opcode::MOD(..) => 0x08,
        Opcode::MDI(..) => 0x09,
        Opcode::AND(..) => 0x0a,
        Opcode::BOR(..) => 0x0b,
        Opcode::XOR(..) => 0x0c,
        Opcode::SHR(..) => 0x0d,
        Opcode::ASR(..) => 0x0e,
        Opcode::SHL(..) => 0x0f,
        Opcode::IFB(..) => 0x10,
        Opcode::IFC(..) => 0x11,
        Opcode::IFE(..) => 0x12,
        Opcode::IFN(..) => 0x13,
        Opcode::IFG(..) => 0x14,
        Opcode::IFA(..) => 0x15,
        Opcode::IFL(..) => 0x16,
        Opcode::IFU(..) => 0x17,
        Opcode::ADX(..) => 0x1a,
        Opcode::SBX(..) => 0x1b,
        Opcode::STI(..) => 0x1e,
        Opcode::STD(..) => 0x1f,
        Opcode::JSR(..) => 0x01,
        Opcode::INT(..) => 0x08,
        Opcode::IAG(..) => 0x09,
        Opcode::IAS(..) => 0x0a,
        Opcode::RFI(..) => 0x0b,
        Opcode::IAQ(..) => 0x0c,
        Opcode::HWN(..) => 0x10,
        Opcode::HWQ(..) => 0x11,
        Opcode::HWI(..) => 0x12,
        Opcode::NULL => 0,
    }
}

/// Whether an instruction takes two operands.
pub open spec fn is_basic(op: Opcode) -> bool {
    match op {
        Opcode::JSR(..) | Opcode::INT(..) | Opcode::IAG(..) | Opcode::IAS(..) | Opcode::RFI(..)
        | Opcode::IAQ(..) | Opcode::HWN(..) | Opcode::HWQ(..) | Opcode::HWI(..) | Opcode::NULL => false,
        _ => true,
    }
}

/// The a operand of an instruction (0 for `NULL`).
pub open spec fn operand_a(op: Opcode) -> u8 {
    match op {
        Opcode::SET(a, _) | Opcode::ADD(a, _) | Opcode::SUB(a, _) | Opcode::MUL(a, _)
        | Opcode::MLI(a, _) | Opcode::DIV(a, _) | Opcode::DVI(a, _) | Opcode::MOD(a, _)
        | Opcode::MDI(a, _) | Opcode::AND(a, _) | Opcode::BOR(a, _) | Opcode::XOR(a, _)
        | Opcode::SHR(a, _) | Opcode::ASR(a, _) | Opcode::SHL(a, _) | Opcode::IFB(a, _)
        | Opcode::IFC(a, _) | Opcode::IFE(a, _) | Opcode::IFN(a, _) | Opcode::IFG(a, _)
        | Opcode::IFA(a, _) | Opcode::IFL(a, _) | Opcode::IFU(a, _) | Opcode::ADX(a, _)
        | Opcode::SBX(a, _) | Opcode::STI(a, _) | Opcode::STD(a, _) => a,
        Opcode::JSR(a) | Opcode::INT(a) | Opcode::IAG(a) | Opcode::IAS(a) | Opcode::RFI(a)
        | Opcode::IAQ(a) | Opcode::HWN(a) | Opcode::HWQ(a) | Opcode::HWI(a) => a,
        Opcode::NULL => 0,
    }
}

/// The b operand of a two-operand instruction (0 for the others).
pub open spec fn operand_b(op: Opcode) -> u8 {
    match op {
        Opcode::SET(_, b) | Opcode::ADD(_, b) | Opcode::SUB(_, b) | Opcode::MUL(_, b)
        | Opcode::MLI(_, b) | Opcode::DIV(_, b) | Opcode::DVI(_, b) | Opcode::MOD(_, b)
        | Opcode::MDI(_, b) | Opcode::AND(_, b) | Opcode::BOR(_, b) | Opcode::XOR(_, b)
        | Opcode::SHR(_, b) | Opcode::ASR(_, b) | Opcode::SHL(_, b) | Opcode::IFB(_, b)
        | Opcode::IFC(_, b) | Opcode::IFE(_, b) | Opcode::IFN(_, b) | Opcode::IFG(_, b)
        | Opcode::IFA(_, b) | Opcode::IFL(_, b) | Opcode::IFU(_, b) | Opcode::ADX(_, b)
        | Opcode::SBX(_, b) | Opcode::STI(_, b) | Opcode::STD(_, b) => b,
        _ => 0,
    }
}

/// Whether the operands fit their fields: 6 bits for a, 5 bits for b.
pub open spec fn operands_fit(op: Opcode) -> bool {
    operand_a(op) < 64 && operand_b(op) < 32
}

/// The word that encodes an instruction:
/// `op | b << 5 | a << 10` for two operands, `op << 5 | a << 10` for one.
pub open spec fn encode(op: Opcode) -> u16 {
    if is_basic(op) {
        (opcode_number(op) + 32 * operand_b(op) + 1024 * operand_a(op)) as u16
    } else {
        (32 * opcode_number(op) + 1024 * operand_a(op)) as u16
    }
}

/// Every word that decodes to an instruction is the encoding of that instruction.
pub proof fn lemma_encode_decode(w: u16)
    ensures
        operands_fit(decode(w)),
        !(decode(w) is NULL) ==> encode(decode(w)) == w,
{
    let o = op_field(w);
    let b = b_field(w);
    let a = a_field(w);
    let x = w as int;
    lemma_fundamental_div_mod(x, 32);
    lemma_fundamental_div_mod(x / 32, 32);
    lemma_div_denominator(x, 32, 32);
    assert(x == o + 32 * b + 1024 * a && a < 64 && b < 32 && o < 32);
    if o != 0 {
        assert(decode(w) == basic_opcode(o, a, b));
    } else {
        assert(decode(w) == special_opcode(b, a));
    }
}

/// Decoding the encoding of an instruction whose operands fit gives it back.
pub proof fn lemma_decode_encode(op: Opcode)
    requires
        !(op is NULL),
        operands_fit(op),
        opcode_number(op) != 0,
    ensures
        decode(encode(op)) == op,
{
}

/// Bits `start .. start + length` of `word`, as a number.
fn get_bits_in_range(word: u16, start: u8, length: u8) -> (r: u16)
    requires
        start < 16,
        1 <= length <= 15,
        start + length <= 16,
    ensures
        r as int == (word as nat / pow2(start as nat)) % pow2(length as nat),
{
    proof {
        lemma_u16_shr_is_div(word, start as u16);
        lemma_u16_pow2_no_overflow(length as nat);
        lemma_u16_shl_is_mul(1, length as u16);
    }
    (word >> start as u16) % (1u16 << length as u16)
}

/// One instruction word.
pub struct Instruction(pub u16);

impl Instruction {
    /// The instruction this word encodes.
    pub fn opcode(&self) -> (r: Opcode)
        ensures
            r == decode(self.0),
    {
        proof {
            lemma2_to64();
        }
        let special = self.is_special();
        let a = self.a();
        if !special {
            let code = get_bits_in_range(self.0, 0, 5) as u8;
            let b = self.b();
            match code {
                0x01 => Opcode::SET(a, b),
                0x02 => Opcode::ADD(a, b),
                0x03 => Opcode::SUB(a, b),
                0x04 => Opcode::MUL(a, b),
                0x05 => Opcode::MLI(a, b),
                0x06 => Opcode::DIV(a, b),
                0x07 => Opcode::DVI(a, b),
                0x08 => Opcode::MOD(a, b),
                0x09 => Opcode::MDI(a, b),
                0x0a => Opcode::AND(a, b),
                0x0b => Opcode::BOR(a, b),
                0x0c => Opcode::XOR(a, b),
                0x0d => Opcode::SHR(a, b),
                0x0e => Opcode::ASR(a, b),
                0x0f => Opcode::SHL(a, b),
                0x10 => Opcode::IFB(a, b),
                0x11 => Opcode::IFC(a, b),
                0x12 => Opcode::IFE(a, b),
                0x13 => Opcode::IFN(a, b),
                0x14 => Opcode::IFG(a, b),
                0x15 => Opcode::IFA(a, b),
                0x16 => Opcode::IFL(a, b),
                0x17 => Opcode::IFU(a, b),
                0x1a => Opcode::ADX(a, b),
                0x1b => Opcode::SBX(a, b),
                0x1e => Opcode::STI(a, b),
                0x1f => Opcode::STD(a, b),
                _ => Opcode::NULL,
            }
        } else {
            let code = get_bits_in_range(self.0, 5, 5) as u8;
            match code {
                0x01 => Opcode::JSR(a),
                0x08 => Opcode::INT(a),
                0x09 => Opcode::IAG(a),
                0x0a => Opcode::IAS(a),
                0x0b => Opcode::RFI(a),
                0x0c => Opcode::IAQ(a),
                0x10 => Opcode::HWN(a),
                0x11 => Opcode::HWQ(a),
                0x12 => Opcode::HWI(a),
                _ => Opcode::NULL,
            }
        }
    }

    /// Whether the word holds a one-operand instruction (its low five bits are zero).
    pub fn is_special(&self) -> (r: bool)
        ensures
            r == (op_field(self.0) == 0),
    {
        proof {
            lemma2_to64();
        }
        get_bits_in_range(self.0, 0, 5) == 0
    }

    /// The a operand field.
    pub fn a(&self) -> (r: u8)
        ensures
            r == a_field(self.0),
    {
        proof {
            lemma2_to64();
        }
        get_bits_in_range(self.0, 10, 6) as u8
    }

    /// The b operand field of a two-operand instruction; 0 for a special one.
    pub fn b(&self) -> (r: u8)
        ensures
            r == if op_field(self.0) == 0 { 0 } else { b_field(self.0) },
    {
        proof {
            lemma2_to64();
        }
        if self.is_special() {
            0
        } else {
            get_bits_in_range(self.0, 5, 5) as u8
        }
    }
}

} // verus!

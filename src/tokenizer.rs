//! The assembler's tokenizer: assembly text to a stream of tokens.
use vstd::prelude::*;

verus! {

/// The operand-field or opcode bits of an assembler item.
pub trait Bits {
    spec fn bits(&self) -> u8;

    fn to_bits(&self) -> (r: u8)
        ensures
            r == self.bits(),
    ;
}

/// An instruction mnemonic.
#[allow(non_camel_case_types)]
#[derive(Debug, Clone, Copy, PartialEq, Eq, Structural)]
pub enum Opcode {
    SET,
    ADD,
    SUB,
    MUL,
    MLI,
    DIV,
    DVI,
    MOD,
    MDI,
    AND,
    BOR,
    XOR,
    SHR,
    ASR,
    SHL,
    IFB,
    IFC,
    IFE,
    IFN,
    IFG,
    IFA,
    IFL,
    IFU,
    ADX,
    SBX,
    STI,
    STD,
    JSR,
    INT,
    IAG,
    IAS,
    RFI,
    IAQ,
    HWN,
    HWQ,
    HWI,
}

/// Whether a mnemonic names a two-operand instruction.
pub open spec fn takes_two_operands(op: Opcode) -> bool {
    match op {
        Opcode::JSR | Opcode::INT | Opcode::IAG | Opcode::IAS | Opcode::RFI | Opcode::IAQ
        | Opcode::HWN | Opcode::HWQ | Opcode::HWI => false,
        _ => true,
    }
}

pub open spec fn opcode_bits(op: Opcode) -> u8 {
    match op {
        Opcode::SET => 0x01,
        Opcode::ADD => 0x02,
        Opcode::SUB => 0x03,
        Opcode::MUL => 0x04,
        Opcode::MLI => 0x05,
        Opcode::DIV => 0x06,
        Opcode::DVI => 0x07,
        Opcode::MOD => 0x08,
        Opcode::MDI => 0x09,
        Opcode::AND => 0x0a,
        Opcode::BOR => 0x0b,
        Opcode::XOR => 0x0c,
        Opcode::SHR => 0x0d,
        Opcode::ASR => 0x0e,
        Opcode::SHL => 0x0f,
        Opcode::IFB => 0x10,
        Opcode::IFC => 0x11,
        Opcode::IFE => 0x12,
        Opcode::IFN => 0x13,
        Opcode::IFG => 0x14,
        Opcode::IFA => 0x15,
        Opcode::IFL => 0x16,
        Opcode::IFU => 0x17,
        Opcode::ADX => 0x1a,
        Opcode::SBX => 0x1b,
        Opcode::STI => 0x1e,
        Opcode::STD => 0x1f,
        Opcode::JSR => 0x01,
        Opcode::INT => 0x08,
        Opcode::IAG => 0x09,
        Opcode::IAS => 0x0a,
        Opcode::RFI => 0x0b,
        Opcode::IAQ => 0x0c,
        Opcode::HWN => 0x10,
        Opcode::HWQ => 0x11,
        Opcode::HWI => 0x12,
    }
}

impl Bits for Opcode {
    open spec fn bits(&self) -> u8 {
        opcode_bits(*self)
    }

    fn to_bits(&self) -> (r: u8) {
        match *self {
            Opcode::SET => 0x01,
            Opcode::ADD => 0x02,
            Opcode::SUB => 0x03,
            Opcode::MUL => 0x04,
            Opcode::MLI => 0x05,
            Opcode::DIV => 0x06,
            Opcode::DVI => 0x07,
            Opcode::MOD => 0x08,
            Opcode::MDI => 0x09,
            Opcode::AND => 0x0a,
            Opcode::BOR => 0x0b,
            Opcode::XOR => 0x0c,
            Opcode::SHR => 0x0d,
            Opcode::ASR => 0x0e,
            Opcode::SHL => 0x0f,
            Opcode::IFB => 0x10,
            Opcode::IFC => 0x11,
            Opcode::IFE => 0x12,
            Opcode::IFN => 0x13,
            Opcode::IFG => 0x14,
            Opcode::IFA => 0x15,
            Opcode::IFL => 0x16,
            Opcode::IFU => 0x17,
            Opcode::ADX => 0x1a,
            Opcode::SBX => 0x1b,
            Opcode::STI => 0x1e,
            Opcode::STD => 0x1f,
            Opcode::JSR => 0x01,
            Opcode::INT => 0x08,
            Opcode::IAG => 0x09,
            Opcode::IAS => 0x0a,
            Opcode::RFI => 0x0b,
            Opcode::IAQ => 0x0c,
            Opcode::HWN => 0x10,
            Opcode::HWQ => 0x11,
            Opcode::HWI => 0x12,
        }
    }
}

/// A general register, by name.
#[derive(Debug, Clone, Copy, PartialEq, Eq, Structural)]
pub enum Constant {
    A,
    B,
    C,
    X,
    Y,
    Z,
    I,
    J,
}

pub open spec fn register_bits(c: Constant) -> u8 {
    match c {
        Constant::A => 0x0,
        Constant::B => 0x1,
        Constant::C => 0x2,
        Constant::X => 0x3,
        Constant::Y => 0x4,
        Constant::Z => 0x5,
        Constant::I => 0x6,
        Constant::J => 0x7,
    }
}

impl Bits for Constant {
    open spec fn bits(&self) -> u8 {
        register_bits(*self)
    }

    fn to_bits(&self) -> (r: u8) {
        match *self {
            Constant::A => 0x0,
            Constant::B => 0x1,
            Constant::C => 0x2,
            Constant::X => 0x3,
            Constant::Y => 0x4,
            Constant::Z => 0x5,
            Constant::I => 0x6,
            Constant::J => 0x7,
        }
    }
}

/// An operand: a number or a register.
#[derive(Debug, Clone, Copy, PartialEq, Eq, Structural)]
pub enum Value {
    Number(u16),
    Constant(Constant),
}

/// Whether a number fits the short literal form in the a field. The text has no
/// negative numbers, so of the range -1 ..= 30 only 0 ..= 30 is written this way.
pub open spec fn is_short_literal(n: u16) -> bool {
    n <= 30
}

/// The a operand field of a value: a register, a short literal `n + 0x21`, or 0x1f
/// for a literal in the next word.
pub open spec fn a_operand_bits(v: Value) -> u8 {
    match v {
        Value::Constant(c) => register_bits(c),
        Value::Number(n) => if is_short_literal(n) {
            (n + 0x21) as u8
        } else {
            0x1f
        },
    }
}

impl Bits for Value {
    open spec fn bits(&self) -> u8 {
        a_operand_bits(*self)
    }

    fn to_bits(&self) -> (r: u8) {
        match *self {
            Value::Constant(c) => c.to_bits(),
            Value::Number(n) => {
                if n <= 30 {
                    (n + 0x21) as u8
                } else {
                    0x1f
                }
            },
        }
    }
}

/// One token of assembly text. `Invalid` holds text that is no token, and the
/// offset, in characters, where it starts.
#[derive(Debug, Clone, Copy, PartialEq)]
pub enum Token<'a> {
    Opcode(Opcode),
    Value(Value),
    Whitespace,
    Comma,
    Endline,
    Invalid(&'a str, usize),
}

/// A token as a mathematical value.
pub enum TokenView {
    Opcode(Opcode),
    Value(Value),
    Whitespace,
    Comma,
    Endline,
    Invalid(Seq<char>, nat),
}

impl<'a> View for Token<'a> {
    type V = TokenView;

    open spec fn view(&self) -> TokenView {
        match *self {
            Token::Opcode(op) => TokenView::Opcode(op),
            Token::Value(v) => TokenView::Value(v),
            Token::Whitespace => TokenView::Whitespace,
            Token::Comma => TokenView::Comma,
            Token::Endline => TokenView::Endline,
            Token::Invalid(s, p) => TokenView::Invalid(s@, p as nat),
        }
    }
}

/// The kinds of character that a token runs over.
#[derive(Clone, Copy, PartialEq, Eq, Structural)]
pub enum CharClass {
    Space,
    Digit,
    HexDigit,
    WordChar,
}

/// Space, tab, carriage return and form feed; a line feed is a token of its own.
pub open spec fn is_space(c: char) -> bool {
    c == ' ' || c == '\t' || c == '\r' || c == '\x0C'
}

pub open spec fn is_digit(c: char) -> bool {
    '0' <= c <= '9'
}

pub open spec fn is_hex_digit(c: char) -> bool {
    is_digit(c) || ('a' <= c <= 'f') || ('A' <= c <= 'F')
}

pub open spec fn is_letter(c: char) -> bool {
    ('a' <= c <= 'z') || ('A' <= c <= 'Z')
}

pub open spec fn is_word_char(c: char) -> bool {
    is_letter(c) || is_digit(c) || c == '_'
}

pub open spec fn in_class(c: char, class: CharClass) -> bool {
    match class {
        CharClass::Space => is_space(c),
        CharClass::Digit => is_digit(c),
        CharClass::HexDigit => is_hex_digit(c),
        CharClass::WordChar => is_word_char(c),
    }
}

/// The end of the run of characters of `class` that starts at `i`.
pub open spec fn span_end(s: Seq<char>, i: nat, class: CharClass) -> nat
    decreases s.len() - i,
{
    if i < s.len() && in_class(s[i as int], class) {
        span_end(s, i + 1, class)
    } else {
        i
    }
}

/// The value of a digit in base 16 (and so in base 10).
pub open spec fn digit_value(c: char) -> nat {
    if is_digit(c) {
        (c as u32 - '0' as u32) as nat
    } else if 'a' <= c <= 'f' {
        (c as u32 - 'a' as u32 + 10) as nat
    } else {
        (c as u32 - 'A' as u32 + 10) as nat
    }
}

/// The number that the digits `ds` write in base `radix`.
pub open spec fn number_value(ds: Seq<char>, radix: nat) -> nat
    decreases ds.len(),
{
    if ds.len() == 0 {
        0
    } else {
        number_value(ds.drop_last(), radix) * radix + digit_value(ds.last())
    }
}

/// A register name, either case.
pub open spec fn register_named(c: char) -> Option<Constant> {
    match c {
        'A' | 'a' => Some(Constant::A),
        'B' | 'b' => Some(Constant::B),
        'C' | 'c' => Some(Constant::C),
        'X' | 'x' => Some(Constant::X),
        'Y' | 'y' => Some(Constant::Y),
        'Z' | 'z' => Some(Constant::Z),
        'I' | 'i' => Some(Constant::I),
        'J' | 'j' => Some(Constant::J),
        _ => None,
    }
}

/// Upper case of an ASCII letter; other characters stay.
pub open spec fn upper(c: char) -> char {
    match c {
        'a' => 'A',
        'b' => 'B',
        'c' => 'C',
        'd' => 'D',
        'e' => 'E',
        'f' => 'F',
        'g' => 'G',
        'h' => 'H',
        'i' => 'I',
        'j' => 'J',
        'k' => 'K',
        'l' => 'L',
        'm' => 'M',
        'n' => 'N',
        'o' => 'O',
        'p' => 'P',
        'q' => 'Q',
        'r' => 'R',
        's' => 'S',
        't' => 'T',
        'u' => 'U',
        'v' => 'V',
        'w' => 'W',
        'x' => 'X',
        'y' => 'Y',
        'z' => 'Z',
        _ => c,
    }
}

/// The mnemonic that three upper-case letters spell.
pub open spec fn mnemonic_named(x: char, y: char, z: char) -> Option<Opcode> {
    match (x, y, z) {
        ('S', 'E', 'T') => Some(Opcode::SET),
        ('A', 'D', 'D') => Some(Opcode::ADD),
        ('S', 'U', 'B') => Some(Opcode::SUB),
        ('M', 'U', 'L') => Some(Opcode::MUL),
        ('M', 'L', 'I') => Some(Opcode::MLI),
        ('D', 'I', 'V') => Some(Opcode::DIV),
        ('D', 'V', 'I') => Some(Opcode::DVI),
        ('M', 'O', 'D') => Some(Opcode::MOD),
        ('M', 'D', 'I') => Some(Opcode::MDI),
        ('A', 'N', 'D') => Some(Opcode::AND),
        ('B', 'O', 'R') => Some(Opcode::BOR),
        ('X', 'O', 'R') => Some(Opcode::XOR),
        ('S', 'H', 'R') => Some(Opcode::SHR),
        ('A', 'S', 'R') => Some(Opcode::ASR),
        ('S', 'H', 'L') => Some(Opcode::SHL),
        ('I', 'F', 'B') => Some(Opcode::IFB),
        ('I', 'F', 'C') => Some(Opcode::IFC),
        ('I', 'F', 'E') => Some(Opcode::IFE),
        ('I', 'F', 'N') => Some(Opcode::IFN),
        ('I', 'F', 'G') => Some(Opcode::IFG),
        ('I', 'F', 'A') => Some(Opcode::IFA),
        ('I', 'F', 'L') => Some(Opcode::IFL),
        ('I', 'F', 'U') => Some(Opcode::IFU),
        ('A', 'D', 'X') => Some(Opcode::ADX),
        ('S', 'B', 'X') => Some(Opcode::SBX),
        ('S', 'T', 'I') => Some(Opcode::STI),
        ('S', 'T', 'D') => Some(Opcode::STD),
        ('J', 'S', 'R') => Some(Opcode::JSR),
        ('I', 'N', 'T') => Some(Opcode::INT),
        ('I', 'A', 'G') => Some(Opcode::IAG),
        ('I', 'A', 'S') => Some(Opcode::IAS),
        ('R', 'F', 'I') => Some(Opcode::RFI),
        ('I', 'A', 'Q') => Some(Opcode::IAQ),
        ('H', 'W', 'N') => Some(Opcode::HWN),
        ('H', 'W', 'Q') => Some(Opcode::HWQ),
        ('H', 'W', 'I') => Some(Opcode::HWI),
        _ => None,
    }
}

/// The token for the word `w` that starts at `start`: a register name, a mnemonic
/// (either case), or else invalid.
pub open spec fn word_token(w: Seq<char>, start: nat) -> TokenView {
    if w.len() == 1 && register_named(w[0]) is Some {
        TokenView::Value(Value::Constant(register_named(w[0])->0))
    } else if w.len() == 3 && mnemonic_named(upper(w[0]), upper(w[1]), upper(w[2])) is Some {
        TokenView::Opcode(mnemonic_named(upper(w[0]), upper(w[1]), upper(w[2]))->0)
    } else {
        TokenView::Invalid(w, start)
    }
}

/// The token for a number whose text spans `start .. end` and whose digits start at
/// `digits`: its value if there are digits and it fits a word, else invalid.
pub open spec fn number_token(s: Seq<char>, start: nat, digits: nat, end: nat, radix: nat) -> TokenView {
    let ds = s.subrange(digits as int, end as int);
    if ds.len() > 0 && number_value(ds, radix) <= 0xffff {
        TokenView::Value(Value::Number(number_value(ds, radix) as u16))
    } else {
        TokenView::Invalid(s.subrange(start as int, end as int), start)
    }
}

/// The token that starts at offset `i` of `s`, and the offset just past it.
pub open spec fn lex_token(s: Seq<char>, i: nat) -> (TokenView, nat) {
    let c = s[i as int];
    if is_space(c) {
        (TokenView::Whitespace, span_end(s, i, CharClass::Space))
    } else if c == '\n' {
        (TokenView::Endline, i + 1)
    } else if c == ',' {
        (TokenView::Comma, i + 1)
    } else if c == '0' && i + 1 < s.len() && s[i + 1int] == 'x' {
        let e = span_end(s, i + 2, CharClass::HexDigit);
        (number_token(s, i, i + 2, e, 16), e)
    } else if is_digit(c) {
        let e = span_end(s, i, CharClass::Digit);
        (number_token(s, i, i, e, 10), e)
    } else if is_letter(c) {
        let e = span_end(s, i, CharClass::WordChar);
        (word_token(s.subrange(i as int, e as int), i), e)
    } else {
        (TokenView::Invalid(s.subrange(i as int, i + 1int), i), i + 1)
    }
}

/// The tokens of `s` from offset `i` on.
pub open spec fn lex_from(s: Seq<char>, i: nat) -> Seq<TokenView>
    decreases s.len() - i,
{
    if i >= s.len() {
        Seq::empty()
    } else {
        let (t, e) = lex_token(s, i);
        if i < e <= s.len() {
            seq![t] + lex_from(s, e)
        } else {
            seq![t]
        }
    }
}

/// The tokens of a whole text.
pub open spec fn lex(s: Seq<char>) -> Seq<TokenView> {
    lex_from(s, 0)
}

proof fn lemma_span_end(s: Seq<char>, i: nat, class: CharClass)
    requires
        i <= s.len(),
    ensures
        i <= span_end(s, i, class) <= s.len(),
    decreases s.len() - i,
{
    if i < s.len() && in_class(s[i as int], class) {
        lemma_span_end(s, i + 1, class);
    }
}

/// Every token takes at least one character, and no more than there are.
pub proof fn lemma_lex_token_advances(s: Seq<char>, i: nat)
    requires
        i < s.len(),
    ensures
        i < lex_token(s, i).1 <= s.len(),
{
    let c = s[i as int];
    if is_space(c) {
        lemma_span_end(s, i + 1, CharClass::Space);
    } else if c == '0' && i + 1 < s.len() && s[i + 1int] == 'x' {
        lemma_span_end(s, i + 2, CharClass::HexDigit);
    } else if is_digit(c) {
        lemma_span_end(s, i + 1, CharClass::Digit);
    } else if is_letter(c) {
        lemma_span_end(s, i + 1, CharClass::WordChar);
    }
}

fn to_upper(c: char) -> (r: char)
    ensures
        r == upper(c),
{
    match c {
        'a' => 'A',
        'b' => 'B',
        'c' => 'C',
        'd' => 'D',
        'e' => 'E',
        'f' => 'F',
        'g' => 'G',
        'h' => 'H',
        'i' => 'I',
        'j' => 'J',
        'k' => 'K',
        'l' => 'L',
        'm' => 'M',
        'n' => 'N',
        'o' => 'O',
        'p' => 'P',
        'q' => 'Q',
        'r' => 'R',
        's' => 'S',
        't' => 'T',
        'u' => 'U',
        'v' => 'V',
        'w' => 'W',
        'x' => 'X',
        'y' => 'Y',
        'z' => 'Z',
        _ => c,
    }
}

fn register_from_char(c: char) -> (r: Option<Constant>)
    ensures
        r == register_named(c),
{
    match c {
        'A' | 'a' => Some(Constant::A),
        'B' | 'b' => Some(Constant::B),
        'C' | 'c' => Some(Constant::C),
        'X' | 'x' => Some(Constant::X),
        'Y' | 'y' => Some(Constant::Y),
        'Z' | 'z' => Some(Constant::Z),
        'I' | 'i' => Some(Constant::I),
        'J' | 'j' => Some(Constant::J),
        _ => None,
    }
}

fn mnemonic_from_letters(x: char, y: char, z: char) -> (r: Option<Opcode>)
    ensures
        r == mnemonic_named(x, y, z),
{
    match (x, y, z) {
        ('S', 'E', 'T') => Some(Opcode::SET),
        ('A', 'D', 'D') => Some(Opcode::ADD),
        ('S', 'U', 'B') => Some(Opcode::SUB),
        ('M', 'U', 'L') => Some(Opcode::MUL),
        ('M', 'L', 'I') => Some(Opcode::MLI),
        ('D', 'I', 'V') => Some(Opcode::DIV),
        ('D', 'V', 'I') => Some(Opcode::DVI),
        ('M', 'O', 'D') => Some(Opcode::MOD),
        ('M', 'D', 'I') => Some(Opcode::MDI),
        ('A', 'N', 'D') => Some(Opcode::AND),
        ('B', 'O', 'R') => Some(Opcode::BOR),
        ('X', 'O', 'R') => Some(Opcode::XOR),
        ('S', 'H', 'R') => Some(Opcode::SHR),
        ('A', 'S', 'R') => Some(Opcode::ASR),
        ('S', 'H', 'L') => Some(Opcode::SHL),
        ('I', 'F', 'B') => Some(Opcode::IFB),
        ('I', 'F', 'C') => Some(Opcode::IFC),
        ('I', 'F', 'E') => Some(Opcode::IFE),
        ('I', 'F', 'N') => Some(Opcode::IFN),
        ('I', 'F', 'G') => Some(Opcode::IFG),
        ('I', 'F', 'A') => Some(Opcode::IFA),
        ('I', 'F', 'L') => Some(Opcode::IFL),
        ('I', 'F', 'U') => Some(Opcode::IFU),
        ('A', 'D', 'X') => Some(Opcode::ADX),
        ('S', 'B', 'X') => Some(Opcode::SBX),
        ('S', 'T', 'I') => Some(Opcode::STI),
        ('S', 'T', 'D') => Some(Opcode::STD),
        ('J', 'S', 'R') => Some(Opcode::JSR),
        ('I', 'N', 'T') => Some(Opcode::INT),
        ('I', 'A', 'G') => Some(Opcode::IAG),
        ('I', 'A', 'S') => Some(Opcode::IAS),
        ('R', 'F', 'I') => Some(Opcode::RFI),
        ('I', 'A', 'Q') => Some(Opcode::IAQ),
        ('H', 'W', 'N') => Some(Opcode::HWN),
        ('H', 'W', 'Q') => Some(Opcode::HWQ),
        ('H', 'W', 'I') => Some(Opcode::HWI),
        _ => None,
    }
}

fn char_in_class(c: char, class: CharClass) -> (r: bool)
    ensures
        r == in_class(c, class),
{
    match class {
        CharClass::Space => c == ' ' || c == '\t' || c == '\r' || c == '\x0C',
        CharClass::Digit => '0' <= c && c <= '9',
        CharClass::HexDigit => ('0' <= c && c <= '9') || ('a' <= c && c <= 'f') || ('A' <= c
            && c <= 'F'),
        CharClass::WordChar => ('a' <= c && c <= 'z') || ('A' <= c && c <= 'Z') || ('0' <= c
            && c <= '9') || c == '_',
    }
}

fn digit_of(c: char) -> (r: u32)
    requires
        is_hex_digit(c),
    ensures
        r == digit_value(c),
        r < 16,
{
    if '0' <= c && c <= '9' {
        c as u32 - '0' as u32
    } else if 'a' <= c && c <= 'f' {
        c as u32 - 'a' as u32 + 10
    } else {
        c as u32 - 'A' as u32 + 10
    }
}

/// Reads tokens off assembly text, left to right.
pub struct Tokenizer<'a> {
    source: &'a str,
    chars: Vec<char>,
    position: usize,
}

impl<'a> Tokenizer<'a> {
    pub closed spec fn wf(self) -> bool {
        self.chars@ == self.source@ && self.position <= self.chars.len()
    }

    /// The whole text.
    pub closed spec fn text(self) -> Seq<char> {
        self.source@
    }

    /// The offset, in characters, of the next token.
    pub closed spec fn position(self) -> nat {
        self.position as nat
    }

    /// The tokens still to come.
    pub open spec fn remaining(self) -> Seq<TokenView> {
        lex_from(self.text(), self.position())
    }

    /// A tokenizer at the start of `source`.
    pub fn new(source: &'a str) -> (r: Tokenizer<'a>)
        ensures
            r.wf(),
            r.text() == source@,
            r.position() == 0,
            source@.len() <= usize::MAX,
    {
        let mut chars: Vec<char> = Vec::new();
        for c in it: source.chars()
            invariant
                chars@ == it.seq().take(it.index() as int),
        {
            chars.push(c);
        }
        assert(chars@ =~= source@);
        let _ = chars.len();
        Tokenizer { source: source, chars: chars, position: 0 }
    }

    /// The next token, or `None` at the end of the text.
    pub fn next_token(&mut self) -> (r: Option<Token<'a>>)
        requires
            old(self).wf(),
        ensures
            final(self).wf(),
            final(self).text() == old(self).text(),
            old(self).position() >= old(self).text().len() ==> r is None && final(self).position()
                == old(self).position(),
            old(self).position() < old(self).text().len() ==> r is Some && r->0@ == lex_token(
                old(self).text(),
                old(self).position(),
            ).0 && final(self).position() == lex_token(old(self).text(), old(self).position()).1,
    {
        if self.is_eof() {
            return None;
        }
        let start = self.position;
        let c = self.next_char();
        if c == ' ' || c == '\t' || c == '\r' || c == '\x0C' {
            Some(self.consume_whitespace())
        } else if c == '\n' {
            self.advance(1);
            Some(Token::Endline)
        } else if c == ',' {
            self.advance(1);
            Some(Token::Comma)
        } else if c == '0' && self.has_at_least(1) && self.char_at(1) == 'x' {
            self.advance(2);
            Some(self.consume_number(start, CharClass::HexDigit, 16))
        } else if '0' <= c && c <= '9' {
            Some(self.consume_number(start, CharClass::Digit, 10))
        } else if ('a' <= c && c <= 'z') || ('A' <= c && c <= 'Z') {
            Some(self.consume_word())
        } else {
            self.advance(1);
            Some(Token::Invalid(self.slice_from(start), start))
        }
    }

    fn next_char(&self) -> (r: char)
        requires
            self.wf(),
            self.position() < self.text().len(),
        ensures
            r == self.text()[self.position() as int],
    {
        self.char_at(0)
    }

    fn char_at(&self, offset: usize) -> (r: char)
        requires
            self.wf(),
            self.position() + offset < self.text().len(),
        ensures
            r == self.text()[self.position() + offset],
    {
        self.chars[self.position + offset]
    }

    fn is_eof(&self) -> (r: bool)
        requires
            self.wf(),
        ensures
            r == (self.position() >= self.text().len()),
    {
        !self.has_at_least(0)
    }

    /// Whether the text goes on for more than `n` characters after the position.
    fn has_at_least(&self, n: usize) -> (r: bool)
        requires
            self.wf(),
        ensures
            r == (self.position() + n < self.text().len()),
    {
        n < self.chars.len() - self.position
    }

    fn advance(&mut self, n: usize)
        requires
            old(self).wf(),
            old(self).position() + n <= old(self).text().len(),
        ensures
            final(self).wf(),
            final(self).text() == old(self).text(),
            final(self).position() == old(self).position() + n,
    {
        self.position = self.position + n;
    }

    /// The text from `start` up to the position.
    fn slice_from(&self, start: usize) -> (r: &'a str)
        requires
            self.wf(),
            start <= self.position(),
        ensures
            r@ == self.text().subrange(start as int, self.position() as int),
    {
        self.source.substring_char(start, self.position)
    }

    /// Moves over the characters of `class` at the position.
    fn consume_class(&mut self, class: CharClass)
        requires
            old(self).wf(),
        ensures
            final(self).wf(),
            final(self).text() == old(self).text(),
            final(self).position() == span_end(old(self).text(), old(self).position(), class),
    {
        while !self.is_eof() && char_in_class(self.next_char(), class)
            invariant
                self.wf(),
                self.text() == old(self).text(),
                span_end(self.text(), self.position(), class) == span_end(
                    old(self).text(),
                    old(self).position(),
                    class,
                ),
            decreases self.text().len() - self.position(),
        {
            self.advance(1);
        }
    }

    fn consume_whitespace(&mut self) -> (r: Token<'a>)
        requires
            old(self).wf(),
        ensures
            final(self).wf(),
            final(self).text() == old(self).text(),
            final(self).position() == span_end(old(self).text(), old(self).position(), CharClass::Space),
            r@ == TokenView::Whitespace,
    {
        self.consume_class(CharClass::Space);
        Token::Whitespace
    }

    /// Reads the digits of `class` at the position as a number in base `radix`; its
    /// text starts at `start`.
    fn consume_number(&mut self, start: usize, class: CharClass, radix: u32) -> (r: Token<'a>)
        requires
            old(self).wf(),
            start <= old(self).position(),
            (class == CharClass::Digit && radix == 10) || (class == CharClass::HexDigit && radix
                == 16),
        ensures
            final(self).wf(),
            final(self).text() == old(self).text(),
            final(self).position() == span_end(old(self).text(), old(self).position(), class),
            r@ == number_token(
                old(self).text(),
                start as nat,
                old(self).position(),
                final(self).position(),
                radix as nat,
            ),
    {
        let digits = self.position;
        let mut value: u32 = 0;
        let mut overflow = false;
        while !self.is_eof() && char_in_class(self.next_char(), class)
            invariant
                self.wf(),
                self.text() == old(self).text(),
                digits == old(self).position(),
                digits <= self.position(),
                span_end(self.text(), self.position(), class) == span_end(
                    old(self).text(),
                    old(self).position(),
                    class,
                ),
                (class == CharClass::Digit && radix == 10) || (class == CharClass::HexDigit
                    && radix == 16),
                overflow == (number_value(
                    self.text().subrange(digits as int, self.position() as int),
                    radix as nat,
                ) > 0xffff),
                !overflow ==> value == number_value(
                    self.text().subrange(digits as int, self.position() as int),
                    radix as nat,
                ),
            decreases self.text().len() - self.position(),
        {
            let c = self.next_char();
            let d = digit_of(c);
            let ghost before = self.text().subrange(digits as int, self.position() as int);
            let ghost old_value = number_value(before, radix as nat);
            if !overflow {
                let v = value * radix + d;
                if v > 0xffff {
                    overflow = true;
                } else {
                    value = v;
                }
            }
            self.advance(1);
            proof {
                let after = self.text().subrange(digits as int, self.position() as int);
                assert(after.drop_last() =~= before);
                assert(after.last() == c);
                assert(number_value(after, radix as nat) == old_value * radix + d);
                if old_value > 0xffff {
                    assert(old_value * radix + d > 0xffff) by (nonlinear_arith)
                        requires
                            old_value > 0xffff,
                            radix >= 1,
                            d >= 0,
                    ;
                }
            }
        }
        if digits < self.position && !overflow {
            Token::Value(Value::Number(value as u16))
        } else {
            Token::Invalid(self.slice_from(start), start)
        }
    }

    /// Reads a word: a register name, a mnemonic, or else an invalid token.
    fn consume_word(&mut self) -> (r: Token<'a>)
        requires
            old(self).wf(),
            old(self).position() < old(self).text().len(),
        ensures
            final(self).wf(),
            final(self).text() == old(self).text(),
            final(self).position() == span_end(old(self).text(), old(self).position(), CharClass::WordChar),
            r@ == word_token(
                old(self).text().subrange(old(self).position() as int, final(self).position() as int),
                old(self).position(),
            ),
    {
        let start = self.position;
        self.consume_class(CharClass::WordChar);
        proof {
            lemma_span_end(old(self).text(), old(self).position(), CharClass::WordChar);
        }
        let len = self.position - start;
        if len == 1 {
            match register_from_char(self.chars[start]) {
                Some(c) => {
                    return Token::Value(Value::Constant(c));
                },
                None => {},
            }
        } else if len == 3 {
            let x = to_upper(self.chars[start]);
            let y = to_upper(self.chars[start + 1]);
            let z = to_upper(self.chars[start + 2]);
            match mnemonic_from_letters(x, y, z) {
                Some(op) => {
                    return Token::Opcode(op);
                },
                None => {},
            }
        }
        Token::Invalid(self.slice_from(start), start)
    }
}

/// There are no more tokens than characters.
pub proof fn lemma_lex_len(s: Seq<char>, i: nat)
    requires
        i <= s.len(),
    ensures
        lex_from(s, i).len() <= s.len() - i,
    decreases s.len() - i,
{
    if i < s.len() {
        let e = lex_token(s, i).1;
        lemma_lex_token_advances(s, i);
        lemma_lex_len(s, e);
    }
}

/// The view of each token of a sequence.
pub open spec fn token_views<'a>(ts: Seq<Token<'a>>) -> Seq<TokenView> {
    ts.map_values(|t: Token<'a>| t@)
}

/// A tokenizer that can look any number of tokens ahead.
pub struct LookaheadTokenizer<'a> {
    tokenizer: Tokenizer<'a>,
    cache: Vec<Token<'a>>,
}

impl<'a> LookaheadTokenizer<'a> {
    pub closed spec fn wf(self) -> bool {
        self.tokenizer.wf()
    }

    /// The tokens still to come.
    pub closed spec fn upcoming(self) -> Seq<TokenView> {
        token_views(self.cache@) + self.tokenizer.remaining()
    }

    /// A tokenizer at the start of `source`.
    pub fn new(source: &'a str) -> (r: LookaheadTokenizer<'a>)
        ensures
            r.wf(),
            r.upcoming() == lex(source@),
            r.upcoming().len() <= usize::MAX,
    {
        let tokenizer = Tokenizer::new(source);
        let r = LookaheadTokenizer { tokenizer: tokenizer, cache: Vec::new() };
        proof {
            lemma_lex_len(source@, 0);
            assert(r.upcoming() =~= lex(source@));
        }
        r
    }

    /// The token `position` places ahead (0 is the next one), or `None` when the
    /// text ends before it.
    pub fn token_at(&mut self, position: usize) -> (r: Option<Token<'a>>)
        requires
            old(self).wf(),
        ensures
            final(self).wf(),
            final(self).upcoming() == old(self).upcoming(),
            position < old(self).upcoming().len() ==> r is Some && r->0@
                == old(self).upcoming()[position as int],
            position >= old(self).upcoming().len() ==> r is None,
    {
        self.load_until(position);
        if position < self.cache.len() {
            Some(self.cache[position])
        } else {
            None
        }
    }

    /// Reads tokens into the cache until it holds the one `n` places ahead, or the
    /// text ends.
    fn load_until(&mut self, n: usize)
        requires
            old(self).wf(),
        ensures
            final(self).wf(),
            final(self).upcoming() == old(self).upcoming(),
            final(self).cache.len() > n || final(self).upcoming().len() == final(self).cache.len(),
    {
        while self.cache.len() <= n
            invariant
                self.wf(),
                self.upcoming() == old(self).upcoming(),
            ensures
                self.wf(),
                self.upcoming() == old(self).upcoming(),
                self.cache.len() > n || self.upcoming().len() == self.cache.len(),
            decreases self.tokenizer.text().len() - self.tokenizer.position(),
        {
            let ghost before = self.tokenizer;
            match self.tokenizer.next_token() {
                Some(t) => {
                    proof {
                        lemma_lex_token_advances(before.text(), before.position());
                        assert(before.remaining() =~= seq![t@] + self.tokenizer.remaining());
                    }
                    self.cache.push(t);
                    assert(self.upcoming() =~= old(self).upcoming());
                },
                None => {
                    assert(self.upcoming() =~= token_views(self.cache@));
                    break ;
                },
            }
        }
    }

    /// Drops the next `n` tokens, or all that are left when there are fewer.
    pub fn advance(&mut self, n: usize)
        requires
            old(self).wf(),
        ensures
            final(self).wf(),
            final(self).upcoming() == if n <= old(self).upcoming().len() {
                old(self).upcoming().subrange(n as int, old(self).upcoming().len() as int)
            } else {
                Seq::empty()
            },
    {
        let ghost all = old(self).upcoming();
        let mut i: usize = 0;
        while i < n
            invariant
                self.wf(),
                i <= n,
                i <= all.len(),
                self.upcoming() == all.subrange(i as int, all.len() as int),
            ensures
                self.wf(),
                self.upcoming() == if n <= all.len() {
                    all.subrange(n as int, all.len() as int)
                } else {
                    Seq::empty()
                },
            decreases n - i,
        {
            if self.cache.len() > 0 {
                let ghost before = self.cache@;
                let ghost up = self.upcoming();
                self.cache.remove(0);
                assert(token_views(self.cache@) =~= token_views(before).drop_first());
                assert(self.upcoming() =~= up.drop_first());
                assert(self.upcoming() =~= all.subrange(i + 1, all.len() as int));
            } else {
                let ghost before = self.tokenizer;
                let ghost up = self.upcoming();
                assert(up =~= before.remaining());
                match self.tokenizer.next_token() {
                    Some(t) => {
                        proof {
                            lemma_lex_token_advances(before.text(), before.position());
                            assert(before.remaining() =~= seq![t@] + self.tokenizer.remaining());
                        }
                        assert(self.upcoming() =~= up.drop_first());
                        assert(self.upcoming() =~= all.subrange(i + 1, all.len() as int));
                    },
                    None => {
                        assert(up.len() == 0);
                        break ;
                    },
                }
            }
            i = i + 1;
        }
    }
}

} // verus!

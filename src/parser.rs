//! The assembler's parser: tokens to instruction words.
use vstd::prelude::*;

use crate::tokenizer::{
    a_operand_bits, is_short_literal, lex, opcode_bits, register_bits, takes_two_operands, Bits,
    LookaheadTokenizer, Opcode, Token, TokenView, Value,
};

verus! {

/// The token `k` places into `ts`, if there is one.
pub open spec fn token_at(ts: Seq<TokenView>, k: int) -> Option<TokenView> {
    if 0 <= k < ts.len() {
        Some(ts[k])
    } else {
        None
    }
}

/// The operand at `k`, if the token there is one.
pub open spec fn value_at(ts: Seq<TokenView>, k: int) -> Option<Value> {
    match token_at(ts, k) {
        Some(TokenView::Value(v)) => Some(v),
        _ => None,
    }
}

/// Whitespace and line ends separate statements.
pub open spec fn is_blank(t: TokenView) -> bool {
    t == TokenView::Whitespace || t == TokenView::Endline
}

/// The b operand field of a value: a register, or 0x1f for a literal in a next
/// word (the five-bit field has no room for short literals).
pub open spec fn b_operand_bits(v: Value) -> u8 {
    match v {
        Value::Constant(c) => register_bits(c),
        Value::Number(_) => 0x1f,
    }
}

/// The next word that an a operand takes, if any.
pub open spec fn a_extra(v: Value) -> Seq<u16> {
    match v {
        Value::Number(n) => if is_short_literal(n) {
            Seq::empty()
        } else {
            seq![n]
        },
        Value::Constant(_) => Seq::empty(),
    }
}

/// The next word that a b operand takes, if any.
pub open spec fn b_extra(v: Value) -> Seq<u16> {
    match v {
        Value::Number(n) => seq![n],
        Value::Constant(_) => Seq::empty(),
    }
}

/// The words of a two-operand instruction `op b, a`: `op | b << 5 | a << 10`, then
/// the next word of a, then that of b.
pub open spec fn encode_two(op: Opcode, b: Value, a: Value) -> Seq<u16> {
    seq![(opcode_bits(op) + 32 * b_operand_bits(b) + 1024 * a_operand_bits(a)) as u16] + a_extra(a)
        + b_extra(b)
}

/// The words of a one-operand instruction `op a`: `op << 5 | a << 10`, then the
/// next word of a.
pub open spec fn encode_one(op: Opcode, a: Value) -> Seq<u16> {
    seq![(32 * opcode_bits(op) + 1024 * a_operand_bits(a)) as u16] + a_extra(a)
}

/// The statement at the front of `ts`: its words and the number of tokens it
/// takes, or the index of the first token that breaks it.
///
/// `opcode WS value COMMA WS value` for a two-operand mnemonic,
/// `opcode WS value` for a one-operand mnemonic.
pub open spec fn statement(ts: Seq<TokenView>) -> Result<(Seq<u16>, nat), nat> {
    match token_at(ts, 0) {
        Some(TokenView::Opcode(op)) => if takes_two_operands(op) {
            if token_at(ts, 1) != Some(TokenView::Whitespace) {
                Err(1)
            } else if value_at(ts, 2) is None {
                Err(2)
            } else if token_at(ts, 3) != Some(TokenView::Comma) {
                Err(3)
            } else if token_at(ts, 4) != Some(TokenView::Whitespace) {
                Err(4)
            } else if value_at(ts, 5) is None {
                Err(5)
            } else {
                Ok((encode_two(op, value_at(ts, 2)->0, value_at(ts, 5)->0), 6))
            }
        } else {
            if token_at(ts, 1) != Some(TokenView::Whitespace) {
                Err(1)
            } else if value_at(ts, 2) is None {
                Err(2)
            } else {
                Ok((encode_one(op, value_at(ts, 2)->0), 3))
            }
        },
        _ => Err(0),
    }
}

/// The words of a whole token stream: statements separated by whitespace and line
/// ends; or the index of the first token that breaks a statement.
pub open spec fn parse_tokens(ts: Seq<TokenView>) -> Result<Seq<u16>, nat>
    decreases ts.len(),
{
    if ts.len() == 0 {
        Ok(Seq::empty())
    } else if is_blank(ts[0]) {
        match parse_tokens(ts.drop_first()) {
            Ok(ws) => Ok(ws),
            Err(k) => Err(k + 1),
        }
    } else {
        match statement(ts) {
            Err(k) => Err(k),
            Ok((ws, n)) => match parse_tokens(ts.subrange(n as int, ts.len() as int)) {
                Ok(rest) => Ok(ws + rest),
                Err(k) => Err(k + n),
            },
        }
    }
}

/// What assembling a text gives.
pub open spec fn assembled(text: Seq<char>) -> Result<Seq<u16>, nat> {
    parse_tokens(lex(text))
}

/// The view of an optional token.
pub open spec fn option_view<'a>(t: Option<Token<'a>>) -> Option<TokenView> {
    match t {
        Some(t) => Some(t@),
        None => None,
    }
}

/// Where the text stops making sense: the offending token (`None` for the end of
/// the text) and its index among all the tokens of the text.
#[derive(Debug, Clone, Copy, PartialEq)]
pub struct ParseError<'a> {
    pub token: Option<Token<'a>>,
    pub index: usize,
}

/// Turns assembly text into instruction words.
pub struct Parser<'a> {
    tokenizer: LookaheadTokenizer<'a>,
    consumed: usize,
}

impl<'a> Parser<'a> {
    pub closed spec fn wf(self) -> bool {
        &&& self.tokenizer.wf()
        &&& self.consumed + self.tokenizer.upcoming().len() <= usize::MAX
    }

    /// The tokens not yet parsed.
    pub closed spec fn upcoming(self) -> Seq<TokenView> {
        self.tokenizer.upcoming()
    }

    /// How many tokens are parsed.
    pub closed spec fn consumed(self) -> nat {
        self.consumed as nat
    }

    /// A parser at the start of `source`.
    pub fn new(source: &'a str) -> (r: Parser<'a>)
        ensures
            r.wf(),
            r.upcoming() == lex(source@),
            r.consumed() == 0,
    {
        Parser { tokenizer: LookaheadTokenizer::new(source), consumed: 0 }
    }

    fn is_whitespace(&mut self, n: usize) -> (r: bool)
        requires
            old(self).wf(),
        ensures
            final(self).wf(),
            final(self).upcoming() == old(self).upcoming(),
            final(self).consumed() == old(self).consumed(),
            r == (token_at(old(self).upcoming(), n as int) == Some(TokenView::Whitespace)),
    {
        matches!(self.tokenizer.token_at(n), Some(Token::Whitespace))
    }

    fn is_comma(&mut self, n: usize) -> (r: bool)
        requires
            old(self).wf(),
        ensures
            final(self).wf(),
            final(self).upcoming() == old(self).upcoming(),
            final(self).consumed() == old(self).consumed(),
            r == (token_at(old(self).upcoming(), n as int) == Some(TokenView::Comma)),
    {
        matches!(self.tokenizer.token_at(n), Some(Token::Comma))
    }

    /// The operand `n` places ahead, if the token there is one.
    fn value_at(&mut self, n: usize) -> (r: Option<Value>)
        requires
            old(self).wf(),
        ensures
            final(self).wf(),
            final(self).upcoming() == old(self).upcoming(),
            final(self).consumed() == old(self).consumed(),
            r == value_at(old(self).upcoming(), n as int),
    {
        match self.tokenizer.token_at(n) {
            Some(Token::Value(v)) => Some(v),
            _ => None,
        }
    }

    /// The error for the token `n` places ahead.
    fn error_at(&mut self, n: usize) -> (r: ParseError<'a>)
        requires
            old(self).wf(),
            n <= old(self).upcoming().len(),
        ensures
            final(self).wf(),
            final(self).upcoming() == old(self).upcoming(),
            final(self).consumed() == old(self).consumed(),
            r.index == old(self).consumed() + n,
            option_view(r.token) == token_at(old(self).upcoming(), n as int),
    {
        let token = self.tokenizer.token_at(n);
        ParseError { token, index: self.consumed + n }
    }

    /// Drops the next `n` tokens, which are there.
    fn consume(&mut self, n: usize)
        requires
            old(self).wf(),
            n <= old(self).upcoming().len(),
        ensures
            final(self).wf(),
            final(self).upcoming() == old(self).upcoming().subrange(
                n as int,
                old(self).upcoming().len() as int,
            ),
            final(self).consumed() == old(self).consumed() + n,
    {
        self.tokenizer.advance(n);
        self.consumed = self.consumed + n;
    }

    /// Parses the statement at the front of the tokens.
    pub fn parse_expression(&mut self) -> (r: Result<Vec<u16>, ParseError<'a>>)
        requires
            old(self).wf(),
        ensures
            final(self).wf(),
            match statement(old(self).upcoming()) {
                Ok((words, n)) => r is Ok && r->Ok_0@ == words && final(self).upcoming() == old(
                    self,
                ).upcoming().subrange(n as int, old(self).upcoming().len() as int)
                    && final(self).consumed() == old(self).consumed() + n,
                Err(k) => r is Err && r->Err_0.index == old(self).consumed() + k && option_view(
                    r->Err_0.token,
                ) == token_at(old(self).upcoming(), k as int),
            },
    {
        let ghost ts = self.upcoming();
        let op = match self.tokenizer.token_at(0) {
            Some(Token::Opcode(op)) => op,
            _ => {
                return Err(self.error_at(0));
            },
        };
        let two = match op {
            Opcode::JSR | Opcode::INT | Opcode::IAG | Opcode::IAS | Opcode::RFI | Opcode::IAQ
            | Opcode::HWN | Opcode::HWQ | Opcode::HWI => false,
            _ => true,
        };
        if !self.is_whitespace(1) {
            return Err(self.error_at(1));
        }
        let first = match self.value_at(2) {
            Some(v) => v,
            None => {
                return Err(self.error_at(2));
            },
        };
        let mut words: Vec<u16> = Vec::new();
        if two {
            if !self.is_comma(3) {
                return Err(self.error_at(3));
            }
            if !self.is_whitespace(4) {
                return Err(self.error_at(4));
            }
            let a = match self.value_at(5) {
                Some(v) => v,
                None => {
                    return Err(self.error_at(5));
                },
            };
            let b = first;
            let op_bits = op.to_bits() as u16;
            let b_bits = b_field_bits(b) as u16;
            let a_bits = a.to_bits() as u16;
            words.push(op_bits + 32 * b_bits + 1024 * a_bits);
            push_a_extra(&mut words, a);
            push_b_extra(&mut words, b);
            self.consume(6);
            assert(words@ =~= encode_two(op, b, a));
        } else {
            let a = first;
            let op_bits = op.to_bits() as u16;
            let a_bits = a.to_bits() as u16;
            words.push(32 * op_bits + 1024 * a_bits);
            push_a_extra(&mut words, a);
            self.consume(3);
            assert(words@ =~= encode_one(op, a));
        }
        Ok(words)
    }

    /// Parses all the tokens left: statements separated by whitespace and line ends.
    pub fn parse(&mut self) -> (r: Result<Vec<u16>, ParseError<'a>>)
        requires
            old(self).wf(),
        ensures
            final(self).wf(),
            match parse_tokens(old(self).upcoming()) {
                Ok(words) => r is Ok && r->Ok_0@ == words,
                Err(k) => r is Err && r->Err_0.index == old(self).consumed() + k && option_view(
                    r->Err_0.token,
                ) == token_at(
                    old(self).upcoming(),
                    k as int,
                ),
            },
    {
        let mut result: Vec<u16> = Vec::new();
        loop
            invariant
                self.wf(),
                old(self).consumed() <= self.consumed(),
                self.consumed() - old(self).consumed() <= old(self).upcoming().len(),
                self.upcoming() == old(self).upcoming().subrange(
                    self.consumed() - old(self).consumed(),
                    old(self).upcoming().len() as int,
                ),
                match parse_tokens(self.upcoming()) {
                    Ok(rest) => parse_tokens(old(self).upcoming()) == Ok::<Seq<u16>, nat>(
                        result@ + rest,
                    ),
                    Err(k) => parse_tokens(old(self).upcoming()) == Err::<Seq<u16>, nat>(
                        (k + self.consumed() - old(self).consumed()) as nat,
                    ),
                },
            decreases self.upcoming().len(),
        {
            let ghost ts = self.upcoming();
            match self.tokenizer.token_at(0) {
                None => {
                    assert(result@ + Seq::<u16>::empty() =~= result@);
                    return Ok(result);
                },
                Some(Token::Whitespace) | Some(Token::Endline) => {
                    self.consume(1);
                    assert(self.upcoming() =~= ts.drop_first());
                    assert(self.upcoming() =~= old(self).upcoming().subrange(
                        self.consumed() - old(self).consumed(),
                        old(self).upcoming().len() as int,
                    ));
                },
                _ => {
                    let ghost c = self.consumed();
                    match self.parse_expression() {
                        Ok(words) => {
                            let mut words = words;
                            let ghost w = words@;
                            let ghost before = result@;
                            result.append(&mut words);
                            assert(self.upcoming() =~= old(self).upcoming().subrange(
                                self.consumed() - old(self).consumed(),
                                old(self).upcoming().len() as int,
                            ));
                            assert(forall|rest: Seq<u16>|
                                #![auto]
                                before + (w + rest) =~= result@ + rest);
                        },
                        Err(e) => {
                            proof {
                                let off = c - old(self).consumed();
                                let k = e.index - c;
                                assert(token_at(ts, k) == token_at(old(self).upcoming(), k + off));
                            }
                            return Err(e);
                        },
                    }
                },
            }
        }
    }
}

/// Assembles a whole text into instruction words.
pub fn assemble<'a>(source: &'a str) -> (r: Result<Vec<u16>, ParseError<'a>>)
    ensures
        match assembled(source@) {
            Ok(words) => r is Ok && r->Ok_0@ == words,
            Err(k) => r is Err && r->Err_0.index == k && option_view(r->Err_0.token) == token_at(
                lex(source@),
                k as int,
            ),
        },
{
    let mut parser = Parser::new(source);
    parser.parse()
}

/// The b operand field of a value.
fn b_field_bits(v: Value) -> (r: u8)
    ensures
        r == b_operand_bits(v),
{
    match v {
        Value::Constant(c) => c.to_bits(),
        Value::Number(_) => 0x1f,
    }
}

fn push_a_extra(words: &mut Vec<u16>, v: Value)
    ensures
        final(words)@ == old(words)@ + a_extra(v),
{
    match v {
        Value::Number(n) => {
            if n > 30 {
                words.push(n);
            }
        },
        Value::Constant(_) => {},
    }
    assert(final(words)@ =~= old(words)@ + a_extra(v));
}

fn push_b_extra(words: &mut Vec<u16>, v: Value)
    ensures
        final(words)@ == old(words)@ + b_extra(v),
{
    match v {
        Value::Number(n) => {
            words.push(n);
        },
        Value::Constant(_) => {},
    }
    assert(final(words)@ =~= old(words)@ + b_extra(v));
}

} // verus!

use vstd::prelude::*;

verus! {

/// Specification-level form of a token: a `Token` as the contracts see it,
/// with a numeric literal abstracted to the sequence of characters it was
/// scanned from.
pub enum Tok {
    Number(Seq<char>),
    Plus,
    Minus,
    Asterisk,
    Slash,
    Caret,
    Percent,
    LParen,
    RParen,
    Eof,
    Unrecognized,
}

/// Smallest lexical unit recognized in the input text.
///
/// `Number` carries the literal text it was scanned from, so that the value
/// it denotes can be recovered later without the tokenizer re-reading the
/// input. `Eof` terminates every token sequence exactly once. `Unrecognized`
/// stands for a character the tokenizer does not know (whitespace included);
/// it is handed through to the parser, which rejects it there.
#[derive(Debug, PartialEq, Clone)]
pub enum Token {
    Number(String),
    Plus,
    Minus,
    Asterisk,
    Slash,
    Caret,
    Percent,
    LParen,
    RParen,
    Eof,
    Unrecognized,
}

impl View for Token {
    type V = Tok;

    open spec fn view(&self) -> Tok {
        match self {
            Token::Number(s) => Tok::Number(s@),
            Token::Plus => Tok::Plus,
            Token::Minus => Tok::Minus,
            Token::Asterisk => Tok::Asterisk,
            Token::Slash => Tok::Slash,
            Token::Caret => Tok::Caret,
            Token::Percent => Tok::Percent,
            Token::LParen => Tok::LParen,
            Token::RParen => Tok::RParen,
            Token::Eof => Tok::Eof,
            Token::Unrecognized => Tok::Unrecognized,
        }
    }
}

impl DeepView for Token {
    type V = Tok;

    open spec fn deep_view(&self) -> Tok {
        self.view()
    }
}

/// Whether the literal a token carries, if any, is a decimal numeric
/// literal the tokenizer could have scanned.
pub open spec fn tok_literal_ok(t: Tok) -> bool {
    match t {
        Tok::Number(lit) => crate::tokenizer::is_decimal_literal(lit),
        _ => true,
    }
}

/// Whether every number token in `ts` carries a decimal numeric literal.
pub open spec fn toks_literals_ok(ts: Seq<Tok>) -> bool {
    forall|i: int| 0 <= i < ts.len() ==> tok_literal_ok(#[trigger] ts[i])
}

} // verus!

use crate::token::{tok_literal_ok, toks_literals_ok, Tok, Token};
use vstd::prelude::*;
use vstd::string::StrSliceExecFns;

verus! {

/// Whether `c` is one of the decimal digits `0` to `9`.
pub open spec fn spec_is_digit(c: char) -> bool {
    48 <= c as u32 && c as u32 <= 57
}

/// Whether `c` may continue a numeric literal: a digit or a decimal point.
pub open spec fn spec_is_num_char(c: char) -> bool {
    spec_is_digit(c) || c == '.'
}

/// How many decimal points `s` holds.
pub open spec fn count_dots(s: Seq<char>) -> int
    decreases s.len(),
{
    if s.len() == 0 {
        0
    } else {
        count_dots(s.drop_last()) + if s.last() == '.' {
            1int
        } else {
            0int
        }
    }
}

/// A decimal numeric literal as the tokenizer accepts one: it starts with a
/// digit, holds only digits and decimal points, and at most one point.
pub open spec fn is_decimal_literal(s: Seq<char>) -> bool {
    &&& s.len() > 0
    &&& spec_is_digit(s[0])
    &&& forall|i: int| 0 <= i < s.len() ==> spec_is_num_char(#[trigger] s[i])
    &&& count_dots(s) <= 1
}

/// The first position at or after `j` that does not continue a numeric
/// literal; the greedy scan of a number ends there.
pub open spec fn scan_number(cs: Seq<char>, j: int) -> int
    decreases cs.len() - j,
{
    if j < cs.len() && spec_is_num_char(cs[j]) {
        scan_number(cs, j + 1)
    } else {
        j
    }
}

/// The token a single non-digit character stands for.
pub open spec fn char_token(c: char) -> Tok {
    if c == '+' {
        Tok::Plus
    } else if c == '-' {
        Tok::Minus
    } else if c == '*' {
        Tok::Asterisk
    } else if c == '/' {
        Tok::Slash
    } else if c == '^' {
        Tok::Caret
    } else if c == '%' {
        Tok::Percent
    } else if c == '(' {
        Tok::LParen
    } else if c == ')' {
        Tok::RParen
    } else {
        Tok::Unrecognized
    }
}

/// One step of the tokenizer on `cs` at position `p`: the token produced
/// (`None` when tokenization fails there) and the position after it.
///
/// At or past the end of the input the step yields `Eof` and stays put. A
/// digit starts a greedy scan over digits and decimal points; the scan fails
/// when the character right after the run is `(` (no implicit
/// multiplication) or when the run holds more than one decimal point (no
/// value could be read from it). Every other character maps to exactly one
/// token, unknown ones to `Unrecognized`.
pub open spec fn spec_next(cs: Seq<char>, p: int) -> (Option<Tok>, int) {
    if p < 0 || p >= cs.len() {
        (Some(Tok::Eof), p)
    } else if spec_is_digit(cs[p]) {
        let e = scan_number(cs, p + 1);
        let lit = cs.subrange(p, e);
        if e < cs.len() && cs[e] == '(' {
            (None, e)
        } else if count_dots(lit) > 1 {
            (None, e)
        } else {
            (Some(Tok::Number(lit)), e)
        }
    } else {
        (Some(char_token(cs[p])), p + 1)
    }
}

pub proof fn lemma_scan_number_bounds(cs: Seq<char>, j: int)
    requires
        0 <= j <= cs.len(),
    ensures
        j <= scan_number(cs, j) <= cs.len(),
        forall|k: int| j <= k < scan_number(cs, j) ==> spec_is_num_char(cs[k]),
        scan_number(cs, j) < cs.len() ==> !spec_is_num_char(cs[scan_number(cs, j)]),
    decreases cs.len() - j,
{
    if j < cs.len() && spec_is_num_char(cs[j]) {
        lemma_scan_number_bounds(cs, j + 1);
    }
}

pub proof fn lemma_scan_number_value(cs: Seq<char>, j: int, m: int)
    requires
        0 <= j <= m <= cs.len(),
        forall|k: int| j <= k < m ==> spec_is_num_char(cs[k]),
        m < cs.len() ==> !spec_is_num_char(cs[m]),
    ensures
        scan_number(cs, j) == m,
    decreases m - j,
{
    if j < m {
        lemma_scan_number_value(cs, j + 1, m);
    }
}

/// On a position inside the input, one tokenizer step always moves forward.
pub proof fn lemma_spec_next_advances(cs: Seq<char>, p: int)
    requires
        0 <= p < cs.len(),
    ensures
        p < spec_next(cs, p).1 <= cs.len(),
{
    if spec_is_digit(cs[p]) {
        lemma_scan_number_bounds(cs, p + 1);
    }
}

/// The whole token sequence read from `cs` starting at position `p`,
/// `Eof` included, or `None` when tokenization fails anywhere in it.
pub open spec fn spec_tokens_from(cs: Seq<char>, p: int) -> Option<Seq<Tok>>
    decreases cs.len() - p,
    via spec_tokens_from_dec
{
    if p < 0 || p > cs.len() {
        None
    } else if p == cs.len() {
        Some(seq![Tok::Eof])
    } else {
        let (t_opt, p2) = spec_next(cs, p);
        match t_opt {
            Some(t) => match spec_tokens_from(cs, p2) {
                Some(rest) => Some(seq![t] + rest),
                None => None,
            },
            None => None,
        }
    }
}

#[via_fn]
proof fn spec_tokens_from_dec(cs: Seq<char>, p: int) {
    if 0 <= p && p < cs.len() {
        lemma_spec_next_advances(cs, p);
    }
}

/// The token sequence of a whole input text, or `None` when tokenization
/// fails on it.
pub open spec fn spec_tokens(cs: Seq<char>) -> Option<Seq<Tok>> {
    spec_tokens_from(cs, 0)
}

/// Every number token the tokenizer produces carries a decimal numeric
/// literal: a scan that read anything else failed instead of producing a
/// token.
pub proof fn lemma_tokens_literals_ok(cs: Seq<char>, p: int)
    ensures
        spec_tokens_from(cs, p) matches Some(ts) ==> toks_literals_ok(ts),
    decreases cs.len() - p,
{
    if p < 0 || p > cs.len() {
    } else if p == cs.len() {
        assert(toks_literals_ok(seq![Tok::Eof])) by {
            assert(seq![Tok::Eof][0] == Tok::Eof);
        }
    } else {
        let (t_opt, p2) = spec_next(cs, p);
        if t_opt is Some && spec_tokens_from(cs, p2) is Some {
            lemma_spec_next_advances(cs, p);
            lemma_tokens_literals_ok(cs, p2);
            let t = t_opt->0;
            let rest = spec_tokens_from(cs, p2)->0;
            assert(tok_literal_ok(t)) by {
                if spec_is_digit(cs[p]) {
                    let e = scan_number(cs, p + 1);
                    let lit = cs.subrange(p, e);
                    lemma_scan_number_bounds(cs, p + 1);
                    assert(lit[0] == cs[p]);
                    assert forall|i: int| 0 <= i < lit.len() implies spec_is_num_char(
                        #[trigger] lit[i],
                    ) by {
                        assert(lit[i] == cs[p + i]);
                    }
                }
            }
            let ts = seq![t] + rest;
            assert forall|i: int| 0 <= i < ts.len() implies tok_literal_ok(
                #[trigger] ts[i],
            ) by {
                if i > 0 {
                    assert(ts[i] == rest[i - 1]);
                }
            }
        }
    }
}

fn is_digit(c: char) -> (b: bool)
    ensures
        b == spec_is_digit(c),
{
    let u = c as u32;
    48 <= u && u <= 57
}

/// Reads an expression text one token at a time, left to right.
pub struct Tokenizer<'a> {
    text: &'a str,
    length: usize,
    pos: usize,
}

impl<'a> Tokenizer<'a> {
    /// The character sequence being tokenized.
    pub closed spec fn input(&self) -> Seq<char> {
        self.text@
    }

    /// The position of the next character to read.
    pub closed spec fn position(&self) -> int {
        self.pos as int
    }

    pub closed spec fn wf(&self) -> bool {
        self.length == self.text@.len() && self.pos <= self.length
    }

    pub fn new(new_expression: &'a str) -> (t: Tokenizer<'a>)
        ensures
            t.wf(),
            t.input() == new_expression@,
            t.position() == 0,
    {
        let length = new_expression.unicode_len();
        Tokenizer { text: new_expression, length, pos: 0 }
    }

    /// Produces the next token, or `None` when tokenization fails at the
    /// current position: a `(` directly after a number, or a number holding
    /// more than one decimal point. Past the end of the input it keeps
    /// producing `Eof`.
    #[verifier::loop_isolation(false)]
    pub fn next(&mut self) -> (r: Option<Token>)
        requires
            old(self).wf(),
        ensures
            final(self).wf(),
            final(self).input() == old(self).input(),
            ({
                let (t_opt, p2) = spec_next(old(self).input(), old(self).position());
                match r {
                    Some(t) => t_opt == Some(t@) && final(self).position() == p2,
                    None => t_opt is None,
                }
            }),
    {
        let ghost cs = self.text@;
        if self.pos >= self.length {
            return Some(Token::Eof);
        }
        let c = self.text.get_char(self.pos);
        if is_digit(c) {
            let start = self.pos;
            self.pos = self.pos + 1;
            let mut dots: usize = 0;
            proof {
                let sub = cs.subrange(start as int, start as int + 1);
                assert(sub.drop_last() =~= Seq::<char>::empty());
                assert(count_dots(Seq::<char>::empty()) == 0);
                assert(sub.last() == cs[start as int]);
                assert(cs[start as int] != '.');
                assert(count_dots(sub) == count_dots(sub.drop_last()) + if sub.last() == '.' {
                    1int
                } else {
                    0int
                });
                assert(count_dots(sub) == 0);
            }
            loop
                invariant
                    self.wf(),
                    self.text@ == cs,
                    self.length == cs.len(),
                    start < self.pos,
                    spec_is_digit(cs[start as int]),
                    forall|k: int| start < k < self.pos ==> spec_is_num_char(cs[k]),
                    dots <= self.pos - start,
                    dots as int == count_dots(cs.subrange(start as int, self.pos as int)),
                decreases cs.len() - self.pos,
            {
                if self.pos < self.length {
                    let c2 = self.text.get_char(self.pos);
                    if is_digit(c2) || c2 == '.' {
                        proof {
                            let sub = cs.subrange(start as int, self.pos as int);
                            let sub2 = cs.subrange(start as int, self.pos as int + 1);
                            assert(sub2.drop_last() =~= sub);
                            assert(sub2.last() == cs[self.pos as int]);
                        }
                        if c2 == '.' {
                            dots = dots + 1;
                        }
                        self.pos = self.pos + 1;
                    } else if c2 == '(' {
                        proof {
                            assert(!spec_is_num_char(cs[self.pos as int]));
                            lemma_scan_number_value(cs, start as int + 1, self.pos as int);
                        }
                        return None;
                    } else {
                        proof {
                            assert(!spec_is_num_char(cs[self.pos as int]));
                            lemma_scan_number_value(cs, start as int + 1, self.pos as int);
                        }
                        if dots > 1 {
                            return None;
                        }
                        let lit = self.text.substring_char(start, self.pos);
                        return Some(Token::Number(lit.to_owned()));
                    }
                } else {
                    proof {
                        lemma_scan_number_value(cs, start as int + 1, self.pos as int);
                    }
                    if dots > 1 {
                        return None;
                    }
                    let lit = self.text.substring_char(start, self.pos);
                    return Some(Token::Number(lit.to_owned()));
                }
            }
        } else {
            let tok = if c == '+' {
                Token::Plus
            } else if c == '-' {
                Token::Minus
            } else if c == '*' {
                Token::Asterisk
            } else if c == '/' {
                Token::Slash
            } else if c == '^' {
                Token::Caret
            } else if c == '%' {
                Token::Percent
            } else if c == '(' {
                Token::LParen
            } else if c == ')' {
                Token::RParen
            } else {
                Token::Unrecognized
            };
            self.pos = self.pos + 1;
            Some(tok)
        }
    }
}

} // verus!

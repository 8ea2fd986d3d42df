use crate::node::{ast_literals_ok, node_ast, Ast, Node};
use crate::token::{tok_literal_ok, toks_literals_ok, Tok, Token};
use crate::tokenizer::{
    lemma_spec_next_advances, spec_next, spec_tokens, spec_tokens_from, Tokenizer,
};
use vstd::prelude::*;
use vstd::string::StringExecFns;

verus! {

/// Specification-level form of a parse failure: the kind alone, without the
/// descriptive message the executable error carries.
pub enum ErrKind {
    UnableToParse,
    InvalidOperator,
}

/// Why a parse failed.
///
/// `UnableToParse`: the input could not be reduced to a single expression
/// (tokenization failed, tokens were left over at the end, or the token
/// buffer ran out early). `InvalidOperator`: a token appeared where the
/// grammar required a number, a sign, or a parenthesis, or a `(` group did
/// not close with `)`. Each carries a descriptive message.
#[derive(Debug)]
pub enum ParseError {
    UnableToParse(String),
    InvalidOperator(String),
}

impl View for ParseError {
    type V = ErrKind;

    closed spec fn view(&self) -> ErrKind {
        match self {
            ParseError::UnableToParse(_) => ErrKind::UnableToParse,
            ParseError::InvalidOperator(_) => ErrKind::InvalidOperator,
        }
    }
}

impl ParseError {
    /// The message carried by the error.
    pub closed spec fn detail(&self) -> Seq<char> {
        match self {
            ParseError::UnableToParse(m) => m@,
            ParseError::InvalidOperator(m) => m@,
        }
    }

    /// A human-readable description of the failure, in place of a `Display`
    /// impl.
    pub fn message(&self) -> (s: String)
        ensures
            s@ == "Error in evaluating "@ + self.detail(),
    {
        let prefix = String::from_str("Error in evaluating ");
        match self {
            ParseError::UnableToParse(m) => prefix.concat(m.as_str()),
            ParseError::InvalidOperator(m) => prefix.concat(m.as_str()),
        }
    }
}

/// Result of one grammar rule in the specification: the tree built and the
/// tokens not yet consumed, or the kind of failure.
pub type SpStep = Result<(Ast, Seq<Tok>), ErrKind>;

/// The `factor` rule over a token sequence whose first element is the
/// current token:
///
/// ```text
/// factor := NUMBER | ('+' | '-') factor | '(' expression ')' | ')' factor
/// ```
///
/// A stray `)` is consumed and skipped rather than rejected. Branches that
/// demand a next token where none remains fail with `UnableToParse`, as the
/// executable parser's token buffer does; with `Eof` always closing the
/// sequence they are never reached from a tokenized input.
pub open spec fn sp_factor(ts: Seq<Tok>) -> SpStep
    decreases ts.len(), 0int,
{
    if ts.len() == 0 {
        Err(ErrKind::UnableToParse)
    } else {
        match ts[0] {
            Tok::LParen => {
                if ts.len() <= 1 {
                    Err(ErrKind::UnableToParse)
                } else {
                    match sp_expression(ts.skip(1)) {
                        Err(e) => Err(e),
                        Ok((inner, rest)) => {
                            if rest.len() == 0 {
                                Err(ErrKind::UnableToParse)
                            } else if !(rest[0] is RParen) {
                                Err(ErrKind::InvalidOperator)
                            } else if rest.len() <= 1 {
                                Err(ErrKind::UnableToParse)
                            } else {
                                Ok((inner, rest.skip(1)))
                            }
                        },
                    }
                }
            },
            Tok::RParen => {
                if ts.len() <= 1 {
                    Err(ErrKind::UnableToParse)
                } else {
                    sp_factor(ts.skip(1))
                }
            },
            Tok::Number(lit) => {
                if ts.len() <= 1 {
                    Err(ErrKind::UnableToParse)
                } else {
                    Ok((Ast::Number(lit), ts.skip(1)))
                }
            },
            Tok::Plus => {
                if ts.len() <= 1 {
                    Err(ErrKind::UnableToParse)
                } else {
                    match sp_factor(ts.skip(1)) {
                        Err(e) => Err(e),
                        Ok((inner, rest)) => Ok((Ast::Positive(Box::new(inner)), rest)),
                    }
                }
            },
            Tok::Minus => {
                if ts.len() <= 1 {
                    Err(ErrKind::UnableToParse)
                } else {
                    match sp_factor(ts.skip(1)) {
                        Err(e) => Err(e),
                        Ok((inner, rest)) => Ok((Ast::Negative(Box::new(inner)), rest)),
                    }
                }
            },
            _ => Err(ErrKind::InvalidOperator),
        }
    }
}

/// The tail of the `term` rule: already holding `left`, folds further
/// `('*' | '/' | '^' | '%') factor` steps onto it, left-associatively.
/// All four operators sit at this one precedence level, so `^` binds no
/// tighter than `*`.
pub open spec fn sp_term_tail(left: Ast, ts: Seq<Tok>) -> SpStep
    decreases ts.len(), 1int,
{
    if ts.len() > 0 && (ts[0] is Asterisk || ts[0] is Slash || ts[0] is Caret
        || ts[0] is Percent) {
        if ts.len() <= 1 {
            Err(ErrKind::UnableToParse)
        } else {
            match sp_factor(ts.skip(1)) {
                Err(e) => Err(e),
                Ok((right, rest)) => {
                    let combined = if ts[0] is Asterisk {
                        Ast::Multiplication(Box::new(left), Box::new(right))
                    } else if ts[0] is Slash {
                        Ast::Division(Box::new(left), Box::new(right))
                    } else if ts[0] is Caret {
                        Ast::Power(Box::new(left), Box::new(right))
                    } else {
                        Ast::Modulo(Box::new(left), Box::new(right))
                    };
                    if rest.len() < ts.len() {
                        sp_term_tail(combined, rest)
                    } else {
                        Err(ErrKind::UnableToParse)
                    }
                },
            }
        }
    } else {
        Ok((left, ts))
    }
}

/// The `term` rule:
///
/// ```text
/// term := factor (('*' | '/' | '^' | '%') factor)*
/// ```
pub open spec fn sp_term(ts: Seq<Tok>) -> SpStep
    decreases ts.len(), 2int,
{
    match sp_factor(ts) {
        Err(e) => Err(e),
        Ok((left, rest)) => {
            if rest.len() < ts.len() {
                sp_term_tail(left, rest)
            } else {
                Err(ErrKind::UnableToParse)
            }
        },
    }
}

/// The tail of the `expression` rule: already holding `left`, folds further
/// `('+' | '-') term` steps onto it, left-associatively.
pub open spec fn sp_expression_tail(left: Ast, ts: Seq<Tok>) -> SpStep
    decreases ts.len(), 3int,
{
    if ts.len() > 0 && (ts[0] is Plus || ts[0] is Minus) {
        if ts.len() <= 1 {
            Err(ErrKind::UnableToParse)
        } else {
            match sp_term(ts.skip(1)) {
                Err(e) => Err(e),
                Ok((right, rest)) => {
                    let combined = if ts[0] is Plus {
                        Ast::Addition(Box::new(left), Box::new(right))
                    } else {
                        Ast::Subtraction(Box::new(left), Box::new(right))
                    };
                    if rest.len() < ts.len() {
                        sp_expression_tail(combined, rest)
                    } else {
                        Err(ErrKind::UnableToParse)
                    }
                },
            }
        }
    } else {
        Ok((left, ts))
    }
}

/// The `expression` rule, the lowest precedence tier:
///
/// ```text
/// expression := term (('+' | '-') term)*
/// ```
pub open spec fn sp_expression(ts: Seq<Tok>) -> SpStep
    decreases ts.len(), 4int,
{
    match sp_term(ts) {
        Err(e) => Err(e),
        Ok((left, rest)) => {
            if rest.len() < ts.len() {
                sp_expression_tail(left, rest)
            } else {
                Err(ErrKind::UnableToParse)
            }
        },
    }
}

/// A full parse over an already tokenized sequence: one `expression`, which
/// must consume everything up to the terminating `Eof`.
pub open spec fn sp_parse_tokens(ts: Seq<Tok>) -> Result<Ast, ErrKind> {
    match sp_expression(ts) {
        Err(e) => Err(e),
        Ok((ast, rest)) => {
            if rest.len() > 0 && rest[0] is Eof {
                Ok(ast)
            } else {
                Err(ErrKind::UnableToParse)
            }
        },
    }
}

/// What parsing an expression text yields: the tree, or the kind of error.
/// Tokenization failures surface as `UnableToParse`.
pub open spec fn spec_parse(cs: Seq<char>) -> Result<Ast, ErrKind> {
    match spec_tokens(cs) {
        None => Err(ErrKind::UnableToParse),
        Some(ts) => sp_parse_tokens(ts),
    }
}

/// Number tokens of a suffix are still decimal literals.
proof fn lemma_toks_literals_skip(ts: Seq<Tok>)
    requires
        toks_literals_ok(ts),
        ts.len() >= 1,
    ensures
        toks_literals_ok(ts.skip(1)),
{
    assert forall|i: int| 0 <= i < ts.skip(1).len() implies tok_literal_ok(
        #[trigger] ts.skip(1)[i],
    ) by {
        assert(ts.skip(1)[i] == ts[i + 1]);
    }
}

/// The `factor` rule only moves literals from tokens into leaves.
pub(crate) proof fn lemma_factor_literals(ts: Seq<Tok>)
    requires
        toks_literals_ok(ts),
    ensures
        sp_factor(ts) matches Ok((ast, rest)) ==> ast_literals_ok(ast) && toks_literals_ok(
            rest,
        ),
    decreases ts.len(), 0int,
{
    if ts.len() > 1 {
        match ts[0] {
            Tok::LParen => {
                lemma_toks_literals_skip(ts);
                lemma_expression_literals(ts.skip(1));
                match sp_expression(ts.skip(1)) {
                    Ok((inner, rest)) => {
                        if rest.len() > 1 && rest[0] is RParen {
                            lemma_toks_literals_skip(rest);
                        }
                    },
                    _ => {},
                }
            },
            Tok::RParen => {
                lemma_toks_literals_skip(ts);
                lemma_factor_literals(ts.skip(1));
            },
            Tok::Number(lit) => {
                assert(tok_literal_ok(ts[0]));
                lemma_toks_literals_skip(ts);
            },
            Tok::Plus => {
                lemma_toks_literals_skip(ts);
                lemma_factor_literals(ts.skip(1));
            },
            Tok::Minus => {
                lemma_toks_literals_skip(ts);
                lemma_factor_literals(ts.skip(1));
            },
            _ => {},
        }
    }
}

/// The tail of the `term` rule keeps both sides of each fold readable.
pub(crate) proof fn lemma_term_tail_literals(left: Ast, ts: Seq<Tok>)
    requires
        ast_literals_ok(left),
        toks_literals_ok(ts),
    ensures
        sp_term_tail(left, ts) matches Ok((ast, rest)) ==> ast_literals_ok(ast)
            && toks_literals_ok(rest),
    decreases ts.len(), 1int,
{
    if ts.len() > 1 && (ts[0] is Asterisk || ts[0] is Slash || ts[0] is Caret
        || ts[0] is Percent) {
        lemma_toks_literals_skip(ts);
        lemma_factor_literals(ts.skip(1));
        match sp_factor(ts.skip(1)) {
            Ok((right, rest)) => {
                if rest.len() < ts.len() {
                    let combined = if ts[0] is Asterisk {
                        Ast::Multiplication(Box::new(left), Box::new(right))
                    } else if ts[0] is Slash {
                        Ast::Division(Box::new(left), Box::new(right))
                    } else if ts[0] is Caret {
                        Ast::Power(Box::new(left), Box::new(right))
                    } else {
                        Ast::Modulo(Box::new(left), Box::new(right))
                    };
                    lemma_term_tail_literals(combined, rest);
                }
            },
            _ => {},
        }
    }
}

/// The `term` rule only moves literals from tokens into leaves.
pub(crate) proof fn lemma_term_literals(ts: Seq<Tok>)
    requires
        toks_literals_ok(ts),
    ensures
        sp_term(ts) matches Ok((ast, rest)) ==> ast_literals_ok(ast) && toks_literals_ok(
            rest,
        ),
    decreases ts.len(), 2int,
{
    lemma_factor_literals(ts);
    match sp_factor(ts) {
        Ok((left, rest)) => {
            if rest.len() < ts.len() {
                lemma_term_tail_literals(left, rest);
            }
        },
        _ => {},
    }
}

/// The tail of the `expression` rule keeps both sides of each fold readable.
pub(crate) proof fn lemma_expression_tail_literals(left: Ast, ts: Seq<Tok>)
    requires
        ast_literals_ok(left),
        toks_literals_ok(ts),
    ensures
        sp_expression_tail(left, ts) matches Ok((ast, rest)) ==> ast_literals_ok(ast)
            && toks_literals_ok(rest),
    decreases ts.len(), 3int,
{
    if ts.len() > 1 && (ts[0] is Plus || ts[0] is Minus) {
        lemma_toks_literals_skip(ts);
        lemma_term_literals(ts.skip(1));
        match sp_term(ts.skip(1)) {
            Ok((right, rest)) => {
                if rest.len() < ts.len() {
                    let combined = if ts[0] is Plus {
                        Ast::Addition(Box::new(left), Box::new(right))
                    } else {
                        Ast::Subtraction(Box::new(left), Box::new(right))
                    };
                    lemma_expression_tail_literals(combined, rest);
                }
            },
            _ => {},
        }
    }
}

/// The `expression` rule only moves literals from tokens into leaves.
pub(crate) proof fn lemma_expression_literals(ts: Seq<Tok>)
    requires
        toks_literals_ok(ts),
    ensures
        sp_expression(ts) matches Ok((ast, rest)) ==> ast_literals_ok(ast)
            && toks_literals_ok(rest),
    decreases ts.len(), 4int,
{
    lemma_term_literals(ts);
    match sp_term(ts) {
        Ok((left, rest)) => {
            if rest.len() < ts.len() {
                lemma_expression_tail_literals(left, rest);
            }
        },
        _ => {},
    }
}

/// Consumes the token sequence of one expression text and builds its tree.
///
/// The whole input is tokenized eagerly on construction; parsing then walks
/// the buffered tokens left to right, `tokens[pos]` being the current
/// lookahead.
pub struct Parser {
    tokens: Vec<Token>,
    pos: usize,
}

impl Parser {
    /// The tokens not yet consumed; the first one is the current lookahead.
    pub closed spec fn remaining(&self) -> Seq<Tok> {
        self.tokens.deep_view().skip(self.pos as int)
    }

    /// The current token always exists: `Eof` is consumed by nothing.
    pub closed spec fn wf(&self) -> bool {
        self.pos < self.tokens.len()
    }

    /// Tokenizes `expression` eagerly, up to and including `Eof`, and places
    /// the parser on the first token. Fails with `UnableToParse` when
    /// tokenization fails: a `(` directly after a number, or a number
    /// holding more than one decimal point.
    #[verifier::loop_isolation(false)]
    pub fn new(expression: &str) -> (r: Result<Parser, ParseError>)
        ensures
            match r {
                Ok(p) => p.wf() && spec_tokens(expression@) == Some(p.remaining()),
                Err(e) => spec_tokens(expression@) is None && e@ == ErrKind::UnableToParse,
            },
    {
        let ghost cs = expression@;
        let mut lexer = Tokenizer::new(expression);
        let mut tokens: Vec<Token> = Vec::new();
        loop
            invariant
                lexer.wf(),
                lexer.input() == cs,
                0 <= lexer.position() <= cs.len(),
                match spec_tokens_from(cs, lexer.position()) {
                    Some(rest) => spec_tokens(cs) == Some(tokens.deep_view() + rest),
                    None => spec_tokens(cs) is None,
                },
            decreases cs.len() - lexer.position(),
        {
            let ghost p = lexer.position();
            let next = lexer.next();
            match next {
                None => {
                    return Err(ParseError::UnableToParse("Unable to parse".to_owned()));
                },
                Some(tok) => {
                    let is_eof = matches!(tok, Token::Eof);
                    let ghost tok_v = tok@;
                    let ghost dv0 = tokens.deep_view();
                    tokens.push(tok);
                    proof {
                        let (t_opt, p2) = spec_next(cs, p);
                        assert(tokens.deep_view() =~= dv0 + seq![tok_v]);
                        if is_eof {
                            assert(p == cs.len());
                            assert(spec_tokens_from(cs, p) == Some(seq![Tok::Eof]));
                            assert(dv0 + seq![tok_v] =~= dv0 + spec_tokens_from(cs, p)->0);
                        } else {
                            assert(p < cs.len());
                            lemma_spec_next_advances(cs, p);
                            if spec_tokens_from(cs, p2) is Some {
                                assert(dv0 + (seq![tok_v] + spec_tokens_from(cs, p2)->0) =~= (dv0
                                    + seq![tok_v]) + spec_tokens_from(cs, p2)->0);
                            }
                        }
                    }
                    if is_eof {
                        proof {
                            assert(tokens.deep_view().skip(0) =~= tokens.deep_view());
                        }
                        return Ok(Parser { tokens, pos: 0 });
                    }
                },
            }
        }
    }

    /// Advances past the current token; fails with `UnableToParse` when the
    /// buffer holds nothing after it.
    fn get_next_token(&mut self) -> (r: Result<(), ParseError>)
        requires
            old(self).wf(),
        ensures
            final(self).wf(),
            match r {
                Ok(()) => old(self).remaining().len() > 1 && final(self).remaining() == old(
                    self,
                ).remaining().skip(1),
                Err(e) => old(self).remaining().len() == 1 && e@ == ErrKind::UnableToParse
                    && final(self).remaining() == old(self).remaining(),
            },
    {
        proof {
            assert(self.remaining().len() == self.tokens.len() - self.pos);
        }
        if self.pos + 1 < self.tokens.len() {
            let ghost before = self.remaining();
            self.pos = self.pos + 1;
            proof {
                assert(self.remaining() =~= before.skip(1));
            }
            Ok(())
        } else {
            Err(ParseError::UnableToParse("Unable to parse".to_owned()))
        }
    }

    /// The `factor` rule of the grammar, against `sp_factor`.
    fn factor_rule(&mut self) -> (r: Result<Node, ParseError>)
        requires
            old(self).wf(),
        ensures
            final(self).wf(),
            match r {
                Ok(n) => sp_factor(old(self).remaining()) == Ok::<(Ast, Seq<Tok>), ErrKind>(
                    (n@, final(self).remaining()),
                ) && final(self).remaining().len() < old(self).remaining().len(),
                Err(e) => sp_factor(old(self).remaining()) == Err::<(Ast, Seq<Tok>), ErrKind>(e@),
            },
        decreases self.remaining().len(), 0int,
    {
        let ghost ts0 = self.remaining();
        proof {
            assert(ts0.len() == self.tokens.len() - self.pos);
            assert(ts0[0] == self.tokens.deep_view()[self.pos as int]);
        }
        match &self.tokens[self.pos] {
            Token::LParen => {
                if let Err(e) = self.get_next_token() {
                    return Err(e);
                }
                let inner = match self.expression_rule() {
                    Ok(n) => n,
                    Err(e) => return Err(e),
                };
                proof {
                    assert(self.remaining()[0] == self.tokens.deep_view()[self.pos as int]);
                }
                match &self.tokens[self.pos] {
                    Token::RParen => {},
                    _ => {
                        return Err(
                            ParseError::InvalidOperator("Invalid operator".to_owned()),
                        );
                    },
                }
                if let Err(e) = self.get_next_token() {
                    return Err(e);
                }
                Ok(inner)
            },
            Token::RParen => {
                if let Err(e) = self.get_next_token() {
                    return Err(e);
                }
                self.factor_rule()
            },
            Token::Number(lit) => {
                let literal = lit.clone();
                if let Err(e) = self.get_next_token() {
                    return Err(e);
                }
                Ok(Node::Number(literal))
            },
            Token::Plus => {
                if let Err(e) = self.get_next_token() {
                    return Err(e);
                }
                match self.factor_rule() {
                    Ok(n) => Ok(Node::Positive(Box::new(n))),
                    Err(e) => Err(e),
                }
            },
            Token::Minus => {
                if let Err(e) = self.get_next_token() {
                    return Err(e);
                }
                match self.factor_rule() {
                    Ok(n) => Ok(Node::Negative(Box::new(n))),
                    Err(e) => Err(e),
                }
            },
            _ => Err(ParseError::InvalidOperator("Invalid operator".to_owned())),
        }
    }

    /// The `term` rule of the grammar, against `sp_term`.
    #[verifier::loop_isolation(false)]
    fn term_rule(&mut self) -> (r: Result<Node, ParseError>)
        requires
            old(self).wf(),
        ensures
            final(self).wf(),
            match r {
                Ok(n) => sp_term(old(self).remaining()) == Ok::<(Ast, Seq<Tok>), ErrKind>(
                    (n@, final(self).remaining()),
                ) && final(self).remaining().len() < old(self).remaining().len(),
                Err(e) => sp_term(old(self).remaining()) == Err::<(Ast, Seq<Tok>), ErrKind>(e@),
            },
        decreases self.remaining().len(), 1int,
    {
        let ghost ts0 = self.remaining();
        proof {
            assert(ts0.len() == self.tokens.len() - self.pos);
        }
        let mut left = match self.factor_rule() {
            Ok(n) => n,
            Err(e) => return Err(e),
        };
        loop
            invariant
                self.wf(),
                self.remaining().len() < ts0.len(),
                sp_term(ts0) == sp_term_tail(left@, self.remaining()),
            decreases self.remaining().len(),
        {
            let ghost ts = self.remaining();
            proof {
                assert(ts.len() == self.tokens.len() - self.pos);
                assert(ts[0] == self.tokens.deep_view()[self.pos as int]);
            }
            let cur = &self.tokens[self.pos];
            let is_asterisk = matches!(cur, Token::Asterisk);
            let is_slash = matches!(cur, Token::Slash);
            let is_caret = matches!(cur, Token::Caret);
            let is_percent = matches!(cur, Token::Percent);
            if !is_asterisk && !is_slash && !is_caret && !is_percent {
                return Ok(left);
            }
            if let Err(e) = self.get_next_token() {
                return Err(e);
            }
            let right = match self.factor_rule() {
                Ok(n) => n,
                Err(e) => return Err(e),
            };
            left = if is_asterisk {
                Node::Multiplication(Box::new(left), Box::new(right))
            } else if is_slash {
                Node::Division(Box::new(left), Box::new(right))
            } else if is_caret {
                Node::Power(Box::new(left), Box::new(right))
            } else {
                Node::Modulo(Box::new(left), Box::new(right))
            };
        }
    }

    /// The `expression` rule of the grammar, against `sp_expression`.
    #[verifier::loop_isolation(false)]
    fn expression_rule(&mut self) -> (r: Result<Node, ParseError>)
        requires
            old(self).wf(),
        ensures
            final(self).wf(),
            match r {
                Ok(n) => sp_expression(old(self).remaining()) == Ok::<(Ast, Seq<Tok>), ErrKind>(
                    (n@, final(self).remaining()),
                ) && final(self).remaining().len() < old(self).remaining().len(),
                Err(e) => sp_expression(old(self).remaining()) == Err::<
                    (Ast, Seq<Tok>),
                    ErrKind,
                >(e@),
            },
        decreases self.remaining().len(), 2int,
    {
        let ghost ts0 = self.remaining();
        proof {
            assert(ts0.len() == self.tokens.len() - self.pos);
        }
        let mut left = match self.term_rule() {
            Ok(n) => n,
            Err(e) => return Err(e),
        };
        loop
            invariant
                self.wf(),
                self.remaining().len() < ts0.len(),
                sp_expression(ts0) == sp_expression_tail(left@, self.remaining()),
            decreases self.remaining().len(),
        {
            let ghost ts = self.remaining();
            proof {
                assert(ts.len() == self.tokens.len() - self.pos);
                assert(ts[0] == self.tokens.deep_view()[self.pos as int]);
            }
            let cur = &self.tokens[self.pos];
            let is_plus = matches!(cur, Token::Plus);
            let is_minus = matches!(cur, Token::Minus);
            if !is_plus && !is_minus {
                return Ok(left);
            }
            if let Err(e) = self.get_next_token() {
                return Err(e);
            }
            let right = match self.term_rule() {
                Ok(n) => n,
                Err(e) => return Err(e),
            };
            left = if is_plus {
                Node::Addition(Box::new(left), Box::new(right))
            } else {
                Node::Subtraction(Box::new(left), Box::new(right))
            };
        }
    }

    /// Runs the `expression` rule once over the buffered tokens; succeeds
    /// only when the current token afterwards is exactly `Eof`, any
    /// leftover token being an `UnableToParse` failure.
    pub fn parse(&mut self) -> (r: Result<Node, ParseError>)
        requires
            old(self).wf(),
        ensures
            match r {
                Ok(n) => sp_parse_tokens(old(self).remaining()) == Ok::<Ast, ErrKind>(n@),
                Err(e) => sp_parse_tokens(old(self).remaining()) == Err::<Ast, ErrKind>(e@),
            },
    {
        let result = match self.expression_rule() {
            Ok(n) => n,
            Err(e) => return Err(e),
        };
        proof {
            assert(self.remaining()[0] == self.tokens.deep_view()[self.pos as int]);
        }
        if matches!(&self.tokens[self.pos], Token::Eof) {
            Ok(result)
        } else {
            Err(ParseError::UnableToParse("Unable to parse".to_owned()))
        }
    }
}

/// Parses one expression text: tokenizes it whole, then reduces the tokens
/// to a single tree. Every number leaf of a returned tree holds a decimal
/// numeric literal, so it can always be read back as a number.
pub fn parse(expression: &str) -> (r: Result<Node, ParseError>)
    ensures
        match r {
            Ok(n) => spec_parse(expression@) == Ok::<Ast, ErrKind>(n@) && ast_literals_ok(n@),
            Err(e) => spec_parse(expression@) == Err::<Ast, ErrKind>(e@),
        },
{
    proof {
        crate::tokenizer::lemma_tokens_literals_ok(expression@, 0);
        match spec_tokens(expression@) {
            Some(ts) => lemma_expression_literals(ts),
            None => {},
        }
    }
    let mut parser = match Parser::new(expression) {
        Ok(p) => p,
        Err(e) => return Err(e),
    };
    parser.parse()
}

} // verus!

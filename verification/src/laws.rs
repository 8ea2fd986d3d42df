use crate::node::{ast_literals_ok, Ast};
use crate::parser::{lemma_expression_literals, sp_expression, sp_expression_tail, sp_factor,
    sp_parse_tokens, sp_term, sp_term_tail, spec_parse, ErrKind};
use crate::token::Tok;
use crate::tokenizer::{is_decimal_literal, lemma_scan_number_value, lemma_tokens_literals_ok,
    scan_number, spec_tokens, spec_tokens_from};
use vstd::prelude::*;

verus! {

/// Law: every tree that parsing yields holds only readable number leaves:
/// each literal in it is a decimal numeric literal, so reducing the tree to
/// a number can never fail on it.
pub proof fn lemma_parsed_trees_are_evaluable(cs: Seq<char>)
    ensures
        spec_parse(cs) matches Ok(ast) ==> ast_literals_ok(ast),
{
    lemma_tokens_literals_ok(cs, 0);
    match spec_tokens(cs) {
        Some(ts) => lemma_expression_literals(ts),
        None => {},
    }
}

/// Law: a decimal numeric literal on its own always parses, to the single
/// number leaf holding exactly that literal text.
pub proof fn lemma_numeric_literal_parses(s: Seq<char>)
    requires
        is_decimal_literal(s),
    ensures
        spec_parse(s) == Ok::<Ast, ErrKind>(Ast::Number(s)),
{
    let n = s.len() as int;
    lemma_scan_number_value(s, 1, n);
    assert(scan_number(s, 1) == n);
    assert(s.subrange(0, n) =~= s);
    assert(spec_tokens_from(s, n) == Some(seq![Tok::Eof]));
    let toks = seq![Tok::Number(s)] + seq![Tok::Eof];
    assert(spec_tokens(s) == Some(toks));
    lemma_number_then_eof_parses(s, toks);
}

/// The tokens `[Number(s), Eof]` reduce to the number leaf alone.
proof fn lemma_number_then_eof_parses(s: Seq<char>, toks: Seq<Tok>)
    requires
        toks =~= seq![Tok::Number(s)] + seq![Tok::Eof],
    ensures
        sp_parse_tokens(toks) == Ok::<Ast, ErrKind>(Ast::Number(s)),
{
    let rest = toks.skip(1);
    assert(rest =~= seq![Tok::Eof]);
    assert(toks[0] == Tok::Number(s));
}

/// Law: parsing is a pure function of the input text alone; the same string,
/// parsed twice, yields the same outcome both times. No state is carried
/// over between calls, so `parse` is idempotent in this sense: its contract
/// ties every result to `spec_parse` of the input.
pub proof fn lemma_parse_deterministic(s1: Seq<char>, s2: Seq<char>)
    requires
        s1 == s2,
    ensures
        spec_parse(s1) == spec_parse(s2),
{
}

/// Law: a single additive step `a + b` parses to `Addition(a, b)`, stated
/// over the token sequence for any two literals.
pub proof fn lemma_addition_shape(a: Seq<char>, b: Seq<char>)
    ensures
        sp_parse_tokens(seq![Tok::Number(a), Tok::Plus, Tok::Number(b), Tok::Eof])
            == Ok::<Ast, ErrKind>(
            Ast::Addition(Box::new(Ast::Number(a)), Box::new(Ast::Number(b))),
        ),
{
    let toks = seq![Tok::Number(a), Tok::Plus, Tok::Number(b), Tok::Eof];
    let t1 = toks.skip(1);
    assert(t1 =~= seq![Tok::Plus, Tok::Number(b), Tok::Eof]);
    let t2 = t1.skip(1);
    assert(t2 =~= seq![Tok::Number(b), Tok::Eof]);
    let t3 = t2.skip(1);
    assert(t3 =~= seq![Tok::Eof]);
    let na = Ast::Number(a);
    let nb = Ast::Number(b);
    assert(sp_term(toks) == Ok::<(Ast, Seq<Tok>), ErrKind>((na, t1)));
    assert(sp_term(t2) == Ok::<(Ast, Seq<Tok>), ErrKind>((nb, t3)));
    let sum = Ast::Addition(Box::new(na), Box::new(nb));
    assert(sp_expression_tail(na, t1) == sp_expression_tail(sum, t3));
}

/// Law: operators of one precedence tier group to the left: `a - b - c`
/// parses to `(a - b) - c`, never to `a - (b - c)`, for any literals.
pub proof fn lemma_left_associativity(a: Seq<char>, b: Seq<char>, c: Seq<char>)
    ensures
        sp_parse_tokens(
            seq![
                Tok::Number(a),
                Tok::Minus,
                Tok::Number(b),
                Tok::Minus,
                Tok::Number(c),
                Tok::Eof,
            ],
        ) == Ok::<Ast, ErrKind>(
            Ast::Subtraction(
                Box::new(Ast::Subtraction(Box::new(Ast::Number(a)), Box::new(Ast::Number(b)))),
                Box::new(Ast::Number(c)),
            ),
        ),
{
    let toks = seq![
        Tok::Number(a),
        Tok::Minus,
        Tok::Number(b),
        Tok::Minus,
        Tok::Number(c),
        Tok::Eof,
    ];
    let t1 = toks.skip(1);
    assert(t1 =~= seq![Tok::Minus, Tok::Number(b), Tok::Minus, Tok::Number(c), Tok::Eof]);
    let t2 = t1.skip(1);
    assert(t2 =~= seq![Tok::Number(b), Tok::Minus, Tok::Number(c), Tok::Eof]);
    let t3 = t2.skip(1);
    assert(t3 =~= seq![Tok::Minus, Tok::Number(c), Tok::Eof]);
    let t4 = t3.skip(1);
    assert(t4 =~= seq![Tok::Number(c), Tok::Eof]);
    let t5 = t4.skip(1);
    assert(t5 =~= seq![Tok::Eof]);
    let na = Ast::Number(a);
    let nb = Ast::Number(b);
    let nc = Ast::Number(c);
    assert(sp_term(toks) == Ok::<(Ast, Seq<Tok>), ErrKind>((na, t1)));
    assert(sp_term(t2) == Ok::<(Ast, Seq<Tok>), ErrKind>((nb, t3)));
    assert(sp_term(t4) == Ok::<(Ast, Seq<Tok>), ErrKind>((nc, t5)));
    let d1 = Ast::Subtraction(Box::new(na), Box::new(nb));
    let d2 = Ast::Subtraction(Box::new(d1), Box::new(nc));
    assert(sp_expression_tail(na, t1) == sp_expression_tail(d1, t3));
    assert(sp_expression_tail(d1, t3) == sp_expression_tail(d2, t5));
    assert(sp_expression_tail(d2, t5) == Ok::<(Ast, Seq<Tok>), ErrKind>((d2, t5)));
}

/// Law: `^` binds no tighter than `*`; the whole multiplicative tier is one
/// flat, left-associative level, so `a ^ b * c` parses to `(a ^ b) * c`.
pub proof fn lemma_flattened_precedence(a: Seq<char>, b: Seq<char>, c: Seq<char>)
    ensures
        sp_parse_tokens(
            seq![
                Tok::Number(a),
                Tok::Caret,
                Tok::Number(b),
                Tok::Asterisk,
                Tok::Number(c),
                Tok::Eof,
            ],
        ) == Ok::<Ast, ErrKind>(
            Ast::Multiplication(
                Box::new(Ast::Power(Box::new(Ast::Number(a)), Box::new(Ast::Number(b)))),
                Box::new(Ast::Number(c)),
            ),
        ),
{
    let toks = seq![
        Tok::Number(a),
        Tok::Caret,
        Tok::Number(b),
        Tok::Asterisk,
        Tok::Number(c),
        Tok::Eof,
    ];
    let t1 = toks.skip(1);
    assert(t1 =~= seq![Tok::Caret, Tok::Number(b), Tok::Asterisk, Tok::Number(c), Tok::Eof]);
    let t2 = t1.skip(1);
    assert(t2 =~= seq![Tok::Number(b), Tok::Asterisk, Tok::Number(c), Tok::Eof]);
    let t3 = t2.skip(1);
    assert(t3 =~= seq![Tok::Asterisk, Tok::Number(c), Tok::Eof]);
    let t4 = t3.skip(1);
    assert(t4 =~= seq![Tok::Number(c), Tok::Eof]);
    let t5 = t4.skip(1);
    assert(t5 =~= seq![Tok::Eof]);
    let na = Ast::Number(a);
    let nb = Ast::Number(b);
    let nc = Ast::Number(c);
    assert(sp_factor(toks) == Ok::<(Ast, Seq<Tok>), ErrKind>((na, t1)));
    assert(sp_factor(t2) == Ok::<(Ast, Seq<Tok>), ErrKind>((nb, t3)));
    assert(sp_factor(t4) == Ok::<(Ast, Seq<Tok>), ErrKind>((nc, t5)));
    let p1 = Ast::Power(Box::new(na), Box::new(nb));
    let p2 = Ast::Multiplication(Box::new(p1), Box::new(nc));
    assert(sp_term_tail(na, t1) == sp_term_tail(p1, t3));
    assert(sp_term_tail(p1, t3) == sp_term_tail(p2, t5));
    assert(sp_term_tail(p2, t5) == Ok::<(Ast, Seq<Tok>), ErrKind>((p2, t5)));
    assert(sp_term(toks) == Ok::<(Ast, Seq<Tok>), ErrKind>((p2, t5)));
}

/// Law: parentheses override the flat precedence tier: `a ^ ( b * c )`
/// parses with the product on the right of the power.
pub proof fn lemma_parentheses_group(a: Seq<char>, b: Seq<char>, c: Seq<char>)
    ensures
        sp_parse_tokens(
            seq![
                Tok::Number(a),
                Tok::Caret,
                Tok::LParen,
                Tok::Number(b),
                Tok::Asterisk,
                Tok::Number(c),
                Tok::RParen,
                Tok::Eof,
            ],
        ) == Ok::<Ast, ErrKind>(
            Ast::Power(
                Box::new(Ast::Number(a)),
                Box::new(
                    Ast::Multiplication(Box::new(Ast::Number(b)), Box::new(Ast::Number(c))),
                ),
            ),
        ),
{
    let toks = seq![
        Tok::Number(a),
        Tok::Caret,
        Tok::LParen,
        Tok::Number(b),
        Tok::Asterisk,
        Tok::Number(c),
        Tok::RParen,
        Tok::Eof,
    ];
    let t1 = toks.skip(1);
    assert(t1 =~= seq![
        Tok::Caret,
        Tok::LParen,
        Tok::Number(b),
        Tok::Asterisk,
        Tok::Number(c),
        Tok::RParen,
        Tok::Eof,
    ]);
    let t2 = t1.skip(1);
    assert(t2 =~= seq![
        Tok::LParen,
        Tok::Number(b),
        Tok::Asterisk,
        Tok::Number(c),
        Tok::RParen,
        Tok::Eof,
    ]);
    let t3 = t2.skip(1);
    assert(t3 =~= seq![Tok::Number(b), Tok::Asterisk, Tok::Number(c), Tok::RParen, Tok::Eof]);
    let t4 = t3.skip(1);
    assert(t4 =~= seq![Tok::Asterisk, Tok::Number(c), Tok::RParen, Tok::Eof]);
    let t5 = t4.skip(1);
    assert(t5 =~= seq![Tok::Number(c), Tok::RParen, Tok::Eof]);
    let t6 = t5.skip(1);
    assert(t6 =~= seq![Tok::RParen, Tok::Eof]);
    let t7 = t6.skip(1);
    assert(t7 =~= seq![Tok::Eof]);
    let na = Ast::Number(a);
    let nb = Ast::Number(b);
    let nc = Ast::Number(c);
    let prod = Ast::Multiplication(Box::new(nb), Box::new(nc));
    assert(sp_factor(t3) == Ok::<(Ast, Seq<Tok>), ErrKind>((nb, t4)));
    assert(sp_factor(t5) == Ok::<(Ast, Seq<Tok>), ErrKind>((nc, t6)));
    assert(sp_term_tail(nb, t4) == sp_term_tail(prod, t6));
    assert(sp_term_tail(prod, t6) == Ok::<(Ast, Seq<Tok>), ErrKind>((prod, t6)));
    assert(sp_term(t3) == Ok::<(Ast, Seq<Tok>), ErrKind>((prod, t6)));
    assert(sp_expression(t3) == Ok::<(Ast, Seq<Tok>), ErrKind>((prod, t6)));
    assert(sp_factor(t2) == Ok::<(Ast, Seq<Tok>), ErrKind>((prod, t7)));
    let pow = Ast::Power(Box::new(na), Box::new(prod));
    assert(sp_factor(toks) == Ok::<(Ast, Seq<Tok>), ErrKind>((na, t1)));
    assert(sp_term_tail(na, t1) == sp_term_tail(pow, t7));
    assert(sp_term(toks) == Ok::<(Ast, Seq<Tok>), ErrKind>((pow, t7)));
    assert(sp_expression(toks) == Ok::<(Ast, Seq<Tok>), ErrKind>((pow, t7)));
}

/// Law: unary signs chain right-recursively: `- - a` parses to a double
/// negation, `+ - a` to a negation under a positive sign.
pub proof fn lemma_unary_chains(a: Seq<char>)
    ensures
        sp_parse_tokens(seq![Tok::Minus, Tok::Minus, Tok::Number(a), Tok::Eof]) == Ok::<
            Ast,
            ErrKind,
        >(Ast::Negative(Box::new(Ast::Negative(Box::new(Ast::Number(a)))))),
        sp_parse_tokens(seq![Tok::Plus, Tok::Minus, Tok::Number(a), Tok::Eof]) == Ok::<
            Ast,
            ErrKind,
        >(Ast::Positive(Box::new(Ast::Negative(Box::new(Ast::Number(a)))))),
{
    let na = Ast::Number(a);
    let mm = seq![Tok::Minus, Tok::Minus, Tok::Number(a), Tok::Eof];
    let m1 = mm.skip(1);
    assert(m1 =~= seq![Tok::Minus, Tok::Number(a), Tok::Eof]);
    let m2 = m1.skip(1);
    assert(m2 =~= seq![Tok::Number(a), Tok::Eof]);
    let m3 = m2.skip(1);
    assert(m3 =~= seq![Tok::Eof]);
    assert(sp_factor(m2) == Ok::<(Ast, Seq<Tok>), ErrKind>((na, m3)));
    assert(sp_factor(m1) == Ok::<(Ast, Seq<Tok>), ErrKind>((Ast::Negative(Box::new(na)), m3)));
    assert(sp_factor(mm) == Ok::<(Ast, Seq<Tok>), ErrKind>(
        (Ast::Negative(Box::new(Ast::Negative(Box::new(na)))), m3),
    ));
    let pm = seq![Tok::Plus, Tok::Minus, Tok::Number(a), Tok::Eof];
    let q1 = pm.skip(1);
    assert(q1 =~= seq![Tok::Minus, Tok::Number(a), Tok::Eof]);
    assert(sp_factor(pm) == Ok::<(Ast, Seq<Tok>), ErrKind>(
        (Ast::Positive(Box::new(Ast::Negative(Box::new(na)))), m3),
    ));
}

/// Law: a stray leading `)` is consumed and skipped, not rejected: the
/// tokens of `)a` parse to the number leaf alone.
pub proof fn lemma_stray_rparen_skipped(a: Seq<char>)
    ensures
        sp_parse_tokens(seq![Tok::RParen, Tok::Number(a), Tok::Eof]) == Ok::<Ast, ErrKind>(
            Ast::Number(a),
        ),
{
    let toks = seq![Tok::RParen, Tok::Number(a), Tok::Eof];
    let t1 = toks.skip(1);
    assert(t1 =~= seq![Tok::Number(a), Tok::Eof]);
    let t2 = t1.skip(1);
    assert(t2 =~= seq![Tok::Eof]);
    assert(sp_factor(t1) == Ok::<(Ast, Seq<Tok>), ErrKind>((Ast::Number(a), t2)));
}

/// Law: an operator with no right operand is rejected: the tokens of `a +`
/// fail with `InvalidOperator`, the factor rule meeting `Eof`.
pub proof fn lemma_trailing_operator_rejected(a: Seq<char>)
    ensures
        sp_parse_tokens(seq![Tok::Number(a), Tok::Plus, Tok::Eof]) == Err::<Ast, ErrKind>(
            ErrKind::InvalidOperator,
        ),
{
    let toks = seq![Tok::Number(a), Tok::Plus, Tok::Eof];
    let t1 = toks.skip(1);
    assert(t1 =~= seq![Tok::Plus, Tok::Eof]);
    let t2 = t1.skip(1);
    assert(t2 =~= seq![Tok::Eof]);
    assert(sp_factor(t2) == Err::<(Ast, Seq<Tok>), ErrKind>(ErrKind::InvalidOperator));
    assert(sp_term(toks) == Ok::<(Ast, Seq<Tok>), ErrKind>((Ast::Number(a), t1)));
}

/// Law: two values with no operator between them are rejected: whatever
/// separates them tokenizes to `Unrecognized`, and parsing stops before the
/// end of the input, an `UnableToParse` failure.
pub proof fn lemma_adjacent_values_rejected(a: Seq<char>, b: Seq<char>)
    ensures
        sp_parse_tokens(
            seq![Tok::Number(a), Tok::Unrecognized, Tok::Number(b), Tok::Eof],
        ) == Err::<Ast, ErrKind>(ErrKind::UnableToParse),
{
    let toks = seq![Tok::Number(a), Tok::Unrecognized, Tok::Number(b), Tok::Eof];
    let t1 = toks.skip(1);
    assert(t1 =~= seq![Tok::Unrecognized, Tok::Number(b), Tok::Eof]);
    assert(sp_term(toks) == Ok::<(Ast, Seq<Tok>), ErrKind>((Ast::Number(a), t1)));
    assert(sp_expression(toks) == Ok::<(Ast, Seq<Tok>), ErrKind>((Ast::Number(a), t1)));
}

/// Law: a `(` group that never closes is rejected with `InvalidOperator`:
/// the tokens of `( a + b` reach `Eof` where the `)` was required.
pub proof fn lemma_unclosed_group_rejected(a: Seq<char>, b: Seq<char>)
    ensures
        sp_parse_tokens(
            seq![Tok::LParen, Tok::Number(a), Tok::Plus, Tok::Number(b), Tok::Eof],
        ) == Err::<Ast, ErrKind>(ErrKind::InvalidOperator),
{
    let toks = seq![Tok::LParen, Tok::Number(a), Tok::Plus, Tok::Number(b), Tok::Eof];
    let t1 = toks.skip(1);
    assert(t1 =~= seq![Tok::Number(a), Tok::Plus, Tok::Number(b), Tok::Eof]);
    lemma_addition_shape(a, b);
    let t2 = t1.skip(1);
    assert(t2 =~= seq![Tok::Plus, Tok::Number(b), Tok::Eof]);
    let t3 = t2.skip(1);
    assert(t3 =~= seq![Tok::Number(b), Tok::Eof]);
    let t4 = t3.skip(1);
    assert(t4 =~= seq![Tok::Eof]);
    let na = Ast::Number(a);
    let nb = Ast::Number(b);
    let sum = Ast::Addition(Box::new(na), Box::new(nb));
    assert(sp_term(t1) == Ok::<(Ast, Seq<Tok>), ErrKind>((na, t2)));
    assert(sp_term(t3) == Ok::<(Ast, Seq<Tok>), ErrKind>((nb, t4)));
    assert(sp_expression_tail(na, t2) == sp_expression_tail(sum, t4));
    assert(sp_expression(t1) == Ok::<(Ast, Seq<Tok>), ErrKind>((sum, t4)));
    assert(sp_factor(toks) == Err::<(Ast, Seq<Tok>), ErrKind>(ErrKind::InvalidOperator));
}

} // verus!


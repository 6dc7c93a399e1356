//! Parser for a tiny C subset: turns the token sequence into a program.
//!
//! The grammar: a program is a sequence of functions; a function is
//! `int <name> ( ) { <statement> }`; the one statement form is
//! `return <expression> ;`; an expression is an integer literal or a
//! unary operator applied to an expression. The parser walks the token
//! sequence once, left to right, with one token of lookahead at the top
//! level to decide whether another function follows; the first mismatch
//! aborts the parse, and tokens left over after the last function are an
//! error.

use vstd::prelude::*;

use crate::parser::token::Token;
use crate::parser::token::TokenView;
use crate::parser::token::toks_view;

verus! {

/// A unary operator of the expression grammar.
#[derive(Debug, Clone, Copy, PartialEq, Eq)]
pub enum UnOp {
    BitComp,
    LogicalNeg,
    Negation,
}

/// An expression: an integer literal, or a unary operator applied to an
/// expression. Sign is applied only through an explicit negation node,
/// never baked into the literal.
#[derive(Debug, PartialEq)]
pub enum Expression {
    Int(i32),
    UnOp(UnOp, Box<Expression>),
}

/// A statement; the only form is returning an expression's value.
#[derive(Debug, PartialEq)]
pub enum Statement {
    Return(Expression),
}

/// A function declaration: a name and exactly one statement as its body.
#[derive(Debug, PartialEq)]
pub struct Function {
    pub name: String,
    pub statement: Statement,
}

/// The root of the syntax tree: the functions in declaration order.
#[derive(Debug, PartialEq)]
pub struct Program {
    pub func: Vec<Function>,
}

/// The mathematical shape of a `Function`: its name as a `Seq<char>`.
pub struct FunctionView {
    pub name: Seq<char>,
    pub statement: Statement,
}

impl View for Function {
    type V = FunctionView;

    open spec fn view(&self) -> FunctionView {
        FunctionView { name: self.name@, statement: self.statement }
    }
}

/// The function views of a function sequence.
pub open spec fn funcs_view(fs: Seq<Function>) -> Seq<FunctionView> {
    fs.map_values(|f: Function| f@)
}

impl View for Program {
    type V = Seq<FunctionView>;

    open spec fn view(&self) -> Seq<FunctionView> {
        funcs_view(self.func@)
    }
}

/// The token shape a production required at some position.
#[derive(Debug, Clone, Copy, PartialEq, Eq)]
pub enum Expected {
    KeywordInt,
    FunctionName,
    OpenParen,
    CloseParen,
    OpenBrace,
    CloseBrace,
    KeywordReturn,
    SemiColon,
}

/// A failure of the parser; the first one encountered aborts the whole
/// parse, and no partial syntax tree is built.
#[derive(Debug, PartialEq)]
pub enum ParseError {
    /// A production's required token did not match; `found` is the
    /// actual token, or `None` for end of input.
    UnexpectedToken { expected: Expected, found: Option<Token> },
    /// Tokens were left over after the last top-level function.
    UnexpectedTrailingTokens,
    /// The expression grammar could not start from the current token;
    /// `found` is that token, or `None` for end of input.
    ExpectedExpression { found: Option<Token> },
}

/// The mathematical shape of a `ParseError`.
pub enum ParseErrorView {
    UnexpectedToken { expected: Expected, found: Option<TokenView> },
    UnexpectedTrailingTokens,
    ExpectedExpression { found: Option<TokenView> },
}

/// The token views of an optional token.
pub open spec fn opt_token_view(t: Option<Token>) -> Option<TokenView> {
    match t {
        Some(tok) => Some(tok@),
        None => None,
    }
}

impl View for ParseError {
    type V = ParseErrorView;

    open spec fn view(&self) -> ParseErrorView {
        match self {
            ParseError::UnexpectedToken { expected, found } => ParseErrorView::UnexpectedToken {
                expected: *expected,
                found: opt_token_view(*found),
            },
            ParseError::UnexpectedTrailingTokens => ParseErrorView::UnexpectedTrailingTokens,
            ParseError::ExpectedExpression { found } => ParseErrorView::ExpectedExpression {
                found: opt_token_view(*found),
            },
        }
    }
}

/// The token at position `i`, or `None` at or beyond the end.
pub open spec fn peek(ts: Seq<TokenView>, i: int) -> Option<TokenView> {
    if 0 <= i < ts.len() {
        Some(ts[i])
    } else {
        None
    }
}

/// Whether token `t` has the shape `e` requires.
pub open spec fn token_fits(t: TokenView, e: Expected) -> bool {
    match e {
        Expected::KeywordInt => t == TokenView::Keyword("int"@),
        Expected::FunctionName => t is Identifier,
        Expected::OpenParen => t == TokenView::OpenParen,
        Expected::CloseParen => t == TokenView::CloseParen,
        Expected::OpenBrace => t == TokenView::OpenBrace,
        Expected::CloseBrace => t == TokenView::CloseBrace,
        Expected::KeywordReturn => t == TokenView::Keyword("return"@),
        Expected::SemiColon => t == TokenView::SemiColon,
    }
}

/// Consuming one token that must have shape `e`: the next position, or
/// the mismatch, naming what was required and what stood there.
pub open spec fn spec_expect(ts: Seq<TokenView>, i: int, e: Expected) -> Result<
    int,
    ParseErrorView,
> {
    match peek(ts, i) {
        None => Err(ParseErrorView::UnexpectedToken { expected: e, found: None }),
        Some(t) => if token_fits(t, e) {
            Ok(i + 1)
        } else {
            Err(ParseErrorView::UnexpectedToken { expected: e, found: Some(t) })
        },
    }
}

/// What parsing one expression from position `i` yields: the expression
/// and the next position, or the first mismatch. A literal within the
/// signed 32-bit range ends the expression; a unary operator recurses;
/// anything else cannot start an expression.
pub open spec fn spec_parse_expression(ts: Seq<TokenView>, i: int) -> Result<
    (Expression, int),
    ParseErrorView,
>
    decreases ts.len() - i,
{
    match peek(ts, i) {
        None => Err(ParseErrorView::ExpectedExpression { found: None }),
        Some(t) => match t {
            TokenView::Literal(v) => if v <= i32::MAX as u64 {
                Ok((Expression::Int(v as i32), i + 1))
            } else {
                Err(ParseErrorView::ExpectedExpression { found: Some(t) })
            },
            TokenView::LogicalNeg => match spec_parse_expression(ts, i + 1) {
                Ok((e, j)) => Ok((Expression::UnOp(UnOp::LogicalNeg, Box::new(e)), j)),
                Err(pe) => Err(pe),
            },
            TokenView::Negation => match spec_parse_expression(ts, i + 1) {
                Ok((e, j)) => Ok((Expression::UnOp(UnOp::Negation, Box::new(e)), j)),
                Err(pe) => Err(pe),
            },
            TokenView::BitComp => match spec_parse_expression(ts, i + 1) {
                Ok((e, j)) => Ok((Expression::UnOp(UnOp::BitComp, Box::new(e)), j)),
                Err(pe) => Err(pe),
            },
            _ => Err(ParseErrorView::ExpectedExpression { found: Some(t) }),
        },
    }
}

/// What parsing one statement from position `i` yields: the `return`
/// keyword, one expression, then a semicolon.
pub open spec fn spec_parse_statement(ts: Seq<TokenView>, i: int) -> Result<
    (Statement, int),
    ParseErrorView,
> {
    match spec_expect(ts, i, Expected::KeywordReturn) {
        Err(e) => Err(e),
        Ok(i1) => match spec_parse_expression(ts, i1) {
            Err(e) => Err(e),
            Ok((exp, i2)) => match spec_expect(ts, i2, Expected::SemiColon) {
                Err(e) => Err(e),
                Ok(i3) => Ok((Statement::Return(exp), i3)),
            },
        },
    }
}

/// What parsing one function from position `i` yields: the keyword
/// `int`, the function's name, `(`, `)`, `{`, one statement, `}`. Each
/// expectation consumes exactly one token or aborts the parse.
pub open spec fn spec_parse_function(ts: Seq<TokenView>, i: int) -> Result<
    (FunctionView, int),
    ParseErrorView,
> {
    match spec_expect(ts, i, Expected::KeywordInt) {
        Err(e) => Err(e),
        Ok(i1) => match peek(ts, i1) {
            None => Err(
                ParseErrorView::UnexpectedToken { expected: Expected::FunctionName, found: None },
            ),
            Some(t) => match t {
                TokenView::Identifier(name) => match spec_expect(ts, i1 + 1, Expected::OpenParen) {
                    Err(e) => Err(e),
                    Ok(i2) => match spec_expect(ts, i2, Expected::CloseParen) {
                        Err(e) => Err(e),
                        Ok(i3) => match spec_expect(ts, i3, Expected::OpenBrace) {
                            Err(e) => Err(e),
                            Ok(i4) => match spec_parse_statement(ts, i4) {
                                Err(e) => Err(e),
                                Ok((st, i5)) => match spec_expect(ts, i5, Expected::CloseBrace) {
                                    Err(e) => Err(e),
                                    Ok(i6) => Ok((FunctionView { name, statement: st }, i6)),
                                },
                            },
                        },
                    },
                },
                _ => Err(
                    ParseErrorView::UnexpectedToken {
                        expected: Expected::FunctionName,
                        found: Some(t),
                    },
                ),
            },
        },
    }
}

/// Prepends already-parsed functions to the outcome of parsing the rest.
pub open spec fn prog_join(
    prefix: Seq<FunctionView>,
    rest: Result<Seq<FunctionView>, ParseErrorView>,
) -> Result<Seq<FunctionView>, ParseErrorView> {
    match rest {
        Ok(fs) => Ok(prefix + fs),
        Err(e) => Err(e),
    }
}

/// What parsing a whole program from position `i` yields. While the one
/// token of lookahead shows another function's leading `int`, a function
/// is parsed; an exhausted sequence is a complete program; any other
/// leftover token is an error.
pub open spec fn spec_parse_program(ts: Seq<TokenView>, i: int) -> Result<
    Seq<FunctionView>,
    ParseErrorView,
>
    decreases ts.len() - i
        via spec_parse_program_decreases
{
    match peek(ts, i) {
        None => Ok(Seq::empty()),
        Some(t) => if t == TokenView::Keyword("int"@) {
            match spec_parse_function(ts, i) {
                Err(e) => Err(e),
                Ok((f, j)) => prog_join(seq![f], spec_parse_program(ts, j)),
            }
        } else {
            Err(ParseErrorView::UnexpectedTrailingTokens)
        },
    }
}

#[via_fn]
proof fn spec_parse_program_decreases(ts: Seq<TokenView>, i: int) {
    match peek(ts, i) {
        Some(t) => if t == TokenView::Keyword("int"@) {
            lemma_parse_function_bounds(ts, i);
        },
        None => {},
    }
}

/// A successful expression parse lands strictly right of where it began
/// and within the sequence.
proof fn lemma_parse_expression_bounds(ts: Seq<TokenView>, i: int)
    ensures
        spec_parse_expression(ts, i) matches Ok(p) ==> 0 <= i < p.1 <= ts.len(),
    decreases ts.len() - i,
{
    match peek(ts, i) {
        Some(t) => match t {
            TokenView::LogicalNeg => lemma_parse_expression_bounds(ts, i + 1),
            TokenView::Negation => lemma_parse_expression_bounds(ts, i + 1),
            TokenView::BitComp => lemma_parse_expression_bounds(ts, i + 1),
            _ => {},
        },
        None => {},
    }
}

/// A successful statement parse lands strictly right of where it began
/// and within the sequence.
proof fn lemma_parse_statement_bounds(ts: Seq<TokenView>, i: int)
    ensures
        spec_parse_statement(ts, i) matches Ok(p) ==> 0 <= i < p.1 <= ts.len(),
{
    match spec_expect(ts, i, Expected::KeywordReturn) {
        Ok(i1) => lemma_parse_expression_bounds(ts, i1),
        Err(_) => {},
    }
}

/// A successful function parse lands strictly right of where it began
/// and within the sequence.
proof fn lemma_parse_function_bounds(ts: Seq<TokenView>, i: int)
    ensures
        spec_parse_function(ts, i) matches Ok(p) ==> 0 <= i < p.1 <= ts.len(),
{
    match spec_expect(ts, i, Expected::KeywordInt) {
        Ok(i1) => lemma_parse_statement_bounds(ts, i1 + 4),
        Err(_) => {},
    }
}

/// Whether `s` reads exactly as `lit`.
fn string_is(s: &String, lit: &str) -> (r: bool)
    ensures
        r == (s@ == lit@),
{
    let other: String = lit.to_owned();
    *s == other
}

/// Takes the token under the cursor and advances past it; `None` at the
/// end of the sequence, which leaves the cursor in place.
fn next_token(tokens: &Vec<Token>, pos: &mut usize) -> (t: Option<Token>)
    requires
        *old(pos) <= tokens@.len(),
    ensures
        *final(pos) <= tokens@.len(),
        *old(pos) < tokens@.len() ==> *final(pos) == *old(pos) + 1,
        *old(pos) >= tokens@.len() ==> *final(pos) == *old(pos),
        opt_token_view(t) == peek(toks_view(tokens@), *old(pos) as int),
{
    if *pos < tokens.len() {
        let tok = tokens[*pos].duplicate();
        *pos = *pos + 1;
        Some(tok)
    } else {
        None
    }
}

/// Parses one expression at the cursor: `spec_parse_expression` says
/// exactly which expression or which error comes back, and where the
/// cursor lands.
fn parse_expression(tokens: &Vec<Token>, pos: &mut usize) -> (r: Result<Expression, ParseError>)
    requires
        *old(pos) <= tokens@.len(),
    ensures
        *final(pos) <= tokens@.len(),
        match r {
            Ok(e) => spec_parse_expression(toks_view(tokens@), *old(pos) as int) matches Ok(p)
                && p.0 == e && p.1 == *final(pos) as int,
            Err(pe) => spec_parse_expression(toks_view(tokens@), *old(pos) as int) matches Err(me)
                && me == pe@,
        },
    decreases tokens@.len() - *old(pos),
{
    let t = next_token(tokens, pos);
    match t {
        Some(Token::Literal(v)) => {
            if v <= i32::MAX as u64 {
                Ok(Expression::Int(v as i32))
            } else {
                Err(ParseError::ExpectedExpression { found: Some(Token::Literal(v)) })
            }
        },
        Some(Token::LogicalNeg) => match parse_expression(tokens, pos) {
            Ok(e) => Ok(Expression::UnOp(UnOp::LogicalNeg, Box::new(e))),
            Err(pe) => Err(pe),
        },
        Some(Token::Negation) => match parse_expression(tokens, pos) {
            Ok(e) => Ok(Expression::UnOp(UnOp::Negation, Box::new(e))),
            Err(pe) => Err(pe),
        },
        Some(Token::BitComp) => match parse_expression(tokens, pos) {
            Ok(e) => Ok(Expression::UnOp(UnOp::BitComp, Box::new(e))),
            Err(pe) => Err(pe),
        },
        other => Err(ParseError::ExpectedExpression { found: other }),
    }
}

/// Parses one statement at the cursor: the `return` keyword, one
/// expression, then a semicolon, as `spec_parse_statement` says.
fn parse_statement(tokens: &Vec<Token>, pos: &mut usize) -> (r: Result<Statement, ParseError>)
    requires
        *old(pos) <= tokens@.len(),
    ensures
        *final(pos) <= tokens@.len(),
        match r {
            Ok(st) => spec_parse_statement(toks_view(tokens@), *old(pos) as int) matches Ok(p)
                && p.0 == st && p.1 == *final(pos) as int,
            Err(pe) => spec_parse_statement(toks_view(tokens@), *old(pos) as int) matches Err(me)
                && me == pe@,
        },
{
    let t0 = next_token(tokens, pos);
    let ok0 = match &t0 {
        Some(Token::Keyword(w)) => string_is(w, "return"),
        _ => false,
    };
    if !ok0 {
        return Err(ParseError::UnexpectedToken { expected: Expected::KeywordReturn, found: t0 });
    }
    let exp = match parse_expression(tokens, pos) {
        Ok(e) => e,
        Err(pe) => {
            return Err(pe);
        },
    };
    let t1 = next_token(tokens, pos);
    let ok1 = match &t1 {
        Some(Token::SemiColon) => true,
        _ => false,
    };
    if !ok1 {
        return Err(ParseError::UnexpectedToken { expected: Expected::SemiColon, found: t1 });
    }
    Ok(Statement::Return(exp))
}

/// Parses one function at the cursor: `int`, the name, `(`, `)`, `{`,
/// one statement, `}`, as `spec_parse_function` says.
fn parse_function(tokens: &Vec<Token>, pos: &mut usize) -> (r: Result<Function, ParseError>)
    requires
        *old(pos) <= tokens@.len(),
    ensures
        *final(pos) <= tokens@.len(),
        match r {
            Ok(f) => spec_parse_function(toks_view(tokens@), *old(pos) as int) matches Ok(p)
                && p.0 == f@ && p.1 == *final(pos) as int,
            Err(pe) => spec_parse_function(toks_view(tokens@), *old(pos) as int) matches Err(me)
                && me == pe@,
        },
{
    let t0 = next_token(tokens, pos);
    let ok0 = match &t0 {
        Some(Token::Keyword(w)) => string_is(w, "int"),
        _ => false,
    };
    if !ok0 {
        return Err(ParseError::UnexpectedToken { expected: Expected::KeywordInt, found: t0 });
    }
    let t1 = next_token(tokens, pos);
    let name: String = match t1 {
        Some(Token::Identifier(n)) => n,
        other => {
            return Err(
                ParseError::UnexpectedToken { expected: Expected::FunctionName, found: other },
            );
        },
    };
    let t2 = next_token(tokens, pos);
    let ok2 = match &t2 {
        Some(Token::OpenParen) => true,
        _ => false,
    };
    if !ok2 {
        return Err(ParseError::UnexpectedToken { expected: Expected::OpenParen, found: t2 });
    }
    let t3 = next_token(tokens, pos);
    let ok3 = match &t3 {
        Some(Token::CloseParen) => true,
        _ => false,
    };
    if !ok3 {
        return Err(ParseError::UnexpectedToken { expected: Expected::CloseParen, found: t3 });
    }
    let t4 = next_token(tokens, pos);
    let ok4 = match &t4 {
        Some(Token::OpenBrace) => true,
        _ => false,
    };
    if !ok4 {
        return Err(ParseError::UnexpectedToken { expected: Expected::OpenBrace, found: t4 });
    }
    let statement = match parse_statement(tokens, pos) {
        Ok(st) => st,
        Err(pe) => {
            return Err(pe);
        },
    };
    let t5 = next_token(tokens, pos);
    let ok5 = match &t5 {
        Some(Token::CloseBrace) => true,
        _ => false,
    };
    if !ok5 {
        return Err(ParseError::UnexpectedToken { expected: Expected::CloseBrace, found: t5 });
    }
    Ok(Function { name, statement })
}

/// Whether the token under the cursor is the `int` that opens another
/// function declaration.
fn starts_function(tokens: &Vec<Token>, pos: usize) -> (r: bool)
    requires
        pos <= tokens@.len(),
    ensures
        r == (peek(toks_view(tokens@), pos as int) matches Some(t) && t == TokenView::Keyword(
            "int"@,
        )),
{
    if pos < tokens.len() {
        match &tokens[pos] {
            Token::Keyword(w) => string_is(w, "int"),
            _ => false,
        }
    } else {
        false
    }
}

/// Parses a whole program, consuming the token sequence: the functions
/// in declaration order, or the first error; `spec_parse_program` says
/// exactly which. Tokens left after the last function are an error, and
/// an empty sequence is the empty program.
pub fn parse_program(tokens: Vec<Token>) -> (r: Result<Program, ParseError>)
    ensures
        match r {
            Ok(p) => spec_parse_program(toks_view(tokens@), 0) matches Ok(fs) && fs == p@,
            Err(pe) => spec_parse_program(toks_view(tokens@), 0) matches Err(me) && me == pe@,
        },
{
    let ghost tv = toks_view(tokens@);
    let mut functions: Vec<Function> = Vec::new();
    let mut pos: usize = 0;
    proof {
        assert(funcs_view(functions@) =~= Seq::<FunctionView>::empty());
        match spec_parse_program(tv, 0) {
            Ok(fs) => {
                assert(Seq::<FunctionView>::empty() + fs =~= fs);
            },
            Err(_) => {},
        }
    }
    while starts_function(&tokens, pos)
        invariant
            pos <= tokens@.len(),
            tv == toks_view(tokens@),
            spec_parse_program(tv, 0) == prog_join(
                funcs_view(functions@),
                spec_parse_program(tv, pos as int),
            ),
        decreases tokens@.len() - pos,
    {
        let ghost pos0 = pos as int;
        match parse_function(&tokens, &mut pos) {
            Ok(f) => {
                proof {
                    lemma_parse_function_bounds(tv, pos0);
                    lemma_prog_join_push(funcs_view(functions@), f@, spec_parse_program(
                        tv,
                        pos as int,
                    ));
                    assert(funcs_view(functions@.push(f)) =~= funcs_view(functions@).push(f@));
                }
                functions.push(f);
            },
            Err(pe) => {
                return Err(pe);
            },
        }
    }
    if pos < tokens.len() {
        return Err(ParseError::UnexpectedTrailingTokens);
    }
    proof {
        assert(funcs_view(functions@) + Seq::<FunctionView>::empty() =~= funcs_view(functions@));
    }
    Ok(Program { func: functions })
}

proof fn lemma_prog_join_push(
    p: Seq<FunctionView>,
    f: FunctionView,
    rest: Result<Seq<FunctionView>, ParseErrorView>,
)
    ensures
        prog_join(p, prog_join(seq![f], rest)) == prog_join(p.push(f), rest),
{
    match rest {
        Ok(fs) => {
            assert(p + (seq![f] + fs) =~= p.push(f) + fs);
        },
        Err(_) => {},
    }
}

/// Law: parsing has no hidden state. `parse_program`'s contract pins its
/// result to `spec_parse_program` of the token sequence alone, so two
/// results of parsing the same sequence are equal.
pub proof fn lemma_parse_deterministic(
    ts: Seq<TokenView>,
    r1: Result<Seq<FunctionView>, ParseErrorView>,
    r2: Result<Seq<FunctionView>, ParseErrorView>,
)
    requires
        r1 == spec_parse_program(ts, 0),
        r2 == spec_parse_program(ts, 0),
    ensures
        r1 == r2,
{
}

/// Law: after a well-formed function, any leftover token that does not
/// open another function declaration fails the whole parse as trailing
/// input.
pub proof fn lemma_trailing_tokens(ts: Seq<TokenView>, f: FunctionView, j: int)
    requires
        spec_parse_function(ts, 0) == Ok::<(FunctionView, int), ParseErrorView>((f, j)),
        j < ts.len(),
        ts[j] != TokenView::Keyword("int"@),
    ensures
        spec_parse_program(ts, 0) == Err::<Seq<FunctionView>, ParseErrorView>(
            ParseErrorView::UnexpectedTrailingTokens,
        ),
{
    lemma_parse_function_bounds(ts, 0);
    assert(spec_parse_program(ts, j) == Err::<Seq<FunctionView>, ParseErrorView>(
        ParseErrorView::UnexpectedTrailingTokens,
    ));
}

/// Law: a function whose tokens end right after its statement fails
/// wanting the closing brace, and what it found is reported as end of
/// input.
pub proof fn lemma_missing_close_brace(ts: Seq<TokenView>, i: int, st: Statement, j: int)
    requires
        spec_expect(ts, i, Expected::KeywordInt) is Ok,
        peek(ts, i + 1) matches Some(t) && t is Identifier,
        spec_expect(ts, i + 2, Expected::OpenParen) is Ok,
        spec_expect(ts, i + 3, Expected::CloseParen) is Ok,
        spec_expect(ts, i + 4, Expected::OpenBrace) is Ok,
        spec_parse_statement(ts, i + 5) == Ok::<(Statement, int), ParseErrorView>((st, j)),
        j == ts.len(),
    ensures
        spec_parse_function(ts, i) == Err::<(FunctionView, int), ParseErrorView>(
            ParseErrorView::UnexpectedToken { expected: Expected::CloseBrace, found: None },
        ),
{
    assert(peek(ts, j) is None);
}

} // verus!

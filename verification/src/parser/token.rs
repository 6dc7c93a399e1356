//! Lexer for a tiny C subset: turns source text into a sequence of tokens.
//!
//! The token language: the punctuation characters `{ } ( ) ;`, the
//! single-character operators `~ ! - + * /`, reserved words (`int`,
//! `return`), identifiers (maximal alphanumeric runs starting with a
//! letter), and unsigned decimal literals. Whitespace separates tokens and
//! is dropped; any other character is a lexing error.

use vstd::prelude::*;
use vstd::string::StrSliceExecFns;

verus! {

/// One lexical unit of the source language.
#[derive(Debug, PartialEq)]
pub enum Token {
    OpenBrace,
    CloseBrace,
    OpenParen,
    CloseParen,
    SemiColon,
    Keyword(String),
    Identifier(String),
    Literal(u64),
    BitComp,
    LogicalNeg,
    Negation,
    Addition,
    Multiplication,
    Division,
}

/// The mathematical shape of a `Token`: identical, but the text of a
/// keyword or identifier is a `Seq<char>`.
pub enum TokenView {
    OpenBrace,
    CloseBrace,
    OpenParen,
    CloseParen,
    SemiColon,
    Keyword(Seq<char>),
    Identifier(Seq<char>),
    Literal(u64),
    BitComp,
    LogicalNeg,
    Negation,
    Addition,
    Multiplication,
    Division,
}

impl View for Token {
    type V = TokenView;

    open spec fn view(&self) -> TokenView {
        match self {
            Token::OpenBrace => TokenView::OpenBrace,
            Token::CloseBrace => TokenView::CloseBrace,
            Token::OpenParen => TokenView::OpenParen,
            Token::CloseParen => TokenView::CloseParen,
            Token::SemiColon => TokenView::SemiColon,
            Token::Keyword(s) => TokenView::Keyword(s@),
            Token::Identifier(s) => TokenView::Identifier(s@),
            Token::Literal(v) => TokenView::Literal(*v),
            Token::BitComp => TokenView::BitComp,
            Token::LogicalNeg => TokenView::LogicalNeg,
            Token::Negation => TokenView::Negation,
            Token::Addition => TokenView::Addition,
            Token::Multiplication => TokenView::Multiplication,
            Token::Division => TokenView::Division,
        }
    }
}

impl Token {
    /// An equal copy of the token.
    pub fn duplicate(&self) -> (t: Token)
        ensures
            t@ == self@,
    {
        match self {
            Token::OpenBrace => Token::OpenBrace,
            Token::CloseBrace => Token::CloseBrace,
            Token::OpenParen => Token::OpenParen,
            Token::CloseParen => Token::CloseParen,
            Token::SemiColon => Token::SemiColon,
            Token::Keyword(s) => Token::Keyword(s.clone()),
            Token::Identifier(s) => Token::Identifier(s.clone()),
            Token::Literal(v) => Token::Literal(*v),
            Token::BitComp => Token::BitComp,
            Token::LogicalNeg => Token::LogicalNeg,
            Token::Negation => Token::Negation,
            Token::Addition => Token::Addition,
            Token::Multiplication => Token::Multiplication,
            Token::Division => Token::Division,
        }
    }
}

/// A failure of the lexer; the first one encountered aborts the whole scan.
#[derive(Debug, Clone, Copy, PartialEq, Eq)]
pub enum LexError {
    /// The character starts no recognized token.
    UnexpectedCharacter(char),
    /// A digit run's value exceeds the magnitude type's range.
    NumericOverflow,
}

/// The token views of a token sequence.
pub open spec fn toks_view(ts: Seq<Token>) -> Seq<TokenView> {
    ts.map_values(|t: Token| t@)
}

/// Whitespace: skipped by the lexer, never part of a token.
pub open spec fn is_whitespace_char(c: char) -> bool {
    c == ' ' || c == '\t' || c == '\n' || c == '\r'
}

/// An ASCII letter.
pub open spec fn is_letter_char(c: char) -> bool {
    ('a' as u32 <= c as u32 && c as u32 <= 'z' as u32)
    || ('A' as u32 <= c as u32 && c as u32 <= 'Z' as u32)
}

/// An ASCII decimal digit.
pub open spec fn is_digit_char(c: char) -> bool {
    '0' as u32 <= c as u32 && c as u32 <= '9' as u32
}

/// A character that may continue an identifier or keyword run.
pub open spec fn is_alnum_char(c: char) -> bool {
    is_letter_char(c) || is_digit_char(c)
}

/// A character that is, alone, a complete token.
pub open spec fn is_simple_char(c: char) -> bool {
    c == '{' || c == '}' || c == '(' || c == ')' || c == ';'
    || c == '~' || c == '!' || c == '-' || c == '+' || c == '*' || c == '/'
}

/// The token of a single-character token's character.
pub open spec fn simple_token(c: char) -> TokenView
    recommends
        is_simple_char(c),
{
    if c == '{' {
        TokenView::OpenBrace
    } else if c == '}' {
        TokenView::CloseBrace
    } else if c == '(' {
        TokenView::OpenParen
    } else if c == ')' {
        TokenView::CloseParen
    } else if c == ';' {
        TokenView::SemiColon
    } else if c == '~' {
        TokenView::BitComp
    } else if c == '!' {
        TokenView::LogicalNeg
    } else if c == '-' {
        TokenView::Negation
    } else if c == '+' {
        TokenView::Addition
    } else if c == '*' {
        TokenView::Multiplication
    } else {
        TokenView::Division
    }
}

/// The reserved words of the language.
pub open spec fn is_reserved_word(w: Seq<char>) -> bool {
    w == "int"@ || w == "return"@
}

/// Length of the maximal alphanumeric prefix of `s`.
pub open spec fn alnum_run_len(s: Seq<char>) -> nat
    decreases s.len(),
{
    if s.len() == 0 || !is_alnum_char(s[0]) {
        0
    } else {
        1 + alnum_run_len(s.skip(1))
    }
}

/// Length of the maximal decimal-digit prefix of `s`.
pub open spec fn digit_run_len(s: Seq<char>) -> nat
    decreases s.len(),
{
    if s.len() == 0 || !is_digit_char(s[0]) {
        0
    } else {
        1 + digit_run_len(s.skip(1))
    }
}

/// Numeric value of one decimal digit character.
pub open spec fn digit_val(c: char) -> nat
    recommends
        is_digit_char(c),
{
    (c as int - '0' as int) as nat
}

/// Value of a run of decimal digit characters, most significant first.
pub open spec fn digits_value(s: Seq<char>) -> nat
    decreases s.len(),
{
    if s.len() == 0 {
        0
    } else {
        digits_value(s.drop_last()) * 10 + digit_val(s.last())
    }
}

/// Prepends already-lexed tokens to the outcome of lexing the rest.
pub open spec fn lex_join(
    prefix: Seq<TokenView>,
    rest: Result<Seq<TokenView>, LexError>,
) -> Result<Seq<TokenView>, LexError> {
    match rest {
        Ok(ts) => Ok(prefix + ts),
        Err(e) => Err(e),
    }
}

/// What lexing a character sequence yields: the full ordered token
/// sequence, or the first error. One left-to-right pass; at each step the
/// head character decides the token, and a word or number extends to its
/// maximal run.
pub open spec fn spec_lex(s: Seq<char>) -> Result<Seq<TokenView>, LexError>
    decreases s.len()
        via spec_lex_decreases
{
    if s.len() == 0 {
        Ok(Seq::empty())
    } else {
        let c = s[0];
        if is_whitespace_char(c) {
            spec_lex(s.skip(1))
        } else if is_simple_char(c) {
            lex_join(seq![simple_token(c)], spec_lex(s.skip(1)))
        } else if is_letter_char(c) {
            let m = alnum_run_len(s) as int;
            let word = s.take(m);
            let t = if is_reserved_word(word) {
                TokenView::Keyword(word)
            } else {
                TokenView::Identifier(word)
            };
            lex_join(seq![t], spec_lex(s.skip(m)))
        } else if is_digit_char(c) {
            let m = digit_run_len(s) as int;
            let v = digits_value(s.take(m));
            if v > u64::MAX as nat {
                Err(LexError::NumericOverflow)
            } else {
                lex_join(seq![TokenView::Literal(v as u64)], spec_lex(s.skip(m)))
            }
        } else {
            Err(LexError::UnexpectedCharacter(c))
        }
    }
}

#[via_fn]
proof fn spec_lex_decreases(s: Seq<char>) {
    if s.len() > 0 {
        lemma_alnum_run_len_bounds(s);
        lemma_digit_run_len_bounds(s);
    }
}

proof fn lemma_alnum_run_len_bounds(s: Seq<char>)
    ensures
        alnum_run_len(s) <= s.len(),
        s.len() > 0 && is_alnum_char(s[0]) ==> alnum_run_len(s) >= 1,
    decreases s.len(),
{
    if s.len() > 0 && is_alnum_char(s[0]) {
        lemma_alnum_run_len_bounds(s.skip(1));
    }
}

proof fn lemma_digit_run_len_bounds(s: Seq<char>)
    ensures
        digit_run_len(s) <= s.len(),
        s.len() > 0 && is_digit_char(s[0]) ==> digit_run_len(s) >= 1,
    decreases s.len(),
{
    if s.len() > 0 && is_digit_char(s[0]) {
        lemma_digit_run_len_bounds(s.skip(1));
    }
}

proof fn lemma_join_empty(rest: Result<Seq<TokenView>, LexError>)
    ensures
        lex_join(Seq::empty(), rest) == rest,
{
    match rest {
        Ok(ts) => {
            assert(Seq::<TokenView>::empty() + ts =~= ts);
        },
        Err(_) => {},
    }
}

proof fn lemma_join_push(p: Seq<TokenView>, t: TokenView, rest: Result<Seq<TokenView>, LexError>)
    ensures
        lex_join(p, lex_join(seq![t], rest)) == lex_join(p.push(t), rest),
{
    match rest {
        Ok(ts) => {
            assert(p + (seq![t] + ts) =~= p.push(t) + ts);
        },
        Err(_) => {},
    }
}

/// The maximal alphanumeric prefix has length `k` exactly when the first
/// `k` characters are alphanumeric and the run stops there.
proof fn lemma_alnum_run_len_is(s: Seq<char>, k: int)
    requires
        0 <= k <= s.len(),
        forall|m: int| 0 <= m < k ==> is_alnum_char(s[m]),
        k == s.len() || !is_alnum_char(s[k]),
    ensures
        alnum_run_len(s) == k,
    decreases k,
{
    if k > 0 {
        let s1 = s.skip(1);
        assert forall|m: int| 0 <= m < k - 1 implies is_alnum_char(s1[m]) by {
            assert(s1[m] == s[m + 1]);
        }
        if k < s.len() {
            assert(s1[k - 1] == s[k]);
        }
        lemma_alnum_run_len_is(s1, k - 1);
    }
}

/// The digit-run analogue of `lemma_alnum_run_len_is`.
proof fn lemma_digit_run_len_is(s: Seq<char>, k: int)
    requires
        0 <= k <= s.len(),
        forall|m: int| 0 <= m < k ==> is_digit_char(s[m]),
        k == s.len() || !is_digit_char(s[k]),
    ensures
        digit_run_len(s) == k,
    decreases k,
{
    if k > 0 {
        let s1 = s.skip(1);
        assert forall|m: int| 0 <= m < k - 1 implies is_digit_char(s1[m]) by {
            assert(s1[m] == s[m + 1]);
        }
        if k < s.len() {
            assert(s1[k - 1] == s[k]);
        }
        lemma_digit_run_len_is(s1, k - 1);
    }
}

/// A prefix of `p` digit characters forces the digit run to reach `p`.
proof fn lemma_digit_run_len_at_least(s: Seq<char>, p: int)
    requires
        0 <= p <= s.len(),
        forall|m: int| 0 <= m < p ==> is_digit_char(s[m]),
    ensures
        digit_run_len(s) >= p,
    decreases p,
{
    if p > 0 {
        let s1 = s.skip(1);
        assert forall|m: int| 0 <= m < p - 1 implies is_digit_char(s1[m]) by {
            assert(s1[m] == s[m + 1]);
        }
        lemma_digit_run_len_at_least(s1, p - 1);
    }
}

/// Reading more digits never lowers the value.
proof fn lemma_digits_value_take_le(s: Seq<char>, k1: int, k2: int)
    requires
        0 <= k1 <= k2 <= s.len(),
    ensures
        digits_value(s.take(k1)) <= digits_value(s.take(k2)),
    decreases k2 - k1,
{
    if k1 < k2 {
        lemma_digits_value_take_le(s, k1, k2 - 1);
        assert(s.take(k2).drop_last() =~= s.take(k2 - 1));
    }
}

/// Whether `c` is skipped as whitespace.
fn char_is_whitespace(c: char) -> (r: bool)
    ensures
        r == is_whitespace_char(c),
{
    c == ' ' || c == '\t' || c == '\n' || c == '\r'
}

/// Whether `c` is an ASCII letter.
fn char_is_letter(c: char) -> (r: bool)
    ensures
        r == is_letter_char(c),
{
    let u: u32 = c as u32;
    ('a' as u32 <= u && u <= 'z' as u32) || ('A' as u32 <= u && u <= 'Z' as u32)
}

/// Whether `c` is an ASCII decimal digit.
fn char_is_digit(c: char) -> (r: bool)
    ensures
        r == is_digit_char(c),
{
    let u: u32 = c as u32;
    '0' as u32 <= u && u <= '9' as u32
}

/// Whether `c` may continue an identifier or keyword run.
fn char_is_alnum(c: char) -> (r: bool)
    ensures
        r == is_alnum_char(c),
{
    char_is_letter(c) || char_is_digit(c)
}

/// Whether `c` is, alone, a complete token.
fn char_is_simple(c: char) -> (r: bool)
    ensures
        r == is_simple_char(c),
{
    c == '{' || c == '}' || c == '(' || c == ')' || c == ';' || c == '~' || c == '!' || c == '-'
        || c == '+' || c == '*' || c == '/'
}

/// The token of a single-character token's character.
fn simple_token_of(c: char) -> (t: Token)
    requires
        is_simple_char(c),
    ensures
        t@ == simple_token(c),
{
    if c == '{' {
        Token::OpenBrace
    } else if c == '}' {
        Token::CloseBrace
    } else if c == '(' {
        Token::OpenParen
    } else if c == ')' {
        Token::CloseParen
    } else if c == ';' {
        Token::SemiColon
    } else if c == '~' {
        Token::BitComp
    } else if c == '!' {
        Token::LogicalNeg
    } else if c == '-' {
        Token::Negation
    } else if c == '+' {
        Token::Addition
    } else if c == '*' {
        Token::Multiplication
    } else {
        Token::Division
    }
}

/// Turns source text into its complete, ordered token sequence, or
/// reports the first lexing failure: `spec_lex` says exactly which.
pub fn lex(contents: String) -> (r: Result<Vec<Token>, LexError>)
    ensures
        match r {
            Ok(toks) => spec_lex(contents@) matches Ok(ms) && ms == toks_view(toks@),
            Err(e) => spec_lex(contents@) matches Err(me) && me == e,
        },
{
    let ghost w = contents@;
    let s: &str = contents.as_str();
    let n: usize = s.unicode_len();
    let mut tokens: Vec<Token> = Vec::new();
    let mut i: usize = 0;
    proof {
        assert(w.skip(0) =~= w);
        assert(toks_view(tokens@) =~= Seq::<TokenView>::empty());
        lemma_join_empty(spec_lex(w));
    }
    while i < n
        invariant
            w == contents@,
            s@ == w,
            n == w.len(),
            i <= n,
            spec_lex(w) == lex_join(toks_view(tokens@), spec_lex(w.skip(i as int))),
        decreases n - i,
    {
        let ghost su = w.skip(i as int);
        proof {
            assert(su.len() == n - i);
            assert(su[0] == w[i as int]);
        }
        let c: char = s.get_char(i);
        if char_is_whitespace(c) {
            proof {
                assert(su.skip(1) =~= w.skip(i as int + 1));
            }
            i = i + 1;
        } else if char_is_simple(c) {
            let t = simple_token_of(c);
            proof {
                assert(su.skip(1) =~= w.skip(i as int + 1));
                assert(spec_lex(su) == lex_join(seq![t@], spec_lex(w.skip(i as int + 1))));
                lemma_join_push(toks_view(tokens@), t@, spec_lex(w.skip(i as int + 1)));
                assert(toks_view(tokens@.push(t)) =~= toks_view(tokens@).push(t@));
            }
            tokens.push(t);
            i = i + 1;
        } else if char_is_letter(c) {
            let mut j: usize = i;
            while j < n && char_is_alnum(s.get_char(j))
                invariant
                    s@ == w,
                    n == w.len(),
                    i <= j <= n,
                    forall|k: int| i <= k < j ==> is_alnum_char(w[k]),
                decreases n - j,
            {
                j = j + 1;
            }
            proof {
                assert forall|k: int| 0 <= k < j - i implies is_alnum_char(su[k]) by {
                    assert(su[k] == w[k + i]);
                }
                if j < n {
                    assert(su[j - i] == w[j as int]);
                }
                lemma_alnum_run_len_is(su, j - i);
            }
            let word: &str = s.substring_char(i, j);
            let wstr: String = word.to_owned();
            let is_kw = is_keyword(word);
            let t: Token = if is_kw {
                Token::Keyword(wstr)
            } else {
                Token::Identifier(wstr)
            };
            proof {
                assert(word@ =~= su.take(j - i));
                assert(su.skip(j - i) =~= w.skip(j as int));
                assert(spec_lex(su) == lex_join(seq![t@], spec_lex(w.skip(j as int))));
                lemma_join_push(toks_view(tokens@), t@, spec_lex(w.skip(j as int)));
                assert(toks_view(tokens@.push(t)) =~= toks_view(tokens@).push(t@));
            }
            tokens.push(t);
            i = j;
        } else if char_is_digit(c) {
            let mut j: usize = i;
            let mut value: u64 = 0;
            proof {
                assert(w.subrange(i as int, i as int) =~= Seq::<char>::empty());
            }
            while j < n && char_is_digit(s.get_char(j))
                invariant
                    w == contents@,
                    s@ == w,
                    n == w.len(),
                    i <= j <= n,
                    i < n,
                    su == w.skip(i as int),
                    is_digit_char(w[i as int]),
                    !is_whitespace_char(w[i as int]),
                    !is_simple_char(w[i as int]),
                    !is_letter_char(w[i as int]),
                    forall|k: int| i <= k < j ==> is_digit_char(w[k]),
                    value == digits_value(w.subrange(i as int, j as int)),
                    spec_lex(w) == lex_join(toks_view(tokens@), spec_lex(w.skip(i as int))),
                decreases n - j,
            {
                let cj: char = s.get_char(j);
                proof {
                    assert(is_digit_char(cj));
                }
                let d: u64 = (cj as u32 - '0' as u32) as u64;
                let ghost run_pre = w.subrange(i as int, j as int);
                let next = match value.checked_mul(10) {
                    Some(v10) => v10.checked_add(d),
                    None => None,
                };
                match next {
                    Some(v) => {
                        proof {
                            assert(w.subrange(i as int, j as int + 1).drop_last() =~= run_pre);
                            assert(w.subrange(i as int, j as int + 1).last() == w[j as int]);
                        }
                        value = v;
                        j = j + 1;
                    },
                    None => {
                        proof {
                            assert(w.subrange(i as int, j as int + 1).drop_last() =~= run_pre);
                            assert(w.subrange(i as int, j as int + 1).last() == w[j as int]);
                            assert(digits_value(w.subrange(i as int, j as int + 1)) > u64::MAX as nat);
                            assert forall|k: int| 0 <= k < j + 1 - i implies is_digit_char(su[k]) by {
                                assert(su[k] == w[k + i]);
                            }
                            lemma_digit_run_len_at_least(su, j + 1 - i);
                            lemma_digit_run_len_bounds(su);
                            let m = digit_run_len(su) as int;
                            lemma_digits_value_take_le(su, j + 1 - i, m);
                            assert(su.take(j + 1 - i) =~= w.subrange(i as int, j as int + 1));
                            assert(digits_value(su.take(m)) > u64::MAX as nat);
                            assert(spec_lex(su) == Err::<Seq<TokenView>, LexError>(
                                LexError::NumericOverflow,
                            ));
                        }
                        return Err(LexError::NumericOverflow);
                    },
                }
            }
            proof {
                assert forall|k: int| 0 <= k < j - i implies is_digit_char(su[k]) by {
                    assert(su[k] == w[k + i]);
                }
                if j < n {
                    assert(su[j - i] == w[j as int]);
                }
                lemma_digit_run_len_is(su, j - i);
                assert(su.take(j - i) =~= w.subrange(i as int, j as int));
                assert(su.skip(j - i) =~= w.skip(j as int));
                let t = Token::Literal(value);
                assert(spec_lex(su) == lex_join(seq![t@], spec_lex(w.skip(j as int))));
                lemma_join_push(toks_view(tokens@), t@, spec_lex(w.skip(j as int)));
                assert(toks_view(tokens@.push(t)) =~= toks_view(tokens@).push(t@));
            }
            tokens.push(Token::Literal(value));
            i = j;
        } else {
            proof {
                assert(spec_lex(su) == Err::<Seq<TokenView>, LexError>(
                    LexError::UnexpectedCharacter(c),
                ));
            }
            return Err(LexError::UnexpectedCharacter(c));
        }
    }
    proof {
        assert(w.skip(n as int).len() == 0);
        assert(toks_view(tokens@) + Seq::<TokenView>::empty() =~= toks_view(tokens@));
    }
    Ok(tokens)
}

/// Whether `word` is a reserved word of the language.
fn is_keyword(word: &str) -> (r: bool)
    ensures
        r == is_reserved_word(word@),
{
    let w: String = word.to_owned();
    let int_kw: String = "int".to_owned();
    let return_kw: String = "return".to_owned();
    w == int_kw || w == return_kw
}

/// Law: each punctuation or operator character, alone, lexes to exactly
/// its one token and no others.
pub proof fn lemma_lex_single_simple(c: char)
    requires
        is_simple_char(c),
    ensures
        spec_lex(seq![c]) == Ok::<Seq<TokenView>, LexError>(seq![simple_token(c)]),
{
    let s = seq![c];
    assert(s.len() == 1);
    assert(s[0] == c);
    assert(!is_whitespace_char(c));
    assert(s.skip(1) =~= Seq::<char>::empty());
    assert(spec_lex(s.skip(1)) == Ok::<Seq<TokenView>, LexError>(Seq::empty()));
    assert(spec_lex(s) == lex_join(seq![simple_token(c)], spec_lex(s.skip(1))));
    assert(seq![simple_token(c)] + Seq::<TokenView>::empty() =~= seq![simple_token(c)]);
}

/// Law: an alphanumeric run that starts with a letter and is not a
/// reserved word lexes to exactly one identifier token whose text is the
/// run itself.
pub proof fn lemma_lex_identifier_run(word: Seq<char>)
    requires
        word.len() > 0,
        is_letter_char(word[0]),
        forall|k: int| 0 <= k < word.len() ==> is_alnum_char(word[k]),
        !is_reserved_word(word),
    ensures
        spec_lex(word) == Ok::<Seq<TokenView>, LexError>(seq![TokenView::Identifier(word)]),
{
    lemma_alnum_run_len_is(word, word.len() as int);
    assert(word.take(word.len() as int) =~= word);
    assert(word.skip(word.len() as int).len() == 0);
    assert(!is_whitespace_char(word[0]));
    assert(!is_simple_char(word[0]));
    assert(spec_lex(word.skip(word.len() as int)) == Ok::<Seq<TokenView>, LexError>(Seq::empty()));
    assert(spec_lex(word) == lex_join(
        seq![TokenView::Identifier(word)],
        spec_lex(word.skip(word.len() as int)),
    ));
    assert(seq![TokenView::Identifier(word)] + Seq::<TokenView>::empty() =~= seq![
        TokenView::Identifier(word),
    ]);
}

/// Law: a digit run lexes to one literal token holding its decimal value
/// when that value fits the magnitude type, and fails with overflow when
/// it does not.
pub proof fn lemma_lex_digit_run(word: Seq<char>)
    requires
        word.len() > 0,
        forall|k: int| 0 <= k < word.len() ==> is_digit_char(word[k]),
    ensures
        digits_value(word) <= u64::MAX as nat ==> spec_lex(word) == Ok::<
            Seq<TokenView>,
            LexError,
        >(seq![TokenView::Literal(digits_value(word) as u64)]),
        digits_value(word) > u64::MAX as nat ==> spec_lex(word) == Err::<
            Seq<TokenView>,
            LexError,
        >(LexError::NumericOverflow),
{
    lemma_digit_run_len_is(word, word.len() as int);
    assert(word.take(word.len() as int) =~= word);
    assert(word.skip(word.len() as int).len() == 0);
    assert(!is_whitespace_char(word[0]));
    assert(!is_simple_char(word[0]));
    assert(!is_letter_char(word[0]));
    if digits_value(word) <= u64::MAX as nat {
        let t = TokenView::Literal(digits_value(word) as u64);
        assert(spec_lex(word.skip(word.len() as int)) == Ok::<Seq<TokenView>, LexError>(
            Seq::empty(),
        ));
        assert(spec_lex(word) == lex_join(seq![t], spec_lex(word.skip(word.len() as int))));
        assert(seq![t] + Seq::<TokenView>::empty() =~= seq![t]);
    }
}

/// Law: lexing has no hidden state. `lex`'s contract pins its result to
/// `spec_lex` of the text alone, so two results of lexing the same text
/// are equal.
pub proof fn lemma_lex_deterministic(
    s: Seq<char>,
    r1: Result<Seq<TokenView>, LexError>,
    r2: Result<Seq<TokenView>, LexError>,
)
    requires
        r1 == spec_lex(s),
        r2 == spec_lex(s),
    ensures
        r1 == r2,
{
}

} // verus!

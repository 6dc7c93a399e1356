use tinyc::parser::ast::parse_program;
use tinyc::parser::ast::Expected;
use tinyc::parser::ast::Expression;
use tinyc::parser::ast::Function;
use tinyc::parser::ast::ParseError;
use tinyc::parser::ast::Program;
use tinyc::parser::ast::Statement;
use tinyc::parser::ast::UnOp;
use tinyc::parser::token::lex;
use tinyc::parser::token::LexError;
use tinyc::parser::token::Token;

fn lexed(source: &str) -> Vec<Token> {
    lex(source.to_string()).expect("lexing should succeed")
}

#[test]
fn single_character_tokens() {
    assert_eq!(lex("{".to_string()), Ok(vec![Token::OpenBrace]));
    assert_eq!(lex("}".to_string()), Ok(vec![Token::CloseBrace]));
    assert_eq!(lex("(".to_string()), Ok(vec![Token::OpenParen]));
    assert_eq!(lex(")".to_string()), Ok(vec![Token::CloseParen]));
    assert_eq!(lex(";".to_string()), Ok(vec![Token::SemiColon]));
    assert_eq!(lex("~".to_string()), Ok(vec![Token::BitComp]));
    assert_eq!(lex("!".to_string()), Ok(vec![Token::LogicalNeg]));
    assert_eq!(lex("-".to_string()), Ok(vec![Token::Negation]));
    assert_eq!(lex("+".to_string()), Ok(vec![Token::Addition]));
    assert_eq!(lex("*".to_string()), Ok(vec![Token::Multiplication]));
    assert_eq!(lex("/".to_string()), Ok(vec![Token::Division]));
}

#[test]
fn identifier_runs() {
    assert_eq!(
        lex("main".to_string()),
        Ok(vec![Token::Identifier("main".to_string())])
    );
    assert_eq!(
        lex("a1".to_string()),
        Ok(vec![Token::Identifier("a1".to_string())])
    );
    assert_eq!(
        lex("ints".to_string()),
        Ok(vec![Token::Identifier("ints".to_string())])
    );
    assert_eq!(
        lex("returned".to_string()),
        Ok(vec![Token::Identifier("returned".to_string())])
    );
}

#[test]
fn reserved_words() {
    assert_eq!(
        lex("int".to_string()),
        Ok(vec![Token::Keyword("int".to_string())])
    );
    assert_eq!(
        lex("return".to_string()),
        Ok(vec![Token::Keyword("return".to_string())])
    );
}

#[test]
fn literal_runs() {
    assert_eq!(lex("0".to_string()), Ok(vec![Token::Literal(0)]));
    assert_eq!(lex("123".to_string()), Ok(vec![Token::Literal(123)]));
    assert_eq!(lex("007".to_string()), Ok(vec![Token::Literal(7)]));
    assert_eq!(
        lex("18446744073709551615".to_string()),
        Ok(vec![Token::Literal(18446744073709551615)])
    );
}

#[test]
fn literal_overflow() {
    assert_eq!(
        lex("18446744073709551616".to_string()),
        Err(LexError::NumericOverflow)
    );
    assert_eq!(
        lex("99999999999999999999999".to_string()),
        Err(LexError::NumericOverflow)
    );
}

#[test]
fn digit_run_stops_at_letter() {
    assert_eq!(
        lex("1a".to_string()),
        Ok(vec![Token::Literal(1), Token::Identifier("a".to_string())])
    );
}

#[test]
fn whitespace_is_skipped() {
    assert_eq!(
        lex(" \t\r\n int \n main \t".to_string()),
        Ok(vec![
            Token::Keyword("int".to_string()),
            Token::Identifier("main".to_string()),
        ])
    );
    assert_eq!(lex("   ".to_string()), Ok(vec![]));
}

#[test]
fn empty_input() {
    assert_eq!(lex("".to_string()), Ok(vec![]));
    assert_eq!(parse_program(vec![]), Ok(Program { func: vec![] }));
}

#[test]
fn round_trip_single_function() {
    let program = parse_program(lexed("int main(){return 2;}"));
    assert_eq!(
        program,
        Ok(Program {
            func: vec![Function {
                name: "main".to_string(),
                statement: Statement::Return(Expression::Int(2)),
            }],
        })
    );
}

#[test]
fn nested_unary_chain() {
    let program = parse_program(lexed("int main(){return !-~5;}"));
    assert_eq!(
        program,
        Ok(Program {
            func: vec![Function {
                name: "main".to_string(),
                statement: Statement::Return(Expression::UnOp(
                    UnOp::LogicalNeg,
                    Box::new(Expression::UnOp(
                        UnOp::Negation,
                        Box::new(Expression::UnOp(
                            UnOp::BitComp,
                            Box::new(Expression::Int(5)),
                        )),
                    )),
                )),
            }],
        })
    );
}

#[test]
fn multiple_functions_in_source_order() {
    let program = parse_program(lexed("int a(){return 1;} int b(){return 2;}"));
    assert_eq!(
        program,
        Ok(Program {
            func: vec![
                Function {
                    name: "a".to_string(),
                    statement: Statement::Return(Expression::Int(1)),
                },
                Function {
                    name: "b".to_string(),
                    statement: Statement::Return(Expression::Int(2)),
                },
            ],
        })
    );
}

#[test]
fn unexpected_character_fails_lexing() {
    assert_eq!(
        lex("int main(){return 2;}@".to_string()),
        Err(LexError::UnexpectedCharacter('@'))
    );
    assert_eq!(
        lex("int #main(){return 2;}".to_string()),
        Err(LexError::UnexpectedCharacter('#'))
    );
}

#[test]
fn missing_close_brace_reports_end_of_input() {
    let result = parse_program(lexed("int main(){return 2;"));
    assert_eq!(
        result,
        Err(ParseError::UnexpectedToken {
            expected: Expected::CloseBrace,
            found: None,
        })
    );
}

#[test]
fn trailing_tokens_after_function() {
    let result = parse_program(lexed("int main(){return 2;};"));
    assert_eq!(result, Err(ParseError::UnexpectedTrailingTokens));
}

#[test]
fn trailing_tokens_without_function() {
    assert_eq!(
        parse_program(lexed(";")),
        Err(ParseError::UnexpectedTrailingTokens)
    );
    assert_eq!(
        parse_program(lexed("main")),
        Err(ParseError::UnexpectedTrailingTokens)
    );
}

#[test]
fn lex_twice_yields_equal_outputs() {
    let source = "int main(){return !-~5;}";
    assert_eq!(lex(source.to_string()), lex(source.to_string()));
    let bad = "int main(){return 2;}@";
    assert_eq!(lex(bad.to_string()), lex(bad.to_string()));
}

#[test]
fn parse_twice_yields_equal_outputs() {
    let source = "int a(){return 1;} int b(){return 2;}";
    assert_eq!(
        parse_program(lexed(source)),
        parse_program(lexed(source))
    );
    let bad = "int main(){return 2;";
    assert_eq!(
        parse_program(lexed(bad)),
        parse_program(lexed(bad))
    );
}

#[test]
fn statement_must_start_with_return() {
    let result = parse_program(lexed("int main(){2;}"));
    assert_eq!(
        result,
        Err(ParseError::UnexpectedToken {
            expected: Expected::KeywordReturn,
            found: Some(Token::Literal(2)),
        })
    );
}

#[test]
fn function_name_must_be_identifier() {
    let result = parse_program(lexed("int int(){return 2;}"));
    assert_eq!(
        result,
        Err(ParseError::UnexpectedToken {
            expected: Expected::FunctionName,
            found: Some(Token::Keyword("int".to_string())),
        })
    );
}

#[test]
fn parentheses_are_required() {
    assert_eq!(
        parse_program(lexed("int main){return 2;}")),
        Err(ParseError::UnexpectedToken {
            expected: Expected::OpenParen,
            found: Some(Token::CloseParen),
        })
    );
    assert_eq!(
        parse_program(lexed("int main({return 2;}")),
        Err(ParseError::UnexpectedToken {
            expected: Expected::CloseParen,
            found: Some(Token::OpenBrace),
        })
    );
    assert_eq!(
        parse_program(lexed("int main()return 2;}")),
        Err(ParseError::UnexpectedToken {
            expected: Expected::OpenBrace,
            found: Some(Token::Keyword("return".to_string())),
        })
    );
}

#[test]
fn semicolon_is_required() {
    let result = parse_program(lexed("int main(){return 2}"));
    assert_eq!(
        result,
        Err(ParseError::UnexpectedToken {
            expected: Expected::SemiColon,
            found: Some(Token::CloseBrace),
        })
    );
}

#[test]
fn expression_must_start_with_literal_or_unary_operator() {
    assert_eq!(
        parse_program(lexed("int main(){return ;}")),
        Err(ParseError::ExpectedExpression {
            found: Some(Token::SemiColon),
        })
    );
    assert_eq!(
        parse_program(lexed("int main(){return +2;}")),
        Err(ParseError::ExpectedExpression {
            found: Some(Token::Addition),
        })
    );
    assert_eq!(
        parse_program(lexed("int main(){return")),
        Err(ParseError::ExpectedExpression { found: None })
    );
}

#[test]
fn literal_expression_bounds() {
    assert_eq!(
        parse_program(lexed("int main(){return 2147483647;}")),
        Ok(Program {
            func: vec![Function {
                name: "main".to_string(),
                statement: Statement::Return(Expression::Int(2147483647)),
            }],
        })
    );
    assert_eq!(
        parse_program(lexed("int main(){return 2147483648;}")),
        Err(ParseError::ExpectedExpression {
            found: Some(Token::Literal(2147483648)),
        })
    );
}

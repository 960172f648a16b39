//! Tests of the lexer: token kinds, lexemes, locations, maximal munch,
//! comments, string literals, and the batched error report.

use nere::compiler::Compiler;
use nere::error::Error;
use nere::lexer::Lexer;
use nere::opcode::OpCode;
use nere::token::{Token, TokenType};
use nere::value::Value;

fn scan(source: &str) -> Vec<Token> {
    let mut lexer = Lexer::new(String::from("test.nere"), source);
    lexer.scan_tokens()
}

#[test]
fn scans_numbers_and_operators() {
    let tokens = scan("3 4 +");
    assert_eq!(tokens.len(), 4);
    assert!(matches!(&tokens[0].typ3, TokenType::Value(Value::Int32(3))));
    assert_eq!(tokens[0].lexeme, "3");
    assert!(matches!(&tokens[1].typ3, TokenType::Value(Value::Int32(4))));
    assert!(matches!(&tokens[2].typ3, TokenType::Instruction(OpCode::Add)));
    assert!(matches!(&tokens[3].typ3, TokenType::Eof));
}

#[test]
fn token_location_is_cursor_after_lexeme() {
    let tokens = scan("3 45");
    assert_eq!(tokens[0].location.line, 1);
    assert_eq!(tokens[0].location.column, 1);
    assert_eq!(tokens[1].location.line, 1);
    assert_eq!(tokens[1].location.column, 4);
}

#[test]
fn newline_resets_the_column_origin() {
    let tokens = scan("1\n2");
    assert_eq!(tokens[1].location.line, 2);
    assert_eq!(tokens[1].location.column, 1);
}

#[test]
fn keywords_scan_to_instructions() {
    let tokens = scan("dup if else while do");
    assert!(matches!(&tokens[0].typ3, TokenType::Instruction(OpCode::Dup)));
    assert!(matches!(&tokens[1].typ3, TokenType::Instruction(OpCode::If)));
    assert!(matches!(&tokens[2].typ3, TokenType::Instruction(OpCode::Else)));
    assert!(matches!(&tokens[3].typ3, TokenType::Instruction(OpCode::While)));
    assert!(matches!(&tokens[4].typ3, TokenType::Instruction(OpCode::Do)));
}

#[test]
fn braces_are_block_delimiters_not_instructions() {
    let tokens = scan("{ }");
    assert!(matches!(&tokens[0].typ3, TokenType::LBrace));
    assert!(matches!(&tokens[1].typ3, TokenType::RBrace));
}

#[test]
fn comparison_operators_take_the_longest_match() {
    let tokens = scan("<= < >= > = !");
    assert!(matches!(&tokens[0].typ3, TokenType::Instruction(OpCode::Lte)));
    assert!(matches!(&tokens[1].typ3, TokenType::Instruction(OpCode::Lt)));
    assert!(matches!(&tokens[2].typ3, TokenType::Instruction(OpCode::Gte)));
    assert!(matches!(&tokens[3].typ3, TokenType::Instruction(OpCode::Gt)));
    assert!(matches!(&tokens[4].typ3, TokenType::Instruction(OpCode::Eq)));
    assert!(matches!(&tokens[5].typ3, TokenType::Instruction(OpCode::Ne)));
}

#[test]
fn line_comment_consumes_to_end_of_line() {
    let tokens = scan("1 // all of this is skipped\n2");
    assert_eq!(tokens.len(), 3);
    assert!(matches!(&tokens[0].typ3, TokenType::Value(Value::Int32(1))));
    assert!(matches!(&tokens[1].typ3, TokenType::Value(Value::Int32(2))));
    assert_eq!(tokens[1].location.line, 2);
}

#[test]
fn single_slash_is_division() {
    let tokens = scan("6 2 /");
    assert!(matches!(&tokens[2].typ3, TokenType::Instruction(OpCode::Div)));
}

#[test]
fn string_literal_scans_verbatim() {
    let tokens = scan("\"hello world\"");
    match &tokens[0].typ3 {
        TokenType::Value(Value::String(s)) => assert_eq!(s, "hello world"),
        other => panic!("expected a string literal, got {other:?}"),
    }
    assert_eq!(tokens[0].lexeme, "hello world");
}

#[test]
fn string_literal_tracks_embedded_newlines() {
    let tokens = scan("\"a\nb\" 7");
    assert_eq!(tokens[0].location.line, 2);
    assert_eq!(tokens[1].location.line, 2);
}

#[test]
fn unterminated_string_is_an_error_token() {
    let tokens = scan("\"abc");
    assert!(matches!(&tokens[0].typ3, TokenType::Error));
    assert_eq!(tokens[0].lexeme, "unterminated string literal");
}

#[test]
fn unknown_identifier_is_an_error_token() {
    let tokens = scan("foo");
    assert!(matches!(&tokens[0].typ3, TokenType::Error));
    assert_eq!(tokens[0].lexeme, "unknown identifier 'foo'");
}

#[test]
fn unexpected_character_is_an_error_token() {
    let tokens = scan("@");
    assert!(matches!(&tokens[0].typ3, TokenType::Error));
    assert_eq!(tokens[0].lexeme, "unexpected character '@'");
}

#[test]
fn out_of_range_integer_is_an_error_token() {
    let tokens = scan("99999999999");
    assert!(matches!(&tokens[0].typ3, TokenType::Error));
    assert_eq!(tokens[0].lexeme, "integer literal out of range '99999999999'");
}

#[test]
fn scanning_is_total_and_collects_every_error() {
    let tokens = scan("foo @ \"x");
    let errors = tokens
        .iter()
        .filter(|t| matches!(t.typ3, TokenType::Error))
        .count();
    assert_eq!(errors, 3);
    assert!(matches!(&tokens[tokens.len() - 1].typ3, TokenType::Eof));
}

#[test]
fn lexical_errors_abort_compilation_as_a_batch() {
    let compiler = Compiler::default();
    match compiler.compile("t.nere", "foo bar") {
        Err(Error::ParseError(m)) => {
            assert_eq!(
                m,
                "<t.nere:1:3> parse error: unknown identifier 'foo'\n<t.nere:1:7> parse error: unknown identifier 'bar'"
            );
        },
        other => panic!("expected a batched parse error, got {other:?}"),
    }
}

#[test]
fn unresolved_if_is_a_compile_error() {
    let compiler = Compiler::default();
    match compiler.compile("t.nere", "1 if 2") {
        Err(Error::CompileError(m, loc)) => {
            assert!(m.starts_with("block was not referenced"));
            assert_eq!(loc.line, 1);
        },
        other => panic!("expected a compile error, got {other:?}"),
    }
}

#[test]
fn else_without_if_is_a_compile_error() {
    let compiler = Compiler::default();
    match compiler.compile("t.nere", "else { }") {
        Err(Error::CompileError(m, _)) => {
            assert_eq!(m, "'else' has no matching 'if' block");
        },
        other => panic!("expected a compile error, got {other:?}"),
    }
}

#[test]
fn stray_closing_brace_is_ignored_by_the_cross_reference() {
    // a closing brace with nothing pending contributes nothing
    let compiler = Compiler::default();
    assert!(compiler.compile("t.nere", "} 1").is_ok());
}

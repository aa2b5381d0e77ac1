use lexer::ast::scanner::Scanner;
use lexer::ast::tokens::LiteralValue;
use lexer::ast::tokens::TokenType;
use lexer::ast::tokens::TokenType::{
    AmpAmp, Arrow, CharLit, Colon, DotDot, Eof, Equal, FStringLit, FatArrow, FloatLit,
    Identifier, IntLit, LeftBrace, Let, MinusEqual, PipePipe, PlusEqual, Question,
    RightBrace, Semicolon, SlashEqual, StarEqual, Struct,
};

#[test]
fn test_basic_tokens() {
    let mut scanner = Scanner::new("let x: int = 42;");
    let tokens = scanner.scan_tokens().expect("Scan failed");

    assert_eq!(tokens[0].token_type, Let);
    assert_eq!(tokens[1].token_type, Identifier);
    assert_eq!(tokens[2].token_type, Colon);
    assert_eq!(tokens[3].token_type, Identifier);
    assert_eq!(tokens[4].token_type, Equal);
    assert_eq!(tokens[5].token_type, IntLit);
    assert_eq!(tokens[6].token_type, Semicolon);
    assert_eq!(tokens[7].token_type, Eof);
}

#[test]
fn test_explicit_semicolon() {
    let mut scanner = Scanner::new("let x = 10;\n let y = 20;");
    let tokens = scanner.scan_tokens().expect("Scan failed");
    let types: Vec<TokenType> = tokens.iter().map(|t| t.token_type).collect();

    assert_eq!(types, vec![
        Let, Identifier, Equal, IntLit, Semicolon,
        Let, Identifier, Equal, IntLit, Semicolon,
        Eof,
    ]);
}

#[test]
#[should_panic]
fn test_many_semicolons() {
    let mut scanner = Scanner::new("let x = 10;;;\n let y = 20;");
    let tokens = scanner.scan_tokens().expect("Scan failed");
    let types: Vec<TokenType> = tokens.iter().map(|t| t.token_type).collect();

    assert_eq!(types, vec![
        Let, Identifier, Equal, IntLit, Semicolon,
        Let, Identifier, Equal, IntLit, Semicolon,
        Eof,
    ]);
}

#[test]
fn test_newlines_do_not_insert_semicolon() {
    let mut scanner = Scanner::new("let x = 10\nlet y = 20");
    let tokens = scanner.scan_tokens().expect("Scan failed");
    let types: Vec<TokenType> = tokens.iter().map(|t| t.token_type).collect();

    assert_eq!(types, vec![
        Let, Identifier, Equal, IntLit,
        Let, Identifier, Equal, IntLit,
        Eof,
    ]);
}

#[test]
fn test_no_semicolon_after_brace_open() {
    let mut scanner = Scanner::new("if x > 0 { print(x) }");
    let tokens = scanner.scan_tokens().expect("Scan failed");

    let has_semi_after_brace = tokens.windows(2).any(|w| {
        w[0].token_type == LeftBrace && w[1].token_type == Semicolon
    });
    assert!(!has_semi_after_brace);
}

#[test]
fn test_float_int() {
    let mut scanner = Scanner::new("42 3.14");
    let tokens = scanner.scan_tokens().expect("Scan failed");

    assert_eq!(tokens[0].token_type, IntLit);
    assert_eq!(tokens[1].token_type, FloatLit);
}

#[test]
fn test_arrow_and_fat_arrow() {
    let mut scanner = Scanner::new("-> =>");
    let tokens = scanner.scan_tokens().expect("Scan failed");

    assert_eq!(tokens[0].token_type, Arrow);
    assert_eq!(tokens[1].token_type, FatArrow);
}

#[test]
fn test_dot_dot() {
    let mut scanner = Scanner::new("0..10");
    let tokens = scanner.scan_tokens().expect("Scan failed");

    assert_eq!(tokens[0].token_type, IntLit);
    assert_eq!(tokens[1].token_type, DotDot);
    assert_eq!(tokens[2].token_type, IntLit);
}

#[test]
fn test_dash_dash_comment() {
    let mut scanner = Scanner::new("let x = 5; -- this is a comment\nlet y = 10;");
    let tokens = scanner.scan_tokens().expect("Scan failed");
    let types: Vec<TokenType> = tokens.iter().map(|t| t.token_type).collect();

    assert_eq!(types, vec![
        Let, Identifier, Equal, IntLit, Semicolon,
        Let, Identifier, Equal, IntLit, Semicolon,
        Eof,
    ]);
}

#[test]
fn test_logical_operators() {
    let mut scanner = Scanner::new("a && b || c;");
    let tokens = scanner.scan_tokens().expect("Scan failed");
    let types: Vec<TokenType> = tokens.iter().map(|t| t.token_type).collect();

    assert_eq!(types, vec![
        Identifier, AmpAmp, Identifier, PipePipe, Identifier, Semicolon, Eof,
    ]);
}

#[test]
fn test_compound_assignment() {
    let mut scanner = Scanner::new("x += 1; y -= 2; z *= 3; w /= 4;");
    let tokens = scanner.scan_tokens().expect("Scan failed");
    let types: Vec<TokenType> = tokens.iter().map(|t| t.token_type).collect();

    assert_eq!(types, vec![
        Identifier, PlusEqual, IntLit, Semicolon,
        Identifier, MinusEqual, IntLit, Semicolon,
        Identifier, StarEqual, IntLit, Semicolon,
        Identifier, SlashEqual, IntLit, Semicolon,
        Eof,
    ]);

    let mut scanner = Scanner::new("x += 1;\n y -= 2;\n z *= 3;\n w /= 4;\n");
    let tokens = scanner.scan_tokens().expect("Scan failed");
    let types: Vec<TokenType> = tokens.iter().map(|t| t.token_type).collect();

    assert_eq!(types, vec![
        Identifier, PlusEqual, IntLit, Semicolon,
        Identifier, MinusEqual, IntLit, Semicolon,
        Identifier, StarEqual, IntLit, Semicolon,
        Identifier, SlashEqual, IntLit, Semicolon,
        Eof,
    ]);
}

#[test]
fn test_compound_assignment_without_semicolons() {
    let mut scanner = Scanner::new("x += 1 y -= 2 z *= 3 w /= 4");
    let tokens = scanner.scan_tokens().expect("Scan failed");
    let types: Vec<TokenType> = tokens.iter().map(|t| t.token_type).collect();

    assert_eq!(types, vec![
        Identifier, PlusEqual, IntLit,
        Identifier, MinusEqual, IntLit,
        Identifier, StarEqual, IntLit,
        Identifier, SlashEqual, IntLit,
        Eof,
    ]);
}

#[test]
fn test_question_mark() {
    let mut scanner = Scanner::new("val?");
    let tokens = scanner.scan_tokens().expect("Scan failed");

    assert_eq!(tokens[0].token_type, Identifier);
    assert_eq!(tokens[1].token_type, Question);
}

#[test]
fn test_char_literal() {
    let mut scanner = Scanner::new("'a' 'z'");
    let tokens = scanner.scan_tokens().expect("Scan failed");

    assert_eq!(tokens[0].token_type, CharLit);
    assert_eq!(tokens[1].token_type, CharLit);

    if let Some(LiteralValue::CharValue(c)) = &tokens[0].literal {
        assert_eq!(*c, 'a');
    } else {
        panic!("Expected CharValue");
    }
}

#[test]
#[should_panic]
fn test_many_char_literal() {
    let mut scanner = Scanner::new("'abc' 'z'");
    let tokens = scanner.scan_tokens().expect("Scan failed");

    assert_eq!(tokens[0].token_type, CharLit);
    assert_eq!(tokens[1].token_type, CharLit);

    if let Some(LiteralValue::CharValue(c)) = &tokens[0].literal {
        assert_eq!(*c, 'a');
    } else {
        panic!("Expected CharValue");
    }
}

#[test]
fn test_char_escape() {
    let mut scanner = Scanner::new("'\\n' '\\t' '\\\\' '\\''");
    let tokens = scanner.scan_tokens().expect("Scan failed");

    let chars: Vec<char> = tokens.iter().filter(|t| t.token_type == CharLit).map(|t| {
        match &t.literal {
            Some(LiteralValue::CharValue(c)) => *c,
            _ => panic!("Expected CharValue"),
        }
    }).collect();

    assert_eq!(chars, vec!['\n', '\t', '\\', '\'']);
}

#[test]
fn test_fstring() {
    let mut scanner = Scanner::new("f\"hello {name}\"");
    let tokens = scanner.scan_tokens().expect("Scan failed");

    assert_eq!(tokens[0].token_type, FStringLit);

    if let Some(LiteralValue::StringValue(s)) = &tokens[0].literal {
        assert_eq!(s, "hello {name}");
    } else {
        panic!("Expected StringValue in FStringLit");
    }
}

#[test]
fn test_struct_definition() {
    let example = "struct Player {\n\t name: str;\n\t health: int;\n};";
    let mut scanner = Scanner::new(example);

    let tokens = scanner.scan_tokens().expect("Scan failed");
    let types: Vec<TokenType> = tokens.iter().map(|t| t.token_type).collect();

    assert_eq!(types, vec![
        Struct, Identifier, LeftBrace,
        Identifier, Colon, Identifier, Semicolon,
        Identifier, Colon, Identifier, Semicolon,
        RightBrace, Semicolon,
        Eof,
    ]);
}

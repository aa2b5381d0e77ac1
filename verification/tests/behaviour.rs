use lexer::ast::scanner::Scanner;
use lexer::ast::tokens::{LiteralValue, Token, TokenType};
use lexer::types::Type;

fn scan(src: &str) -> Result<Vec<Token>, String> {
    Scanner::new(src).scan_tokens()
}

fn kinds(src: &str) -> Vec<TokenType> {
    scan(src).expect("Scan failed").iter().map(|t| t.token_type).collect()
}

#[test]
fn empty_source_gives_only_eof() {
    let tokens = scan("").expect("Scan failed");
    assert_eq!(tokens.len(), 1);
    assert_eq!(tokens[0].token_type, TokenType::Eof);
    assert_eq!(tokens[0].lexeme, "");
    assert_eq!(tokens[0].line_number, 1);
}

#[test]
fn every_keyword_is_recognised() {
    let src = "fn let return struct enum extend interface match if else while for in loop \
               break continue defer region use public async true false or as self mut move";
    assert_eq!(kinds(src), vec![
        TokenType::Fn, TokenType::Let, TokenType::Return, TokenType::Struct, TokenType::Enum,
        TokenType::Extend, TokenType::Interface, TokenType::Match, TokenType::If,
        TokenType::Else, TokenType::While, TokenType::For, TokenType::In, TokenType::Loop,
        TokenType::Break, TokenType::Continue, TokenType::Defer, TokenType::Region,
        TokenType::Use, TokenType::Public, TokenType::Async, TokenType::True, TokenType::False,
        TokenType::Or, TokenType::As, TokenType::SelfKw, TokenType::Mut, TokenType::Move,
        TokenType::Eof,
    ]);
}

#[test]
fn words_near_keywords_are_identifiers() {
    assert_eq!(kinds("lets fnx f iff _x x1 x_y"), vec![
        TokenType::Identifier, TokenType::Identifier, TokenType::Identifier,
        TokenType::Identifier, TokenType::Identifier, TokenType::Identifier,
        TokenType::Identifier, TokenType::Eof,
    ]);
}

#[test]
fn non_ascii_letters_make_identifiers() {
    let tokens = scan("héllo é").expect("Scan failed");
    assert_eq!(tokens[0].token_type, TokenType::Identifier);
    assert_eq!(tokens[0].lexeme, "héllo");
    assert_eq!(tokens[1].token_type, TokenType::Identifier);
    assert_eq!(tokens[1].lexeme, "é");
}

#[test]
fn lone_underscore() {
    assert_eq!(kinds("_ _a"), vec![TokenType::Underscore, TokenType::Identifier, TokenType::Eof]);
}

#[test]
fn all_operators() {
    assert_eq!(kinds("( ) { } [ ] , . : ; + - * / % & _ ? ! != = == > >= < <= -> => .. :: && || += -= *= /="), vec![
        TokenType::LeftParen, TokenType::RightParen, TokenType::LeftBrace,
        TokenType::RightBrace, TokenType::LeftBracket, TokenType::RightBracket,
        TokenType::Comma, TokenType::Dot, TokenType::Colon, TokenType::Semicolon,
        TokenType::Plus, TokenType::Minus, TokenType::Star, TokenType::Slash,
        TokenType::Percent, TokenType::Ampersand, TokenType::Underscore, TokenType::Question,
        TokenType::Bang, TokenType::BangEqual, TokenType::Equal, TokenType::EqualEqual,
        TokenType::Greater, TokenType::GreaterEqual, TokenType::Less, TokenType::LessEqual,
        TokenType::Arrow, TokenType::FatArrow, TokenType::DotDot, TokenType::ColonColon,
        TokenType::AmpAmp, TokenType::PipePipe, TokenType::PlusEqual, TokenType::MinusEqual,
        TokenType::StarEqual, TokenType::SlashEqual, TokenType::Eof,
    ]);
}

#[test]
fn lexemes_are_the_source_text() {
    let tokens = scan("let x1 = 42 + y;").expect("Scan failed");
    let lexemes: Vec<&str> = tokens.iter().map(|t| t.lexeme.as_str()).collect();
    assert_eq!(lexemes, vec!["let", "x1", "=", "42", "+", "y", ";", ""]);
}

#[test]
fn integer_values() {
    let tokens = scan("0 007 9223372036854775807").expect("Scan failed");
    let values: Vec<i64> = tokens.iter().filter_map(|t| match &t.literal {
        Some(LiteralValue::IntValue(v)) => Some(*v),
        _ => None,
    }).collect();
    assert_eq!(values, vec![0, 7, 9223372036854775807]);
}

#[test]
fn integer_too_large_is_an_error() {
    assert_eq!(
        scan("x = 9223372036854775808;").unwrap_err(),
        "Line 1: invalid integer '9223372036854775808'\n",
    );
}

#[test]
fn float_literal_carries_its_text() {
    let tokens = scan("3.14 2. 1..2").expect("Scan failed");
    assert_eq!(tokens[0].token_type, TokenType::FloatLit);
    match &tokens[0].literal {
        Some(LiteralValue::FloatValue(text)) => assert_eq!(text, "3.14"),
        _ => panic!("Expected FloatValue"),
    }
    assert_eq!(tokens[1].token_type, TokenType::IntLit);
    assert_eq!(tokens[2].token_type, TokenType::Dot);
    assert_eq!(tokens[3].token_type, TokenType::IntLit);
    assert_eq!(tokens[4].token_type, TokenType::DotDot);
    assert_eq!(tokens[5].token_type, TokenType::IntLit);
}

#[test]
fn string_literal_value_and_lines() {
    let tokens = scan("\"a\nb\" x").expect("Scan failed");
    assert_eq!(tokens[0].token_type, TokenType::StringLit);
    assert_eq!(tokens[0].lexeme, "\"a\nb\"");
    match &tokens[0].literal {
        Some(LiteralValue::StringValue(s)) => assert_eq!(s, "a\nb"),
        _ => panic!("Expected StringValue"),
    }
    assert_eq!(tokens[0].line_number, 2);
    assert_eq!(tokens[1].line_number, 2);
}

#[test]
fn line_numbers_ascend() {
    let tokens = scan("a\nb\n\nc -- note\nd").expect("Scan failed");
    let lines: Vec<usize> = tokens.iter().map(|t| t.line_number).collect();
    assert_eq!(lines, vec![1, 2, 4, 5, 5]);
}

#[test]
fn comment_to_end_of_input() {
    assert_eq!(kinds("x -- all of this"), vec![TokenType::Identifier, TokenType::Eof]);
}

#[test]
fn unterminated_string_is_an_error() {
    assert_eq!(scan("\"abc\nd").unwrap_err(), "Line 2: unterminated string\n");
}

#[test]
fn unterminated_format_string_is_dropped() {
    assert_eq!(kinds("f\"abc"), vec![TokenType::Eof]);
}

#[test]
fn lone_pipe_is_an_error() {
    assert_eq!(scan("a | b").unwrap_err(), "Line 1: unexpected '|', did you mean '||'?\n");
}

#[test]
fn unrecognized_character_is_an_error() {
    assert_eq!(scan("\n\n#").unwrap_err(), "Line 3: unrecognized character '#'\n");
}

#[test]
fn repeated_semicolons_are_an_error() {
    assert_eq!(scan("x;;;").unwrap_err(), "Line 1: unexpected \";;;\"\n");
    assert_eq!(scan("x; ;").unwrap_err(), "Line 1: unexpected \";\"\n");
}

#[test]
fn char_literal_errors() {
    assert_eq!(scan("'a").unwrap_err(), "Line 1: unterminated char literal\n");
    assert_eq!(scan("'").unwrap_err(), "Line 1: unterminated char literal\n");
    assert_eq!(scan("'ab'").unwrap_err(), "Line 1: multi-char literal is not allowed\nLine 1: unterminated char literal\n");
    assert_eq!(scan("'\\q'").unwrap_err(), "Line 1: unknown escape '\\q'\nLine 1: unterminated char literal\n");
}

#[test]
fn all_char_escapes() {
    let tokens = scan("'\\r' '\\0' 'x'").expect("Scan failed");
    let chars: Vec<char> = tokens.iter().filter_map(|t| match &t.literal {
        Some(LiteralValue::CharValue(c)) => Some(*c),
        _ => None,
    }).collect();
    assert_eq!(chars, vec!['\r', '\0', 'x']);
}

#[test]
fn several_errors_are_joined_in_order() {
    assert_eq!(scan("# x |\n@").unwrap_err(),
        "Line 1: unrecognized character '#'\nLine 1: unexpected '|', did you mean '||'?\nLine 2: unrecognized character '@'\n");
}

#[test]
fn errors_still_add_tokens() {
    let mut scanner = Scanner::new("a # b");
    assert!(scanner.scan_tokens().is_err());
    let kinds: Vec<TokenType> = scanner.tokens.iter().map(|t| t.token_type).collect();
    assert_eq!(kinds, vec![TokenType::Identifier, TokenType::Identifier, TokenType::Eof]);
}

#[test]
fn scanning_again_adds_another_eof() {
    let mut scanner = Scanner::new("a");
    scanner.scan_tokens().expect("Scan failed");
    let tokens = scanner.scan_tokens().expect("Scan failed");
    assert_eq!(tokens.len(), 3);
    assert_eq!(tokens[1].token_type, TokenType::Eof);
    assert_eq!(tokens[2].token_type, TokenType::Eof);
}

#[test]
fn semicolon_after_an_earlier_scan_is_checked() {
    let mut scanner = Scanner::new("a;");
    scanner.scan_tokens().expect("Scan failed");
    assert!(scanner.scan_tokens().is_ok());
}

#[test]
fn checked_scan_reports_a_dangling_escape() {
    let mut scanner = Scanner::new("x '\\");
    assert!(scanner.scan_tokens_checked().is_none());
    assert!(scanner.tokens.is_empty());

    let mut scanner = Scanner::new("x 'y'");
    let tokens = scanner.scan_tokens_checked().expect("no dangling escape").expect("Scan failed");
    assert_eq!(tokens.len(), 3);
    assert_eq!(tokens[1].token_type, TokenType::CharLit);
}

#[test]
fn token_type_names() {
    assert_eq!(TokenType::LeftParen.to_string(), "LeftParen");
    assert_eq!(TokenType::SelfKw.to_string(), "SelfKw");
    assert_eq!(TokenType::Eof.to_string(), "Eof");
}

#[test]
fn type_from_str() {
    assert_eq!(Type::from_str("int"), Type::Int);
    assert_eq!(Type::from_str("u128"), Type::U128);
    assert_eq!(Type::from_str("()"), Type::Unit);
    assert_eq!(Type::from_str("Player"), Type::Struct("Player".to_string()));
    assert_eq!(Type::from_str(""), Type::Struct(String::new()));
}

#[test]
fn type_text_round_trip() {
    for name in ["int", "float", "i8", "i16", "i32", "i64", "i128", "u8", "u16", "u32", "u64",
                 "u128", "isize", "usize", "f32", "f64", "bool", "char", "str", "()", "Point"] {
        assert_eq!(Type::from_str(name).to_string(), name);
    }
    assert_eq!(Type::Generic("T".to_string()).to_string(), "T");
}

#[test]
fn type_predicates() {
    assert!(Type::I32.is_integer() && Type::I32.is_numeric() && Type::I32.is_signed());
    assert!(Type::U8.is_integer() && !Type::U8.is_signed() && !Type::U8.is_float());
    assert!(Type::F64.is_float() && Type::F64.is_numeric() && Type::F64.is_signed());
    assert!(!Type::Bool.is_numeric() && !Type::Bool.is_signed());
    assert!(!Type::Struct("Point".to_string()).is_numeric());
    assert!(Type::Float.is_float() && !Type::Float.is_integer());
}

#[test]
fn text_between_tokens_is_blank_space_and_comments() {
    let src = "let x = 1; -- first\n\tx += 2\r\n-- last";
    let tokens = scan(src).expect("Scan failed");
    let chars: Vec<char> = src.chars().collect();
    let mut pos = 0;
    let mut line = 1;
    for t in &tokens[..tokens.len() - 1] {
        let lexeme: Vec<char> = t.lexeme.chars().collect();
        let mut a = pos;
        while chars[a..a + lexeme.len()] != lexeme[..] {
            a += 1;
        }
        let gap: String = chars[pos..a].iter().collect();
        for part in gap.split('\n') {
            let part = part.trim_start_matches(|c| c == ' ' || c == '\t' || c == '\r');
            assert!(part.is_empty() || part.starts_with("--"), "gap {:?}", gap);
        }
        line += gap.matches('\n').count();
        assert_eq!(t.line_number, line);
        pos = a + lexeme.len();
    }
    let tail: String = chars[pos..].iter().collect();
    assert_eq!(tail, "\r\n-- last");
    assert_eq!(tokens[tokens.len() - 1].line_number, 3);
}

#[test]
fn string_token_is_on_the_line_it_ends() {
    let tokens = scan("x \"a\n\nb\" y").expect("Scan failed");
    let lines: Vec<usize> = tokens.iter().map(|t| t.line_number).collect();
    assert_eq!(lines, vec![1, 3, 3, 3]);
}

#[test]
fn error_text_starts_with_line_and_ends_with_break() {
    let e = scan("a\n|\n\"x").unwrap_err();
    assert!(e.starts_with("Line 2"));
    assert!(e.ends_with('\n'));
    assert_eq!(e, "Line 2: unexpected '|', did you mean '||'?\nLine 3: unterminated string\n");
}

#[test]
fn tokens_accessor_shows_the_token_list() {
    let mut scanner = Scanner::new("let x = 10;;;\n let y = 20;");
    assert!(scanner.tokens().is_empty());
    assert_eq!(scanner.scan_tokens().unwrap_err(), "Line 1: unexpected \";;;\"\n");
    let kinds: Vec<TokenType> = scanner.tokens().iter().map(|t| t.token_type).collect();
    assert_eq!(kinds, vec![
        TokenType::Let, TokenType::Identifier, TokenType::Equal, TokenType::IntLit,
        TokenType::Semicolon, TokenType::Let, TokenType::Identifier, TokenType::Equal,
        TokenType::IntLit, TokenType::Semicolon, TokenType::Eof,
    ]);
}

#[test]
fn checked_scan_of_a_comment_ending_in_quote_backslash() {
    let mut scanner = Scanner::new("x -- '\\");
    let tokens = scanner.scan_tokens_checked().expect("runs to the end").expect("Scan failed");
    assert_eq!(tokens.len(), 2);
}

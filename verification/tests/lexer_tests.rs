use foundrydb::command::{dot_command, DotCommand};
use foundrydb::lexer::Lexer;
use foundrydb::token::{Token, TokenKind};

fn lex(input: &str) -> Vec<Token<'_>> {
    Lexer::new(input).lex().unwrap()
}

fn kinds(tokens: &[Token<'_>]) -> Vec<TokenKind> {
    tokens.iter().map(|t| t.kind).collect()
}

#[test]
fn lex_simple_select() {
    let tokens = lex("SELECT a FROM t");
    assert_eq!(
        kinds(&tokens),
        vec![TokenKind::Select, TokenKind::Identifier, TokenKind::From, TokenKind::Identifier, TokenKind::Eof]
    );
    let lexemes: Vec<&str> = tokens.iter().map(|t| t.lexeme).collect();
    assert_eq!(lexemes, vec!["SELECT", "a", "FROM", "t", ""]);
    let positions: Vec<usize> = tokens.iter().map(|t| t.position).collect();
    assert_eq!(positions, vec![0, 7, 9, 14, 15]);
}

#[test]
fn lex_empty_input_gives_only_eof() {
    let tokens = lex("");
    assert_eq!(kinds(&tokens), vec![TokenKind::Eof]);
    assert_eq!(tokens[0].lexeme, "");
    assert_eq!(tokens[0].position, 0);
}

#[test]
fn lex_whitespace_only_gives_eof_at_byte_length() {
    let tokens = lex("  \t\n ");
    assert_eq!(kinds(&tokens), vec![TokenKind::Eof]);
    assert_eq!(tokens[0].position, 5);
}

#[test]
fn lex_keywords_ignore_case() {
    let tokens = lex("create TABLE Insert iNtO select VALUES from WhErE");
    assert_eq!(
        kinds(&tokens),
        vec![
            TokenKind::Create,
            TokenKind::Table,
            TokenKind::Insert,
            TokenKind::Into,
            TokenKind::Select,
            TokenKind::Values,
            TokenKind::From,
            TokenKind::Where,
            TokenKind::Eof
        ]
    );
    // the lexeme keeps the original spelling
    assert_eq!(tokens[1].lexeme, "TABLE");
}

#[test]
fn lex_words_that_are_not_keywords_are_identifiers() {
    let tokens = lex("selected _tmp col_1 tables");
    assert_eq!(
        kinds(&tokens),
        vec![TokenKind::Identifier, TokenKind::Identifier, TokenKind::Identifier, TokenKind::Identifier, TokenKind::Eof]
    );
    assert_eq!(tokens[1].lexeme, "_tmp");
    assert_eq!(tokens[2].lexeme, "col_1");
}

#[test]
fn lex_all_operators() {
    let tokens = lex("+ = < <= > >= ( ) ,");
    assert_eq!(
        kinds(&tokens),
        vec![
            TokenKind::Plus,
            TokenKind::Equal,
            TokenKind::LessThan,
            TokenKind::LessThanEqual,
            TokenKind::GreaterThan,
            TokenKind::GreaterThanEqual,
            TokenKind::LeftParen,
            TokenKind::RightParen,
            TokenKind::Comma,
            TokenKind::Eof
        ]
    );
    assert_eq!(tokens[3].lexeme, "<=");
    assert_eq!(tokens[5].lexeme, ">=");
    assert_eq!(tokens[5].position, 11);
}

#[test]
fn lex_operators_without_spaces() {
    let tokens = lex("a<=1,b>2");
    assert_eq!(
        kinds(&tokens),
        vec![
            TokenKind::Identifier,
            TokenKind::LessThanEqual,
            TokenKind::Number,
            TokenKind::Comma,
            TokenKind::Identifier,
            TokenKind::GreaterThan,
            TokenKind::Number,
            TokenKind::Eof
        ]
    );
}

#[test]
fn lex_less_than_at_end_of_input() {
    let tokens = lex("<");
    assert_eq!(kinds(&tokens), vec![TokenKind::LessThan, TokenKind::Eof]);
    assert_eq!(tokens[0].lexeme, "<");
}

#[test]
fn lex_numbers() {
    let tokens = lex("12 007 3x");
    assert_eq!(
        kinds(&tokens),
        vec![TokenKind::Number, TokenKind::Number, TokenKind::Number, TokenKind::Identifier, TokenKind::Eof]
    );
    assert_eq!(tokens[0].lexeme, "12");
    assert_eq!(tokens[1].lexeme, "007");
    assert_eq!(tokens[2].lexeme, "3");
    assert_eq!(tokens[3].lexeme, "x");
    assert_eq!(tokens[3].position, 8);
}

#[test]
fn lex_string_between_quotes() {
    let tokens = lex("'hello world' x");
    assert_eq!(kinds(&tokens), vec![TokenKind::String, TokenKind::Identifier, TokenKind::Eof]);
    assert_eq!(tokens[0].lexeme, "hello world");
    // the position of a string is that of its first character, after the quote
    assert_eq!(tokens[0].position, 1);
    assert_eq!(tokens[1].position, 14);
}

#[test]
fn lex_empty_string() {
    let tokens = lex("''");
    assert_eq!(kinds(&tokens), vec![TokenKind::String, TokenKind::Eof]);
    assert_eq!(tokens[0].lexeme, "");
    assert_eq!(tokens[0].position, 1);
    assert_eq!(tokens[1].position, 2);
}

#[test]
fn lex_unterminated_string_runs_to_the_end() {
    let tokens = lex("'abc");
    assert_eq!(kinds(&tokens), vec![TokenKind::String, TokenKind::Eof]);
    assert_eq!(tokens[0].lexeme, "abc");
    assert_eq!(tokens[1].position, 4);
}

#[test]
fn lex_lone_quote() {
    let tokens = lex("'");
    assert_eq!(kinds(&tokens), vec![TokenKind::String, TokenKind::Eof]);
    assert_eq!(tokens[0].lexeme, "");
    assert_eq!(tokens[0].position, 1);
    assert_eq!(tokens[1].position, 1);
}

#[test]
fn lex_positions_are_byte_offsets() {
    // 'é' takes two bytes in UTF-8
    let tokens = lex("é = 'ü' ,");
    assert_eq!(kinds(&tokens), vec![TokenKind::Identifier, TokenKind::Equal, TokenKind::String, TokenKind::Comma, TokenKind::Eof]);
    assert_eq!(tokens[0].lexeme, "é");
    assert_eq!(tokens[0].position, 0);
    assert_eq!(tokens[1].position, 3);
    assert_eq!(tokens[2].lexeme, "ü");
    assert_eq!(tokens[2].position, 6);
    assert_eq!(tokens[3].position, 10);
    assert_eq!(tokens[4].position, "é = 'ü' ,".len());
}

#[test]
fn lex_unicode_letters_and_digits() {
    // alphabetic and numeric are the Unicode properties
    let tokens = lex("京都 ٣٤");
    assert_eq!(kinds(&tokens), vec![TokenKind::Identifier, TokenKind::Number, TokenKind::Eof]);
    assert_eq!(tokens[0].lexeme, "京都");
    assert_eq!(tokens[1].lexeme, "٣٤");
    assert_eq!(tokens[1].position, 7);
}

#[test]
fn lex_unicode_whitespace_is_skipped() {
    let tokens = lex("a\u{A0}b");
    assert_eq!(kinds(&tokens), vec![TokenKind::Identifier, TokenKind::Identifier, TokenKind::Eof]);
    assert_eq!(tokens[1].position, 3);
}

#[test]
fn lex_invalid_character_is_an_error() {
    let mut lexer = Lexer::new("SELECT * FROM t");
    let err = lexer.lex().unwrap_err();
    let shown = err.to_string();
    assert_eq!(
        shown,
        "Syntax error: SELECT * FROM t\n                     ^\n                     |\n                      ------- Invalid character (*)\n"
    );
}

#[test]
fn lex_error_at_start() {
    let err = Lexer::new("; x").lex().unwrap_err();
    assert_eq!(
        err.to_string(),
        "Syntax error: ; x\n              ^\n              |\n               ------- Invalid character (;)\n"
    );
}

#[test]
fn lex_error_position_is_in_bytes() {
    // the caret is padded by the byte offset of the bad character
    let err = Lexer::new("é-").lex().unwrap_err();
    assert_eq!(
        err.to_string(),
        "Syntax error: é-\n                ^\n                |\n                 ------- Invalid character (-)\n"
    );
}

#[test]
fn lex_again_after_success_gives_only_eof() {
    let mut lexer = Lexer::new("a b");
    let first = lexer.lex().unwrap();
    assert_eq!(first.len(), 3);
    let second = lexer.lex().unwrap();
    assert_eq!(kinds(&second), vec![TokenKind::Eof]);
    assert_eq!(second[0].position, 3);
}

#[test]
fn lex_tokens_are_pieces_of_the_input() {
    let input = "INSERT INTO t (a, b) VALUES (1, 'x y')";
    let tokens = lex(input);
    let mut last = 0;
    for (i, t) in tokens.iter().enumerate() {
        assert!(t.position >= last);
        if i + 1 < tokens.len() {
            assert_eq!(&input[t.position..t.position + t.lexeme.len()], t.lexeme);
            if i > 0 {
                assert!(t.position > last);
            }
        }
        last = t.position;
    }
    assert_eq!(tokens.last().unwrap().kind, TokenKind::Eof);
    assert_eq!(tokens.iter().filter(|t| t.kind == TokenKind::Eof).count(), 1);
}

#[test]
fn dot_command_exit_in_any_case() {
    assert!(matches!(dot_command(".exit"), DotCommand::Exit));
    assert!(matches!(dot_command(".EXIT"), DotCommand::Exit));
    match dot_command(".Tables") {
        DotCommand::Unrecognized(s) => assert_eq!(s, ".tables"),
        DotCommand::Exit => panic!("not an exit"),
    }
}

#[test]
fn lex_leading_space_shifts_every_position() {
    let plain = lex("a <= 'é' 12");
    let spaced = lex(" a <= 'é' 12");
    assert_eq!(plain.len(), spaced.len());
    for (p, s) in plain.iter().zip(spaced.iter()) {
        assert_eq!(p.kind, s.kind);
        assert_eq!(p.lexeme, s.lexeme);
        assert_eq!(p.position + 1, s.position);
    }
    assert_eq!(spaced[spaced.len() - 1].position, " a <= 'é' 12".len());
}

#[test]
fn lex_leading_space_shifts_the_error() {
    let plain = Lexer::new("é;").lex().unwrap_err().to_string();
    let spaced = Lexer::new(" é;").lex().unwrap_err().to_string();
    assert_eq!(
        plain,
        "Syntax error: é;\n                ^\n                |\n                 ------- Invalid character (;)\n"
    );
    assert_eq!(
        spaced,
        "Syntax error:  é;\n                 ^\n                 |\n                  ------- Invalid character (;)\n"
    );
}

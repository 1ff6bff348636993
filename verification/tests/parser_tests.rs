use foundrydb::lexer::Lexer;
use foundrydb::parser::{ColumnDef, Comparison, ComparisonOp, DataType, Literal, Parser, Statement};
use foundrydb::token::{Token, TokenKind};

fn parse(input: &str) -> Vec<Statement<'_>> {
    let tokens = Lexer::new(input).lex().unwrap();
    Parser::new(tokens).parse().unwrap()
}

fn parse_error(input: &str) -> String {
    let tokens = Lexer::new(input).lex().unwrap();
    match Parser::new(tokens).parse() {
        Ok(_) => panic!("expected a parse error"),
        Err(e) => e.to_string(),
    }
}

#[test]
fn parse_nothing() {
    assert!(parse("").is_empty());
    assert!(parse("   ").is_empty());
}

#[test]
fn parse_select_without_where() {
    let statements = parse("SELECT a, b FROM t");
    assert_eq!(statements.len(), 1);
    match &statements[0] {
        Statement::Select { table, columns, where_clause } => {
            assert_eq!(*table, "t");
            assert_eq!(columns, &vec!["a", "b"]);
            assert!(where_clause.is_none());
        },
        _ => panic!("expected a SELECT"),
    }
}

#[test]
fn parse_select_with_where() {
    let statements = parse("select name from users where age >= 21");
    match &statements[0] {
        Statement::Select { table, columns, where_clause: Some(Comparison { column, op, value }) } => {
            assert_eq!(*table, "users");
            assert_eq!(columns, &vec!["name"]);
            assert_eq!(*column, "age");
            assert_eq!(*op, ComparisonOp::GtEq);
            assert!(matches!(value, Literal::Number(21)));
        },
        _ => panic!("expected a SELECT with a WHERE clause"),
    }
}

#[test]
fn parse_select_where_operators() {
    let cases = [
        ("=", ComparisonOp::Eq),
        ("<", ComparisonOp::Lt),
        ("<=", ComparisonOp::LtEq),
        (">", ComparisonOp::Gt),
        (">=", ComparisonOp::GtEq),
    ];
    for (text, expected) in cases {
        let input = format!("SELECT a FROM t WHERE a {text} 'v'");
        let statements = parse(&input);
        match &statements[0] {
            Statement::Select { where_clause: Some(c), .. } => {
                assert_eq!(c.op, expected);
                assert!(matches!(c.value, Literal::String("v")));
            },
            _ => panic!("expected a WHERE clause"),
        }
    }
}

#[test]
fn parse_insert_without_columns() {
    let statements = parse("INSERT INTO t VALUES (1, 'two', 3)");
    match &statements[0] {
        Statement::Insert { table, columns, values } => {
            assert_eq!(*table, "t");
            assert!(columns.is_none());
            assert_eq!(values.len(), 3);
            assert!(matches!(values[0], Literal::Number(1)));
            assert!(matches!(values[1], Literal::String("two")));
            assert!(matches!(values[2], Literal::Number(3)));
        },
        _ => panic!("expected an INSERT"),
    }
}

#[test]
fn parse_insert_with_columns() {
    let statements = parse("insert into people (name, age) values ('ann', 42)");
    match &statements[0] {
        Statement::Insert { table, columns: Some(cols), values } => {
            assert_eq!(*table, "people");
            assert_eq!(cols, &vec!["name", "age"]);
            assert_eq!(values.len(), 2);
        },
        _ => panic!("expected an INSERT with columns"),
    }
}

#[test]
fn parse_create_table() {
    let statements = parse("CREATE TABLE people (id INT, name VARCHAR(64), bio text)");
    match &statements[0] {
        Statement::Create { table, columns } => {
            assert_eq!(*table, "people");
            assert_eq!(columns.len(), 3);
            assert_eq!(columns[0].name, "id");
            assert_eq!(columns[0].data_type, DataType::Int);
            assert_eq!(columns[1].name, "name");
            assert_eq!(columns[1].data_type, DataType::VarChar(64));
            assert_eq!(columns[2].data_type, DataType::Text);
        },
        _ => panic!("expected a CREATE TABLE"),
    }
}

#[test]
fn parse_several_statements() {
    let statements = parse("CREATE TABLE t (a int) INSERT INTO t VALUES (1) SELECT a FROM t");
    assert_eq!(statements.len(), 3);
    assert!(matches!(statements[0], Statement::Create { .. }));
    assert!(matches!(statements[1], Statement::Insert { .. }));
    assert!(matches!(statements[2], Statement::Select { .. }));
}

#[test]
fn parse_number_keeps_its_value() {
    let statements = parse("INSERT INTO t VALUES (9223372036854775807, 0042)");
    match &statements[0] {
        Statement::Insert { values, .. } => {
            assert!(matches!(values[0], Literal::Number(9223372036854775807)));
            assert!(matches!(values[1], Literal::Number(42)));
        },
        _ => panic!("expected an INSERT"),
    }
}

#[test]
fn parse_error_not_a_statement() {
    assert_eq!(
        parse_error("FROM t"),
        "Parsing error near 'FROM' (0): Expected the start of a statement (SELECT, CREATE, INSERT), found From"
    );
}

#[test]
fn parse_error_expected_kind() {
    assert_eq!(parse_error("SELECT a t"), "Parsing error near 't' (9): Expected From; got Identifier");
    assert_eq!(parse_error("SELECT a FROM"), "Parsing error near '' (13): Expected Identifier; got Eof");
    assert_eq!(parse_error("INSERT t"), "Parsing error near 't' (7): Expected Into; got Identifier");
    assert_eq!(parse_error("CREATE TABLE t (a int"), "Parsing error near '' (21): Expected RightParen; got Eof");
}

#[test]
fn parse_error_missing_comparison_operator() {
    assert_eq!(
        parse_error("SELECT a FROM t WHERE a + 1"),
        "Parsing error near '+' (24): Expected a comparison operator; got Plus"
    );
}

#[test]
fn parse_error_not_a_literal() {
    assert_eq!(
        parse_error("INSERT INTO t VALUES (a)"),
        "Parsing error near 'a' (22): Expected a literal (number or string); got Identifier"
    );
}

#[test]
fn parse_error_number_too_large() {
    assert_eq!(
        parse_error("INSERT INTO t VALUES (9223372036854775808)"),
        "Parsing error near '9223372036854775808' (22): Error parsing number: number too large to fit in target type"
    );
}

#[test]
fn parse_error_number_that_is_not_ascii() {
    assert_eq!(
        parse_error("INSERT INTO t VALUES (٣)"),
        "Parsing error near '٣' (22): Error parsing number: invalid digit found in string"
    );
}

#[test]
fn parse_error_data_types() {
    assert_eq!(
        parse_error("CREATE TABLE t (a 5)"),
        "Parsing error near '5' (18): Expected a data type identifier; got Number"
    );
    assert_eq!(parse_error("CREATE TABLE t (a float)"), "Parsing error near 'float' (18): Unknown data type: float");
    assert_eq!(
        parse_error("CREATE TABLE t (a varchar 5)"),
        "Parsing error near '5' (26): Expected LeftParen; got Number"
    );
    assert_eq!(
        parse_error("CREATE TABLE t (a varchar(99999999999999999999999))"),
        "Parsing error near '99999999999999999999999' (26): Error parsing varchar size: number too large to fit in target type"
    );
}

#[test]
fn parse_stops_at_the_end_marker() {
    // whatever follows the first end marker is never read
    let mut tokens = Lexer::new("SELECT a FROM t").lex().unwrap();
    tokens.push(Token { kind: TokenKind::Comma, lexeme: ",", position: 99 });
    let statements = Parser::new(tokens).parse().unwrap();
    assert_eq!(statements.len(), 1);
}

#[test]
fn parse_hand_built_tokens() {
    let tokens = vec![
        Token { kind: TokenKind::Select, lexeme: "SELECT", position: 0 },
        Token { kind: TokenKind::Identifier, lexeme: "x", position: 7 },
        Token { kind: TokenKind::From, lexeme: "FROM", position: 9 },
        Token { kind: TokenKind::Identifier, lexeme: "y", position: 14 },
        Token { kind: TokenKind::Eof, lexeme: "", position: 15 },
    ];
    let statements = Parser::new(tokens).parse().unwrap();
    assert_eq!(statements[0].to_string(), "SELECT x FROM y");
}

#[test]
fn parse_column_def_fields() {
    let statements = parse("CREATE TABLE t (Name TEXT)");
    match &statements[0] {
        Statement::Create { columns, .. } => {
            let c: &ColumnDef<'_> = &columns[0];
            assert_eq!(c.name, "Name");
            assert_eq!(c.data_type, DataType::Text);
        },
        _ => panic!("expected a CREATE TABLE"),
    }
}

#[test]
fn parse_joined_texts_gives_both_statement_lists() {
    let first = parse("SELECT a FROM t WHERE a = 1");
    let second = parse("INSERT INTO t (a) VALUES (2) CREATE TABLE u (b text)");
    let joined = parse("SELECT a FROM t WHERE a = 1 INSERT INTO t (a) VALUES (2) CREATE TABLE u (b text)");
    let mut expected: Vec<String> = first.iter().map(|s| format!("{:?}", s)).collect();
    expected.extend(second.iter().map(|s| format!("{:?}", s)));
    let got: Vec<String> = joined.iter().map(|s| format!("{:?}", s)).collect();
    assert_eq!(got, expected);
    assert_eq!(got.len(), 3);
}

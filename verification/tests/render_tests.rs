use foundrydb::lexer::Lexer;
use foundrydb::parser::{ColumnDef, Comparison, ComparisonOp, DataType, Literal, Parser, Statement};

fn render(input: &str) -> Vec<String> {
    let tokens = Lexer::new(input).lex().unwrap();
    Parser::new(tokens).parse().unwrap().iter().map(|s| s.to_string()).collect()
}

#[test]
fn render_select() {
    assert_eq!(render("select a,b from t"), vec!["SELECT a, b FROM t"]);
    assert_eq!(render("select a from t where a < 'x'"), vec!["SELECT a FROM t WHERE a < 'x'"]);
}

#[test]
fn render_insert() {
    assert_eq!(render("insert into t values (1,'a')"), vec!["INSERT INTO t VALUES (1, 'a')"]);
    assert_eq!(render("insert into t (x, y) values (007)"), vec!["INSERT INTO t (x, y) VALUES (7)"]);
}

#[test]
fn render_create() {
    assert_eq!(
        render("create table t (a int, b varchar(10), c TEXT)"),
        vec!["CREATE TABLE t (a INT, b VARCHAR(10), c TEXT)"]
    );
}

#[test]
fn render_parts() {
    assert_eq!(ComparisonOp::Eq.to_string(), "=");
    assert_eq!(ComparisonOp::Lt.to_string(), "<");
    assert_eq!(ComparisonOp::LtEq.to_string(), "<=");
    assert_eq!(ComparisonOp::Gt.to_string(), ">");
    assert_eq!(ComparisonOp::GtEq.to_string(), ">=");
    assert_eq!(DataType::Int.to_string(), "INT");
    assert_eq!(DataType::Text.to_string(), "TEXT");
    assert_eq!(DataType::VarChar(0).to_string(), "VARCHAR(0)");
    assert_eq!(DataType::VarChar(18446744073709551615).to_string(), "VARCHAR(18446744073709551615)");
    assert_eq!(Literal::Number(-5).to_string(), "-5");
    assert_eq!(Literal::Number(0).to_string(), "0");
    assert_eq!(Literal::Number(i64::MIN).to_string(), "-9223372036854775808");
    assert_eq!(Literal::Number(i64::MAX).to_string(), "9223372036854775807");
    assert_eq!(Literal::String("").to_string(), "''");
    assert_eq!(Literal::String("it").to_string(), "'it'");
    assert_eq!(ColumnDef { name: "c", data_type: DataType::Int }.to_string(), "c INT");
    assert_eq!(
        Comparison { column: "c", op: ComparisonOp::GtEq, value: Literal::Number(3) }.to_string(),
        "c >= 3"
    );
}

#[test]
fn render_hand_built_statements() {
    let s = Statement::Insert { table: "t", columns: Some(vec!["a"]), values: vec![Literal::String("z")] };
    assert_eq!(s.to_string(), "INSERT INTO t (a) VALUES ('z')");
    let s = Statement::Select { table: "t", columns: vec![], where_clause: None };
    assert_eq!(s.to_string(), "SELECT  FROM t");
    let s = Statement::Create { table: "t", columns: vec![] };
    assert_eq!(s.to_string(), "CREATE TABLE t ()");
}

#[test]
fn render_then_parse_gives_the_same_statement() {
    let inputs = [
        "select a, b from t where a = 'q r'",
        "INSERT INTO t (a) VALUES (1, 'x', 2)",
        "create table t (a varchar(3), b int)",
    ];
    for input in inputs {
        let once = render(input);
        let twice = render(&once[0]);
        assert_eq!(once, twice);
    }
}

#[test]
fn print_then_parse_gives_each_statement_back() {
    let input = "select Name, _x1 from Users where age >= 0042 \
                 insert into t values ('it s', 7) \
                 create table t2 (a TEXT, b VarChar(10), c int)";
    let tokens = Lexer::new(input).lex().unwrap();
    let statements = Parser::new(tokens).parse().unwrap();
    assert_eq!(statements.len(), 3);
    for st in &statements {
        let text = st.to_string();
        let again_tokens = Lexer::new(&text).lex().unwrap();
        let again = Parser::new(again_tokens).parse().unwrap();
        assert_eq!(again.len(), 1);
        assert_eq!(format!("{:?}", again[0]), format!("{:?}", st));
    }
}

//! The parser: tokens in, statements out.

use vstd::prelude::*;

use crate::text::{
    decimal, i64_parse_error, i64_value, lowercase, push_usize, usize_parse_error, usize_value, same_text, str_parse_i64,
    str_parse_usize, str_to_lowercase, utf8_len,
};
use crate::lexer::{lex_spec, law_lex_ends_with_eof};
use crate::token::{token_views, Token, TokenKind, TokenView};

verus! {

// ---------------------------------------------------------------------------
// Syntax tree
// ---------------------------------------------------------------------------

/// Errors when parsing. This type will hold the actual Token that caused the error as well as a
/// helpful and contextual message.
#[derive(Debug)]
pub struct ParseError<'a> {
    token: Token<'a>,
    msg: String,
}

/// The mathematical value of a [`ParseError`].
pub struct ParseErrorView {
    pub token: TokenView,
    pub msg: Seq<char>,
}

impl<'a> View for ParseError<'a> {
    type V = ParseErrorView;

    closed spec fn view(&self) -> ParseErrorView {
        ParseErrorView { token: self.token@, msg: self.msg@ }
    }
}

/// How a parse error is shown: the token's text and position, then the message.
pub open spec fn parse_error_text(e: ParseErrorView) -> Seq<char> {
    "Parsing error near '"@ + e.token.lexeme + "' ("@ + decimal(e.token.position as int) + "): "@
        + e.msg
}

impl<'a> ParseError<'a> {
    /// The error as the text a user is shown.
    pub fn to_string(&self) -> (r: String)
        ensures
            r@ == parse_error_text(self@),
    {
        let mut out = String::from_str("Parsing error near '");
        out.append(self.token.lexeme);
        out.append("' (");
        push_usize(&mut out, self.token.position);
        out.append("): ");
        out.append(self.msg.as_str());
        out
    }
}

/// The top level Statement AST node. All nodes derive from here.
#[derive(Debug)]
#[allow(inconsistent_fields)]
pub enum Statement<'a> {
    Create { table: &'a str, columns: Vec<ColumnDef<'a>> },
    Insert { table: &'a str, columns: Option<Vec<&'a str>>, values: Vec<Literal<'a>> },
    Select { table: &'a str, columns: Vec<&'a str>, where_clause: Option<Comparison<'a>> },
}

/// A column definition with name and type as used in CREATE TABLE statements.
#[derive(Debug)]
pub struct ColumnDef<'a> {
    pub name: &'a str,
    pub data_type: DataType,
}

/// The data types supported in CREATE TABLE statements.
#[derive(Debug, Clone, Copy, PartialEq, Eq, Structural)]
pub enum DataType {
    Int,
    Text,
    VarChar(usize),
}

/// Literal values found in INSERT INTO statements and WHERE clauses.
#[derive(Debug)]
pub enum Literal<'a> {
    Number(i64),
    String(&'a str),
}

/// As opposed to full Expressions, we start with simple comparison operations for our where
/// clauses.
#[derive(Debug)]
pub struct Comparison<'a> {
    pub column: &'a str,
    pub op: ComparisonOp,
    pub value: Literal<'a>,
}

/// Comparison operators.
#[derive(Debug, Clone, Copy, PartialEq, Eq, Structural)]
pub enum ComparisonOp {
    Eq,
    Lt,
    LtEq,
    Gt,
    GtEq,
}

/// The mathematical value of a [`Literal`].
pub enum LiteralView {
    Number(i64),
    String(Seq<char>),
}

/// The mathematical value of a [`ColumnDef`].
pub struct ColumnDefView {
    pub name: Seq<char>,
    pub data_type: DataType,
}

/// The mathematical value of a [`Comparison`].
pub struct ComparisonView {
    pub column: Seq<char>,
    pub op: ComparisonOp,
    pub value: LiteralView,
}

/// The mathematical value of a [`Statement`].
#[allow(inconsistent_fields)]
pub enum StatementView {
    Create { table: Seq<char>, columns: Seq<ColumnDefView> },
    Insert { table: Seq<char>, columns: Option<Seq<Seq<char>>>, values: Seq<LiteralView> },
    Select { table: Seq<char>, columns: Seq<Seq<char>>, where_clause: Option<ComparisonView> },
}

/// The characters of each text in a sequence.
pub open spec fn texts<'a>(v: Seq<&'a str>) -> Seq<Seq<char>> {
    v.map_values(|x: &'a str| x@)
}

impl<'a> View for Literal<'a> {
    type V = LiteralView;

    open spec fn view(&self) -> LiteralView {
        match self {
            Literal::Number(n) => LiteralView::Number(*n),
            Literal::String(s) => LiteralView::String(s@),
        }
    }
}

impl<'a> View for ColumnDef<'a> {
    type V = ColumnDefView;

    open spec fn view(&self) -> ColumnDefView {
        ColumnDefView { name: self.name@, data_type: self.data_type }
    }
}

impl<'a> View for Comparison<'a> {
    type V = ComparisonView;

    open spec fn view(&self) -> ComparisonView {
        ComparisonView { column: self.column@, op: self.op, value: self.value@ }
    }
}

/// The values of a sequence of literals.
pub open spec fn literal_views<'a>(v: Seq<Literal<'a>>) -> Seq<LiteralView> {
    v.map_values(|x: Literal<'a>| x@)
}

/// The values of a sequence of column definitions.
pub open spec fn column_views<'a>(v: Seq<ColumnDef<'a>>) -> Seq<ColumnDefView> {
    v.map_values(|x: ColumnDef<'a>| x@)
}

impl<'a> View for Statement<'a> {
    type V = StatementView;

    open spec fn view(&self) -> StatementView {
        match self {
            Statement::Create { table, columns } => StatementView::Create {
                table: table@,
                columns: column_views(columns@),
            },
            Statement::Insert { table, columns, values } => StatementView::Insert {
                table: table@,
                columns: match columns {
                    Some(cols) => Some(texts(cols@)),
                    None => None,
                },
                values: literal_views(values@),
            },
            Statement::Select { table, columns, where_clause } => StatementView::Select {
                table: table@,
                columns: texts(columns@),
                where_clause: match where_clause {
                    Some(c) => Some(c@),
                    None => None,
                },
            },
        }
    }
}

/// The values of a sequence of statements.
pub open spec fn statement_views<'a>(v: Seq<Statement<'a>>) -> Seq<StatementView> {
    v.map_values(|x: Statement<'a>| x@)
}

// ---------------------------------------------------------------------------
// Specification
// ---------------------------------------------------------------------------

/// Why a parse step does not succeed.
pub enum Failure {
    /// The step fails with this error and leaves the parser at this index.
    Error(ParseErrorView, int),
    /// The step would read a token past the end of the sequence (where indexing panics).
    Overrun,
}

/// A parse of something of type `T` from a token index: the value with the index after it,
/// or why it fails.
pub type Parsed<T> = Result<(T, int), Failure>;

/// Whether a parse would read past the end of the tokens.
pub open spec fn overruns<X>(r: Result<X, Failure>) -> bool {
    r matches Err(Failure::Overrun)
}

/// Whether index `i` is a token of `t`.
pub open spec fn within(t: Seq<TokenView>, i: int) -> bool {
    0 <= i < t.len()
}

/// Whether an end marker stands at or after index `i`.
pub open spec fn eof_ahead(t: Seq<TokenView>, i: int) -> bool {
    exists|j: int| 0 <= i <= j < t.len() && (#[trigger] t[j]).kind == TokenKind::Eof
}

/// How `{:?}` writes a token kind: the variant's name.
pub open spec fn kind_text(k: TokenKind) -> Seq<char> {
    match k {
        TokenKind::Create => "Create"@,
        TokenKind::Table => "Table"@,
        TokenKind::Insert => "Insert"@,
        TokenKind::Into => "Into"@,
        TokenKind::Select => "Select"@,
        TokenKind::Values => "Values"@,
        TokenKind::From => "From"@,
        TokenKind::Where => "Where"@,
        TokenKind::Plus => "Plus"@,
        TokenKind::Equal => "Equal"@,
        TokenKind::LessThan => "LessThan"@,
        TokenKind::LessThanEqual => "LessThanEqual"@,
        TokenKind::GreaterThan => "GreaterThan"@,
        TokenKind::GreaterThanEqual => "GreaterThanEqual"@,
        TokenKind::LeftParen => "LeftParen"@,
        TokenKind::RightParen => "RightParen"@,
        TokenKind::Comma => "Comma"@,
        TokenKind::Identifier => "Identifier"@,
        TokenKind::String => "String"@,
        TokenKind::Number => "Number"@,
        TokenKind::Eof => "Eof"@,
    }
}

/// The failure with the given message about the token at index `i`, the parser left at `i`.
pub open spec fn fail_at<T>(t: Seq<TokenView>, i: int, msg: Seq<char>) -> Parsed<T> {
    Err(Failure::Error(ParseErrorView { token: t[i], msg }, i))
}

/// Consumes the token at `i` if it has the given kind.
pub open spec fn expect_spec(t: Seq<TokenView>, i: int, kind: TokenKind) -> Parsed<TokenView> {
    if !within(t, i) {
        Err(Failure::Overrun)
    } else if t[i].kind == kind {
        Ok((t[i], i + 1))
    } else {
        fail_at(t, i, "Expected "@ + kind_text(kind) + "; got "@ + kind_text(t[i].kind))
    }
}

/// A number or string literal at `i`.
pub open spec fn literal_spec(t: Seq<TokenView>, i: int) -> Parsed<LiteralView> {
    if !within(t, i) {
        Err(Failure::Overrun)
    } else {
        let tok = t[i];
        match tok.kind {
            TokenKind::String => Ok((LiteralView::String(tok.lexeme), i + 1)),
            TokenKind::Number => match i64_value(tok.lexeme) {
                Some(n) => Ok((LiteralView::Number(n), i + 1)),
                None => fail_at(t, i, "Error parsing number: "@ + i64_parse_error(tok.lexeme)),
            },
            _ => fail_at(t, i, "Expected a literal (number or string); got "@ + kind_text(tok.kind)),
        }
    }
}

/// A data type at `i`: `int`, `text` or `varchar(<number>)`, in any case.
pub open spec fn datatype_spec(t: Seq<TokenView>, i: int) -> Parsed<DataType> {
    if !within(t, i) {
        Err(Failure::Overrun)
    } else if t[i].kind != TokenKind::Identifier {
        fail_at(t, i, "Expected a data type identifier; got "@ + kind_text(t[i].kind))
    } else {
        let word = lowercase(t[i].lexeme);
        if word == "int"@ {
            Ok((DataType::Int, i + 1))
        } else if word == "text"@ {
            Ok((DataType::Text, i + 1))
        } else if word == "varchar"@ {
            match expect_spec(t, i + 1, TokenKind::LeftParen) {
                Err(e) => Err(e),
                Ok((_, j)) => match expect_spec(t, j, TokenKind::Number) {
                    Err(e) => Err(e),
                    Ok((size_tok, k)) => match usize_value(size_tok.lexeme) {
                        None => Err(
                            Failure::Error(
                                ParseErrorView {
                                    token: size_tok,
                                    msg: "Error parsing varchar size: "@ + usize_parse_error(size_tok.lexeme),
                                },
                                k,
                            ),
                        ),
                        Some(n) => match expect_spec(t, k, TokenKind::RightParen) {
                            Err(e) => Err(e),
                            Ok((_, l)) => Ok((DataType::VarChar(n), l)),
                        },
                    },
                },
            }
        } else {
            fail_at(t, i, "Unknown data type: "@ + t[i].lexeme)
        }
    }
}

/// Puts `front` before the items of a successful list parse.
pub open spec fn prepend_items<T>(front: Seq<T>, r: Parsed<Seq<T>>) -> Parsed<Seq<T>> {
    match r {
        Ok((items, k)) => Ok((front + items, k)),
        Err(e) => Err(e),
    }
}

/// A comma separated list of identifiers at `i`.
pub open spec fn identifier_list(t: Seq<TokenView>, i: int) -> Parsed<Seq<Seq<char>>>
    decreases t.len() - i,
{
    match expect_spec(t, i, TokenKind::Identifier) {
        Err(e) => Err(e),
        Ok((tok, j)) => if !within(t, j) {
            Err(Failure::Overrun)
        } else if t[j].kind == TokenKind::Comma {
            prepend_items(seq![tok.lexeme], identifier_list(t, j + 1))
        } else {
            Ok((seq![tok.lexeme], j))
        },
    }
}

/// A comma separated list of literals at `i`.
pub open spec fn literal_list(t: Seq<TokenView>, i: int) -> Parsed<Seq<LiteralView>>
    decreases t.len() - i,
{
    match literal_spec(t, i) {
        Err(e) => Err(e),
        Ok((lit, j)) => if !within(t, j) {
            Err(Failure::Overrun)
        } else if t[j].kind == TokenKind::Comma {
            prepend_items(seq![lit], literal_list(t, j + 1))
        } else {
            Ok((seq![lit], j))
        },
    }
}

/// A column definition at `i`: a name and a data type.
pub open spec fn column_def_spec(t: Seq<TokenView>, i: int) -> Parsed<ColumnDefView> {
    match expect_spec(t, i, TokenKind::Identifier) {
        Err(e) => Err(e),
        Ok((name, j)) => match datatype_spec(t, j) {
            Err(e) => Err(e),
            Ok((data_type, k)) => Ok((ColumnDefView { name: name.lexeme, data_type }, k)),
        },
    }
}

/// A comma separated list of column definitions at `i`.
pub open spec fn column_def_list(t: Seq<TokenView>, i: int) -> Parsed<Seq<ColumnDefView>>
    decreases t.len() - i,
{
    match column_def_spec(t, i) {
        Err(e) => Err(e),
        Ok((col, j)) => if !within(t, j) {
            Err(Failure::Overrun)
        } else if t[j].kind == TokenKind::Comma {
            proof {
                lemma_column_def_advances(t, i);
            }
            prepend_items(seq![col], column_def_list(t, j + 1))
        } else {
            Ok((seq![col], j))
        },
    }
}

/// The comparison operator of a token kind.
pub open spec fn comparison_op(kind: TokenKind) -> Option<ComparisonOp> {
    match kind {
        TokenKind::Equal => Some(ComparisonOp::Eq),
        TokenKind::LessThan => Some(ComparisonOp::Lt),
        TokenKind::LessThanEqual => Some(ComparisonOp::LtEq),
        TokenKind::GreaterThan => Some(ComparisonOp::Gt),
        TokenKind::GreaterThanEqual => Some(ComparisonOp::GtEq),
        _ => None,
    }
}

/// The condition after WHERE at `i`: a column, a comparison operator and a literal.
pub open spec fn comparison_spec(t: Seq<TokenView>, i: int) -> Parsed<ComparisonView> {
    match expect_spec(t, i, TokenKind::Identifier) {
        Err(e) => Err(e),
        Ok((column, j)) => if !within(t, j) {
            Err(Failure::Overrun)
        } else {
            match comparison_op(t[j].kind) {
                None => fail_at(t, j, "Expected a comparison operator; got "@ + kind_text(t[j].kind)),
                Some(op) => match literal_spec(t, j + 1) {
                    Err(e) => Err(e),
                    Ok((value, k)) => Ok((ComparisonView { column: column.lexeme, op, value }, k)),
                },
            }
        },
    }
}

/// `SELECT column[, column ..] FROM table [WHERE column op literal]` at `i`.
pub open spec fn select_spec(t: Seq<TokenView>, i: int) -> Parsed<StatementView> {
    match expect_spec(t, i, TokenKind::Select) {
        Err(e) => Err(e),
        Ok((_, a)) => match identifier_list(t, a) {
            Err(e) => Err(e),
            Ok((columns, b)) => match expect_spec(t, b, TokenKind::From) {
                Err(e) => Err(e),
                Ok((_, c)) => match expect_spec(t, c, TokenKind::Identifier) {
                    Err(e) => Err(e),
                    Ok((table, d)) => if !within(t, d) {
                        Err(Failure::Overrun)
                    } else if t[d].kind == TokenKind::Where {
                        match comparison_spec(t, d + 1) {
                            Err(e) => Err(e),
                            Ok((cmp, k)) => Ok(
                                (
                                    StatementView::Select {
                                        table: table.lexeme,
                                        columns,
                                        where_clause: Some(cmp),
                                    },
                                    k,
                                ),
                            ),
                        }
                    } else {
                        Ok(
                            (
                                StatementView::Select {
                                    table: table.lexeme,
                                    columns,
                                    where_clause: None,
                                },
                                d,
                            ),
                        )
                    },
                },
            },
        },
    }
}

/// The optional parenthesised column list of an INSERT at `i`.
pub open spec fn insert_columns_spec(t: Seq<TokenView>, i: int) -> Parsed<Option<Seq<Seq<char>>>> {
    if !within(t, i) {
        Err(Failure::Overrun)
    } else if t[i].kind == TokenKind::LeftParen {
        match identifier_list(t, i + 1) {
            Err(e) => Err(e),
            Ok((cols, j)) => match expect_spec(t, j, TokenKind::RightParen) {
                Err(e) => Err(e),
                Ok((_, k)) => Ok((Some(cols), k)),
            },
        }
    } else {
        Ok((None, i))
    }
}

/// `INSERT INTO table [(column[, column ..])] VALUES (literal[, literal ..])` at `i`.
pub open spec fn insert_spec(t: Seq<TokenView>, i: int) -> Parsed<StatementView> {
    match expect_spec(t, i, TokenKind::Insert) {
        Err(e) => Err(e),
        Ok((_, a)) => match expect_spec(t, a, TokenKind::Into) {
            Err(e) => Err(e),
            Ok((_, b)) => match expect_spec(t, b, TokenKind::Identifier) {
                Err(e) => Err(e),
                Ok((table, c)) => match insert_columns_spec(t, c) {
                    Err(e) => Err(e),
                    Ok((columns, d)) => match expect_spec(t, d, TokenKind::Values) {
                        Err(e) => Err(e),
                        Ok((_, f)) => match expect_spec(t, f, TokenKind::LeftParen) {
                            Err(e) => Err(e),
                            Ok((_, g)) => match literal_list(t, g) {
                                Err(e) => Err(e),
                                Ok((values, h)) => match expect_spec(t, h, TokenKind::RightParen) {
                                    Err(e) => Err(e),
                                    Ok((_, k)) => Ok(
                                        (
                                            StatementView::Insert {
                                                table: table.lexeme,
                                                columns,
                                                values,
                                            },
                                            k,
                                        ),
                                    ),
                                },
                            },
                        },
                    },
                },
            },
        },
    }
}

/// `CREATE TABLE table (column type[, column type ..])` at `i`.
pub open spec fn create_spec(t: Seq<TokenView>, i: int) -> Parsed<StatementView> {
    match expect_spec(t, i, TokenKind::Create) {
        Err(e) => Err(e),
        Ok((_, a)) => match expect_spec(t, a, TokenKind::Table) {
            Err(e) => Err(e),
            Ok((_, b)) => match expect_spec(t, b, TokenKind::Identifier) {
                Err(e) => Err(e),
                Ok((table, c)) => match expect_spec(t, c, TokenKind::LeftParen) {
                    Err(e) => Err(e),
                    Ok((_, d)) => match column_def_list(t, d) {
                        Err(e) => Err(e),
                        Ok((columns, f)) => match expect_spec(t, f, TokenKind::RightParen) {
                            Err(e) => Err(e),
                            Ok((_, k)) => Ok(
                                (StatementView::Create { table: table.lexeme, columns }, k),
                            ),
                        },
                    },
                },
            },
        },
    }
}

/// One statement at `i`, chosen by its first keyword.
pub open spec fn statement_spec(t: Seq<TokenView>, i: int) -> Parsed<StatementView> {
    if !within(t, i) {
        Err(Failure::Overrun)
    } else {
        match t[i].kind {
            TokenKind::Select => select_spec(t, i),
            TokenKind::Insert => insert_spec(t, i),
            TokenKind::Create => create_spec(t, i),
            _ => fail_at(
                t,
                i,
                "Expected the start of a statement (SELECT, CREATE, INSERT), found "@ + kind_text(
                    t[i].kind,
                ),
            ),
        }
    }
}

/// The statements from index `i` up to the end marker, or why parsing them fails.
pub open spec fn statements_spec(t: Seq<TokenView>, i: int) -> Result<Seq<StatementView>, Failure>
    decreases t.len() - i,
{
    if !within(t, i) {
        Err(Failure::Overrun)
    } else if t[i].kind == TokenKind::Eof {
        Ok(Seq::empty())
    } else {
        match statement_spec(t, i) {
            Err(e) => Err(e),
            Ok((st, j)) => {
                proof {
                    lemma_statement_advances(t, i);
                }
                match statements_spec(t, j) {
                    Err(e) => Err(e),
                    Ok(rest) => Ok(seq![st] + rest),
                }
            },
        }
    }
}

// ---------------------------------------------------------------------------
// Progress: every successful parse consumes tokens and stops within them
// ---------------------------------------------------------------------------

/// Whether a parse that starts at `i` and succeeds ends after `i` and within the tokens.
pub open spec fn advances<T>(t: Seq<TokenView>, i: int, r: Parsed<T>) -> bool {
    r matches Ok((_, j)) ==> i < j <= t.len()
}

/// A successful data type parse consumes tokens.
pub proof fn lemma_datatype_advances(t: Seq<TokenView>, i: int)
    ensures
        advances(t, i, datatype_spec(t, i)),
{
}

/// A successful column definition parse consumes tokens.
pub proof fn lemma_column_def_advances(t: Seq<TokenView>, i: int)
    ensures
        advances(t, i, column_def_spec(t, i)),
{
    lemma_datatype_advances(t, i + 1);
}

/// A successful identifier list parse consumes tokens.
pub proof fn lemma_identifier_list_advances(t: Seq<TokenView>, i: int)
    ensures
        advances(t, i, identifier_list(t, i)),
    decreases t.len() - i,
{
    if expect_spec(t, i, TokenKind::Identifier) is Ok && within(t, i + 1) && t[i + 1].kind
        == TokenKind::Comma {
        lemma_identifier_list_advances(t, i + 2);
    }
}

/// A successful literal list parse consumes tokens.
pub proof fn lemma_literal_list_advances(t: Seq<TokenView>, i: int)
    ensures
        advances(t, i, literal_list(t, i)),
    decreases t.len() - i,
{
    if literal_spec(t, i) is Ok && within(t, i + 1) && t[i + 1].kind == TokenKind::Comma {
        lemma_literal_list_advances(t, i + 2);
    }
}

/// A successful column definition list parse consumes tokens.
pub proof fn lemma_column_def_list_advances(t: Seq<TokenView>, i: int)
    ensures
        advances(t, i, column_def_list(t, i)),
    decreases t.len() - i,
{
    lemma_column_def_advances(t, i);
    if let Ok((_, j)) = column_def_spec(t, i) {
        if within(t, j) && t[j].kind == TokenKind::Comma {
            lemma_column_def_list_advances(t, j + 1);
        }
    }
}

/// A successful statement parse consumes tokens.
pub proof fn lemma_statement_advances(t: Seq<TokenView>, i: int)
    ensures
        advances(t, i, statement_spec(t, i)),
{
    lemma_identifier_list_advances(t, i + 1);
    lemma_identifier_list_advances(t, i + 4);
    if let Ok((_, c)) = insert_columns_spec(t, i + 3) {
        lemma_literal_list_advances(t, c + 2);
    }
    lemma_column_def_list_advances(t, i + 4);
}

// ---------------------------------------------------------------------------
// Implementation
// ---------------------------------------------------------------------------

impl View for DataType {
    type V = DataType;

    open spec fn view(&self) -> DataType {
        *self
    }
}

/// The outcome `r` of a step that parses a `T` matches the expected parse, and the parser
/// is left at `pos`, the index the expected parse names on success and on error.
pub open spec fn parsed_as<'a, T: View>(r: Result<T, ParseError<'a>>, expected: Parsed<T::V>, pos: int) -> bool {
    match expected {
        Ok((v, j)) => r matches Ok(x) && x@ == v && pos == j,
        Err(Failure::Error(e, p)) => r matches Err(x) && x@ == e && pos == p,
        Err(Failure::Overrun) => true,
    }
}

/// The outcome `r` of a step that parses a list of identifiers matches the expected parse.
pub open spec fn parsed_names_as<'a>(
    r: Result<Vec<&'a str>, ParseError<'a>>,
    expected: Parsed<Seq<Seq<char>>>,
    pos: int,
) -> bool {
    match expected {
        Ok((v, j)) => r matches Ok(x) && texts(x@) == v && pos == j,
        Err(Failure::Error(e, p)) => r matches Err(x) && x@ == e && pos == p,
        Err(Failure::Overrun) => true,
    }
}

/// The outcome `r` of a step that parses a list of literals matches the expected parse.
pub open spec fn parsed_literals_as<'a>(
    r: Result<Vec<Literal<'a>>, ParseError<'a>>,
    expected: Parsed<Seq<LiteralView>>,
    pos: int,
) -> bool {
    match expected {
        Ok((v, j)) => r matches Ok(x) && literal_views(x@) == v && pos == j,
        Err(Failure::Error(e, p)) => r matches Err(x) && x@ == e && pos == p,
        Err(Failure::Overrun) => true,
    }
}

/// The outcome `r` of a step that parses a list of column definitions matches the expected
/// parse.
pub open spec fn parsed_columns_as<'a>(
    r: Result<Vec<ColumnDef<'a>>, ParseError<'a>>,
    expected: Parsed<Seq<ColumnDefView>>,
    pos: int,
) -> bool {
    match expected {
        Ok((v, j)) => r matches Ok(x) && column_views(x@) == v && pos == j,
        Err(Failure::Error(e, p)) => r matches Err(x) && x@ == e && pos == p,
        Err(Failure::Overrun) => true,
    }
}

/// Puts `front` before the statements of a successful result.
pub open spec fn prepend_statements(
    front: Seq<StatementView>,
    r: Result<Seq<StatementView>, Failure>,
) -> Result<Seq<StatementView>, Failure> {
    match r {
        Ok(sts) => Ok(front + sts),
        Err(e) => Err(e),
    }
}

/// Putting two fronts before a list parse puts their concatenation before it.
pub proof fn lemma_prepend_items_assoc<T>(a: Seq<T>, b: Seq<T>, r: Parsed<Seq<T>>)
    ensures
        prepend_items(a, prepend_items(b, r)) == prepend_items(a + b, r),
{
    if let Ok((items, k)) = r {
        assert(a + (b + items) =~= (a + b) + items);
    }
}

/// How `{:?}` writes a token kind.
fn kind_str(k: TokenKind) -> (r: &'static str)
    ensures
        r@ == kind_text(k),
{
    match k {
        TokenKind::Create => "Create",
        TokenKind::Table => "Table",
        TokenKind::Insert => "Insert",
        TokenKind::Into => "Into",
        TokenKind::Select => "Select",
        TokenKind::Values => "Values",
        TokenKind::From => "From",
        TokenKind::Where => "Where",
        TokenKind::Plus => "Plus",
        TokenKind::Equal => "Equal",
        TokenKind::LessThan => "LessThan",
        TokenKind::LessThanEqual => "LessThanEqual",
        TokenKind::GreaterThan => "GreaterThan",
        TokenKind::GreaterThanEqual => "GreaterThanEqual",
        TokenKind::LeftParen => "LeftParen",
        TokenKind::RightParen => "RightParen",
        TokenKind::Comma => "Comma",
        TokenKind::Identifier => "Identifier",
        TokenKind::String => "String",
        TokenKind::Number => "Number",
        TokenKind::Eof => "Eof",
    }
}

/// The concatenation of two texts.
fn join2(a: &str, b: &str) -> (r: String)
    ensures
        r@ == a@ + b@,
{
    let mut s = String::new();
    s.append(a);
    s.append(b);
    proof {
        assert(Seq::<char>::empty() + a@ =~= a@);
    }
    s
}

/// The concatenation of four texts.
fn join4(a: &str, b: &str, c: &str, d: &str) -> (r: String)
    ensures
        r@ == a@ + b@ + c@ + d@,
{
    let mut s = join2(a, b);
    s.append(c);
    s.append(d);
    s
}

/// Parses a list of statements from tokens that end in an end marker.
pub struct Parser<'a> {
    tokens: Vec<Token<'a>>,
    current: usize,
}

impl<'a> Parser<'a> {
    /// The values of the tokens.
    pub closed spec fn tokens(&self) -> Seq<TokenView> {
        token_views(self.tokens@)
    }

    /// The index of the next token to read.
    pub closed spec fn position(&self) -> int {
        self.current as int
    }

    /// A parser at the first of the given tokens.
    pub fn new(tokens: Vec<Token<'a>>) -> (r: Self)
        ensures
            r.tokens() == token_views(tokens@),
            r.position() == 0,
    {
        Self { tokens, current: 0 }
    }

    /// Peek at the next token. We don't return Option<T> because we know that we will stop
    /// parsing at the Eof token.
    fn peek(&self) -> (r: Token<'a>)
        requires
            within(self.tokens(), self.position()),
        ensures
            r@ == self.tokens()[self.position()],
    {
        self.tokens[self.current]
    }

    /// Advance the cursor, returning the Token<'a> at the current position.
    fn advance(&mut self) -> (r: Token<'a>)
        requires
            within(old(self).tokens(), old(self).position()),
        ensures
            final(self).tokens() == old(self).tokens(),
            final(self).position() == old(self).position() + 1,
            r@ == old(self).tokens()[old(self).position()],
    {
        let tok = self.peek();
        proof {
            assert(self.tokens.len() == self.tokens@.len());
        }
        self.current = self.current + 1;
        tok
    }

    /// Consume the next token if it matches the provided TokenKind and return the Token
    fn expect(&mut self, kind: TokenKind) -> (r: Result<Token<'a>, ParseError<'a>>)
        requires
            within(old(self).tokens(), old(self).position()),
        ensures
            final(self).tokens() == old(self).tokens(),
            parsed_as(r, expect_spec(old(self).tokens(), old(self).position(), kind), final(self).position()),
    {
        let next = self.peek();
        if next.kind == kind {
            Ok(self.advance())
        } else {
            let msg = join4("Expected ", kind_str(kind), "; got ", kind_str(next.kind));
            Err(ParseError { token: next, msg })
        }
    }

    /// Consume the next token if it matches and return whether or not the Token matched but don't
    /// return the Token itself.
    fn match_kind(&mut self, kind: TokenKind) -> (r: bool)
        requires
            within(old(self).tokens(), old(self).position()),
        ensures
            final(self).tokens() == old(self).tokens(),
            r == (old(self).tokens()[old(self).position()].kind == kind),
            final(self).position() == if r {
                old(self).position() + 1
            } else {
                old(self).position()
            },
    {
        if self.peek().kind == kind {
            self.advance();
            true
        } else {
            false
        }
    }

    /// Parses a literal (Number or String) and returns the token.
    fn parse_literal(&mut self) -> (r: Result<Literal<'a>, ParseError<'a>>)
        requires
            within(old(self).tokens(), old(self).position()),
        ensures
            final(self).tokens() == old(self).tokens(),
            parsed_as(r, literal_spec(old(self).tokens(), old(self).position()), final(self).position()),
    {
        let val_tok = self.peek();
        let literal = match val_tok.kind {
            TokenKind::String => Literal::String(val_tok.lexeme),
            TokenKind::Number => match str_parse_i64(val_tok.lexeme) {
                Ok(n) => Literal::Number(n),
                Err(e) => {
                    let msg = join2("Error parsing number: ", e.as_str());
                    return Err(ParseError { token: val_tok, msg });
                },
            },
            _ => {
                let msg = join2("Expected a literal (number or string); got ", kind_str(val_tok.kind));
                return Err(ParseError { token: val_tok, msg });
            },
        };
        // successfully parsed a literal so advance
        self.advance();
        Ok(literal)
    }

    /// Parses a Data Type. The peek()'d Token will be an Identifier first and then transformed to
    /// a DataType. This method, if successful, advances past the Token's that make up the
    /// DataType.
    fn parse_datatype(&mut self) -> (r: Result<DataType, ParseError<'a>>)
        requires
            !overruns(datatype_spec(old(self).tokens(), old(self).position())),
        ensures
            final(self).tokens() == old(self).tokens(),
            parsed_as(r, datatype_spec(old(self).tokens(), old(self).position()), final(self).position()),
    {
        let data_tok = self.peek();
        if data_tok.kind != TokenKind::Identifier {
            let msg = join2("Expected a data type identifier; got ", kind_str(data_tok.kind));
            return Err(ParseError { token: data_tok, msg });
        }
        // attempt to parse the lexeme as either 'int', 'text', or 'varchar'
        let normalized = str_to_lowercase(data_tok.lexeme);
        let word = normalized.as_str();
        if same_text(word, "int") {
            self.advance();
            Ok(DataType::Int)
        } else if same_text(word, "text") {
            self.advance();
            Ok(DataType::Text)
        } else if same_text(word, "varchar") {
            // consume tokens to get through the varchar(NUM)
            self.advance();  // advance past the data type
            self.expect(TokenKind::LeftParen)?;  // left paren needs to be there
            let size_tok = self.expect(TokenKind::Number)?;  // need a number
            let data_type = match str_parse_usize(size_tok.lexeme) {
                Ok(n) => DataType::VarChar(n),
                Err(e) => {
                    let msg = join2("Error parsing varchar size: ", e.as_str());
                    return Err(ParseError { token: size_tok, msg });
                },
            };
            self.expect(TokenKind::RightParen)?;  // final right paren
            Ok(data_type)
        } else {
            // if it's not, we've exhausted datatypes, so this is an error
            let msg = join2("Unknown data type: ", data_tok.lexeme);
            Err(ParseError { token: data_tok, msg })
        }
    }

    /// Parse a comma separated list of identifiers.
    fn parse_identifier_list(&mut self) -> (r: Result<Vec<&'a str>, ParseError<'a>>)
        requires
            !overruns(identifier_list(old(self).tokens(), old(self).position())),
        ensures
            final(self).tokens() == old(self).tokens(),
            parsed_names_as(r, identifier_list(old(self).tokens(), old(self).position()), final(self).position()),
    {
        let ghost t = self.tokens();
        let ghost i0 = self.position();
        let mut items: Vec<&'a str> = Vec::new();
        proof {
            assert(texts(items@) =~= Seq::<Seq<char>>::empty());
            lemma_prepend_items_assoc(Seq::<Seq<char>>::empty(), Seq::empty(), identifier_list(t, i0));
            if let Ok((v, k)) = identifier_list(t, i0) {
                assert(Seq::<Seq<char>>::empty() + v =~= v);
            }
        }
        loop
            invariant_except_break
                identifier_list(t, i0) == prepend_items(texts(items@), identifier_list(t, self.position())),
            invariant
                self.tokens() == t,
                t == old(self).tokens(),
                i0 == old(self).position(),
                !overruns(identifier_list(t, i0)),
                i0 <= self.position(),
            ensures
                self.tokens() == t,
                identifier_list(t, i0) == Parsed::Ok((texts(items@), self.position())),
            decreases t.len() - self.position(),
        {
            let ghost p = self.position();
            let ghost before = texts(items@);
            let name = self.expect(TokenKind::Identifier)?.lexeme;
            items.push(name);
            proof {
                assert(texts(items@) =~= before + seq![name@]);
                lemma_prepend_items_assoc(before, seq![name@], identifier_list(t, p + 2));
            }
            if !self.match_kind(TokenKind::Comma) {
                break ;
            }
        }
        Ok(items)
    }

    /// Parse a comma separated list of literals.
    fn parse_literal_list(&mut self) -> (r: Result<Vec<Literal<'a>>, ParseError<'a>>)
        requires
            !overruns(literal_list(old(self).tokens(), old(self).position())),
        ensures
            final(self).tokens() == old(self).tokens(),
            parsed_literals_as(r, literal_list(old(self).tokens(), old(self).position()), final(self).position()),
    {
        let ghost t = self.tokens();
        let ghost i0 = self.position();
        let mut items: Vec<Literal<'a>> = Vec::new();
        proof {
            assert(literal_views(items@) =~= Seq::<LiteralView>::empty());
            if let Ok((v, k)) = literal_list(t, i0) {
                assert(Seq::<LiteralView>::empty() + v =~= v);
            }
        }
        loop
            invariant_except_break
                literal_list(t, i0) == prepend_items(literal_views(items@), literal_list(t, self.position())),
            invariant
                self.tokens() == t,
                t == old(self).tokens(),
                i0 == old(self).position(),
                !overruns(literal_list(t, i0)),
                i0 <= self.position(),
            ensures
                self.tokens() == t,
                literal_list(t, i0) == Parsed::Ok((literal_views(items@), self.position())),
            decreases t.len() - self.position(),
        {
            let ghost p = self.position();
            let ghost before = literal_views(items@);
            let value = self.parse_literal()?;
            let ghost v = value@;
            items.push(value);
            proof {
                assert(literal_views(items@) =~= before + seq![v]);
                lemma_prepend_items_assoc(before, seq![v], literal_list(t, p + 2));
            }
            if !self.match_kind(TokenKind::Comma) {
                break ;
            }
        }
        Ok(items)
    }

    /// Parse one column definition of a CREATE TABLE statement.
    fn parse_column_def(&mut self) -> (r: Result<ColumnDef<'a>, ParseError<'a>>)
        requires
            !overruns(column_def_spec(old(self).tokens(), old(self).position())),
        ensures
            final(self).tokens() == old(self).tokens(),
            parsed_as(r, column_def_spec(old(self).tokens(), old(self).position()), final(self).position()),
    {
        let col_tok = self.expect(TokenKind::Identifier)?;
        let data_type = self.parse_datatype()?;
        Ok(ColumnDef { name: col_tok.lexeme, data_type })
    }

    /// Parse a comma separated list of column definitions.
    fn parse_column_def_list(&mut self) -> (r: Result<Vec<ColumnDef<'a>>, ParseError<'a>>)
        requires
            !overruns(column_def_list(old(self).tokens(), old(self).position())),
        ensures
            final(self).tokens() == old(self).tokens(),
            parsed_columns_as(r, column_def_list(old(self).tokens(), old(self).position()), final(self).position()),
    {
        let ghost t = self.tokens();
        let ghost i0 = self.position();
        let mut items: Vec<ColumnDef<'a>> = Vec::new();
        proof {
            assert(column_views(items@) =~= Seq::<ColumnDefView>::empty());
            if let Ok((v, k)) = column_def_list(t, i0) {
                assert(Seq::<ColumnDefView>::empty() + v =~= v);
            }
        }
        loop
            invariant_except_break
                column_def_list(t, i0) == prepend_items(column_views(items@), column_def_list(t, self.position())),
            invariant
                self.tokens() == t,
                t == old(self).tokens(),
                i0 == old(self).position(),
                !overruns(column_def_list(t, i0)),
                0 <= i0 <= self.position(),
            ensures
                self.tokens() == t,
                column_def_list(t, i0) == Parsed::Ok((column_views(items@), self.position())),
            decreases t.len() - self.position(),
        {
            let ghost p = self.position();
            let ghost before = column_views(items@);
            proof {
                lemma_column_def_advances(t, p);
            }
            let col = self.parse_column_def()?;
            let ghost v = col@;
            let ghost q = self.position();
            items.push(col);
            proof {
                assert(column_views(items@) =~= before + seq![v]);
                lemma_prepend_items_assoc(before, seq![v], column_def_list(t, q + 1));
            }
            if !self.match_kind(TokenKind::Comma) {
                break ;
            }
        }
        Ok(items)
    }


    /// Parse a top-level statement.
    fn parse_statement(&mut self) -> (r: Result<Statement<'a>, ParseError<'a>>)
        requires
            !overruns(statement_spec(old(self).tokens(), old(self).position())),
        ensures
            final(self).tokens() == old(self).tokens(),
            parsed_as(r, statement_spec(old(self).tokens(), old(self).position()), final(self).position()),
    {
        // peek at the next token and match on the kind
        let nxt = self.peek();
        match nxt.kind {
            TokenKind::Select => self.parse_select(),
            TokenKind::Insert => self.parse_insert(),
            TokenKind::Create => self.parse_create(),
            _ => {
                let msg = join2(
                    "Expected the start of a statement (SELECT, CREATE, INSERT), found ",
                    kind_str(nxt.kind),
                );
                Err(ParseError { token: nxt, msg })
            },
        }
    }

    /// Parse a SELECT statement.
    /// Ex: SELECT column[, column ..] FROM table [WHERE column =|<|<=|>|>= String|Number]
    fn parse_select(&mut self) -> (r: Result<Statement<'a>, ParseError<'a>>)
        requires
            !overruns(select_spec(old(self).tokens(), old(self).position())),
        ensures
            final(self).tokens() == old(self).tokens(),
            parsed_as(r, select_spec(old(self).tokens(), old(self).position()), final(self).position()),
    {
        // advance past the SELECT keyword (it should be SELECT but error if somehow its not)
        self.expect(TokenKind::Select)?;
        // consume column names (identifiers) until we have no more
        let columns = self.parse_identifier_list()?;
        // get the FROM keyword and table name
        self.expect(TokenKind::From)?;
        // now we expect an IDENTIFIER.
        let table_token = self.expect(TokenKind::Identifier)?;
        // now check if we have a WHERE clause
        let where_clause = if self.match_kind(TokenKind::Where) {
            // we only support one where clause and it is just a Comparison
            // we get a column name, operation, and a literal (number or string)
            let column = self.expect(TokenKind::Identifier)?;
            let op_tok = self.peek();
            let op = match op_tok.kind {
                TokenKind::Equal => ComparisonOp::Eq,
                TokenKind::LessThan => ComparisonOp::Lt,
                TokenKind::LessThanEqual => ComparisonOp::LtEq,
                TokenKind::GreaterThan => ComparisonOp::Gt,
                TokenKind::GreaterThanEqual => ComparisonOp::GtEq,
                _ => {
                    let msg = join2("Expected a comparison operator; got ", kind_str(op_tok.kind));
                    return Err(ParseError { token: op_tok, msg });
                },
            };
            // successfully parsed a comparison so advance
            self.advance();
            // next is either a String or Number (literal)
            let literal = self.parse_literal()?;
            Some(Comparison { column: column.lexeme, op, value: literal })
        } else {
            None
        };
        Ok(Statement::Select { table: table_token.lexeme, columns, where_clause })
    }

    /// Parse an INSERT statement.
    /// Ex: INSERT INTO table [(column[, column ..])] VALUES (Literal [, Literal ..])
    fn parse_insert(&mut self) -> (r: Result<Statement<'a>, ParseError<'a>>)
        requires
            !overruns(insert_spec(old(self).tokens(), old(self).position())),
        ensures
            final(self).tokens() == old(self).tokens(),
            parsed_as(r, insert_spec(old(self).tokens(), old(self).position()), final(self).position()),
    {
        // parse the INSERT INTO
        self.expect(TokenKind::Insert)?;
        self.expect(TokenKind::Into)?;
        // get the table name
        let table_token = self.expect(TokenKind::Identifier)?;
        let columns = if self.peek().kind == TokenKind::LeftParen {
            // user chose to define column names so we parse it
            self.expect(TokenKind::LeftParen)?;
            let cols = self.parse_identifier_list()?;
            self.expect(TokenKind::RightParen)?;
            Some(cols)
        } else {
            None
        };
        self.expect(TokenKind::Values)?;
        self.expect(TokenKind::LeftParen)?;
        let values = self.parse_literal_list()?;
        self.expect(TokenKind::RightParen)?;
        Ok(Statement::Insert { table: table_token.lexeme, columns, values })
    }

    /// Parse a CREATE TABLE statement.
    /// Ex: CREATE TABLE table (column_name data_type [, column_name data_type ... ])
    fn parse_create(&mut self) -> (r: Result<Statement<'a>, ParseError<'a>>)
        requires
            !overruns(create_spec(old(self).tokens(), old(self).position())),
        ensures
            final(self).tokens() == old(self).tokens(),
            parsed_as(r, create_spec(old(self).tokens(), old(self).position()), final(self).position()),
    {
        // parse CREATE TABLE
        self.expect(TokenKind::Create)?;
        self.expect(TokenKind::Table)?;
        // get the table name
        let table_token = self.expect(TokenKind::Identifier)?;
        // parse the columns
        self.expect(TokenKind::LeftParen)?;
        let columns = self.parse_column_def_list()?;
        self.expect(TokenKind::RightParen)?;
        Ok(Statement::Create { table: table_token.lexeme, columns })
    }

    /// Parse the AST.
    pub fn parse(self) -> (r: Result<Vec<Statement<'a>>, ParseError<'a>>)
        requires
            !overruns(statements_spec(self.tokens(), self.position())),
        ensures
            match statements_spec(self.tokens(), self.position()) {
                Ok(sts) => r matches Ok(v) && statement_views(v@) == sts,
                Err(Failure::Error(e, _)) => r matches Err(x) && x@ == e,
                Err(Failure::Overrun) => false,
            },
    {
        let ghost t = self.tokens();
        let ghost i0 = self.position();
        let mut parser = self;
        let mut statements: Vec<Statement<'a>> = Vec::new();
        proof {
            assert(statement_views(statements@) =~= Seq::<StatementView>::empty());
            if let Ok(v) = statements_spec(t, i0) {
                assert(Seq::<StatementView>::empty() + v =~= v);
            }
        }
        while parser.peek().kind != TokenKind::Eof
            invariant
                parser.tokens() == t,
                t == self.tokens(),
                i0 == self.position(),
                !overruns(statements_spec(t, i0)),
                0 <= i0 <= parser.position(),
                statements_spec(t, i0) == prepend_statements(
                    statement_views(statements@),
                    statements_spec(t, parser.position()),
                ),
            decreases t.len() - parser.position(),
        {
            let ghost p = parser.position();
            let ghost before = statement_views(statements@);
            proof {
                lemma_statement_advances(t, p);
            }
            let st = parser.parse_statement()?;
            let ghost v = st@;
            statements.push(st);
            proof {
                assert(statement_views(statements@) =~= before + seq![v]);
                if let Ok(rest) = statements_spec(t, parser.position()) {
                    assert(before + (seq![v] + rest) =~= before + seq![v] + rest);
                }
            }
        }
        proof {
            assert(statement_views(statements@) + Seq::<StatementView>::empty() =~= statement_views(statements@));
        }
        Ok(statements)
    }

}

// ---------------------------------------------------------------------------
// Laws
// ---------------------------------------------------------------------------

/// Whether a parse that starts at or before `e` and succeeds stops at or before `e`.
pub open spec fn stops_by<T>(e: int, r: Parsed<T>) -> bool {
    r matches Ok((_, j)) ==> j <= e
}

/// A failed parse that starts at `i` blames a token of `t` between `i` and `e`, and leaves
/// the parser between `i` and `e`.
pub open spec fn blames<X>(t: Seq<TokenView>, i: int, e: int, r: Result<X, Failure>) -> bool {
    r matches Err(Failure::Error(err, p)) ==> i <= p <= e && exists|x: int|
        i <= x <= e && #[trigger] t[x] == err.token
}

/// With an end marker at `e`, a parse from `i` that reads one token stays within the tokens.
pub open spec fn bounded<T>(t: Seq<TokenView>, i: int, e: int, r: Parsed<T>) -> bool {
    &&& !overruns(r)
    &&& stops_by(e, r)
    &&& blames(t, i, e, r)
}

/// Consuming an expected token stays before the end marker and blames the token it found.
proof fn lemma_expect_bounded(t: Seq<TokenView>, e: int, i: int, kind: TokenKind)
    requires
        0 <= i <= e < t.len(),
        t[e].kind == TokenKind::Eof,
        kind != TokenKind::Eof,
    ensures
        bounded(t, i, e, expect_spec(t, i, kind)),
{
}

/// A literal stays before the end marker and blames a given token.
proof fn lemma_literal_bounded(t: Seq<TokenView>, e: int, i: int)
    requires
        0 <= i <= e < t.len(),
        t[e].kind == TokenKind::Eof,
    ensures
        bounded(t, i, e, literal_spec(t, i)),
{
}

/// A data type stays before the end marker and blames a given token.
proof fn lemma_datatype_bounded(t: Seq<TokenView>, e: int, i: int)
    requires
        0 <= i <= e < t.len(),
        t[e].kind == TokenKind::Eof,
    ensures
        bounded(t, i, e, datatype_spec(t, i)),
{
    if t[i].kind == TokenKind::Identifier {
        lemma_expect_bounded(t, e, i + 1, TokenKind::LeftParen);
        if expect_spec(t, i + 1, TokenKind::LeftParen) is Ok {
            lemma_expect_bounded(t, e, i + 2, TokenKind::Number);
            if expect_spec(t, i + 2, TokenKind::Number) is Ok {
                assert(t[i + 2] == t[i + 2]);
                lemma_expect_bounded(t, e, i + 3, TokenKind::RightParen);
            }
        }
    }
}

/// A column definition stays before the end marker and blames a given token.
proof fn lemma_column_def_bounded(t: Seq<TokenView>, e: int, i: int)
    requires
        0 <= i <= e < t.len(),
        t[e].kind == TokenKind::Eof,
    ensures
        bounded(t, i, e, column_def_spec(t, i)),
{
    lemma_expect_bounded(t, e, i, TokenKind::Identifier);
    if expect_spec(t, i, TokenKind::Identifier) is Ok {
        lemma_datatype_bounded(t, e, i + 1);
    }
}

/// An identifier list stays before the end marker and blames a given token.
proof fn lemma_identifier_list_bounded(t: Seq<TokenView>, e: int, i: int)
    requires
        0 <= i <= e < t.len(),
        t[e].kind == TokenKind::Eof,
    ensures
        bounded(t, i, e, identifier_list(t, i)),
    decreases e - i,
{
    lemma_expect_bounded(t, e, i, TokenKind::Identifier);
    if expect_spec(t, i, TokenKind::Identifier) is Ok {
        if t[i + 1].kind == TokenKind::Comma {
            lemma_identifier_list_bounded(t, e, i + 2);
        }
    }
}

/// A literal list stays before the end marker and blames a given token.
proof fn lemma_literal_list_bounded(t: Seq<TokenView>, e: int, i: int)
    requires
        0 <= i <= e < t.len(),
        t[e].kind == TokenKind::Eof,
    ensures
        bounded(t, i, e, literal_list(t, i)),
    decreases e - i,
{
    lemma_literal_bounded(t, e, i);
    if literal_spec(t, i) is Ok {
        if t[i + 1].kind == TokenKind::Comma {
            lemma_literal_list_bounded(t, e, i + 2);
        }
    }
}

/// A column definition list stays before the end marker and blames a given token.
proof fn lemma_column_def_list_bounded(t: Seq<TokenView>, e: int, i: int)
    requires
        0 <= i <= e < t.len(),
        t[e].kind == TokenKind::Eof,
    ensures
        bounded(t, i, e, column_def_list(t, i)),
    decreases e - i,
{
    lemma_column_def_bounded(t, e, i);
    lemma_column_def_advances(t, i);
    if let Ok((_, j)) = column_def_spec(t, i) {
        if t[j].kind == TokenKind::Comma {
            lemma_column_def_list_bounded(t, e, j + 1);
        }
    }
}

/// A comparison stays before the end marker and blames a given token.
proof fn lemma_comparison_bounded(t: Seq<TokenView>, e: int, i: int)
    requires
        0 <= i <= e < t.len(),
        t[e].kind == TokenKind::Eof,
    ensures
        bounded(t, i, e, comparison_spec(t, i)),
{
    lemma_expect_bounded(t, e, i, TokenKind::Identifier);
    if expect_spec(t, i, TokenKind::Identifier) is Ok {
        if comparison_op(t[i + 1].kind) is Some {
            lemma_literal_bounded(t, e, i + 2);
        }
    }
}

/// A statement stays before the end marker and blames a given token.
proof fn lemma_statement_bounded(t: Seq<TokenView>, e: int, i: int)
    requires
        0 <= i <= e < t.len(),
        t[e].kind == TokenKind::Eof,
    ensures
        bounded(t, i, e, statement_spec(t, i)),
{
    let kind = t[i].kind;
    if kind == TokenKind::Select {
        lemma_expect_bounded(t, e, i, TokenKind::Select);
        lemma_identifier_list_bounded(t, e, i + 1);
        if let Ok((_, b)) = identifier_list(t, i + 1) {
            lemma_identifier_list_advances(t, i + 1);
            lemma_expect_bounded(t, e, b, TokenKind::From);
            if expect_spec(t, b, TokenKind::From) is Ok {
                lemma_expect_bounded(t, e, b + 1, TokenKind::Identifier);
                if expect_spec(t, b + 1, TokenKind::Identifier) is Ok {
                    if t[b + 2].kind == TokenKind::Where {
                        lemma_comparison_bounded(t, e, b + 3);
                    }
                }
            }
        }
    } else if kind == TokenKind::Insert {
        lemma_expect_bounded(t, e, i, TokenKind::Insert);
        lemma_expect_bounded(t, e, i + 1, TokenKind::Into);
        if expect_spec(t, i + 1, TokenKind::Into) is Ok {
            lemma_expect_bounded(t, e, i + 2, TokenKind::Identifier);
        }
        if expect_spec(t, i + 1, TokenKind::Into) is Ok && expect_spec(t, i + 2, TokenKind::Identifier) is Ok {
            let c = i + 3;
            if t[c].kind == TokenKind::LeftParen {
                lemma_identifier_list_bounded(t, e, c + 1);
                if let Ok((_, j)) = identifier_list(t, c + 1) {
                    lemma_identifier_list_advances(t, c + 1);
                    lemma_expect_bounded(t, e, j, TokenKind::RightParen);
                }
            }
            if let Ok((_, d)) = insert_columns_spec(t, c) {
                lemma_expect_bounded(t, e, d, TokenKind::Values);
                if expect_spec(t, d, TokenKind::Values) is Ok {
                    lemma_expect_bounded(t, e, d + 1, TokenKind::LeftParen);
                    if expect_spec(t, d + 1, TokenKind::LeftParen) is Ok {
                        lemma_literal_list_bounded(t, e, d + 2);
                        if let Ok((_, h)) = literal_list(t, d + 2) {
                            lemma_literal_list_advances(t, d + 2);
                            lemma_expect_bounded(t, e, h, TokenKind::RightParen);
                        }
                    }
                }
            }
        }
    } else if kind == TokenKind::Create {
        lemma_expect_bounded(t, e, i, TokenKind::Create);
        lemma_expect_bounded(t, e, i + 1, TokenKind::Table);
        if expect_spec(t, i + 1, TokenKind::Table) is Ok {
            lemma_expect_bounded(t, e, i + 2, TokenKind::Identifier);
            if expect_spec(t, i + 2, TokenKind::Identifier) is Ok {
                lemma_expect_bounded(t, e, i + 3, TokenKind::LeftParen);
            }
        }
        if expect_spec(t, i + 1, TokenKind::Table) is Ok && expect_spec(t, i + 2, TokenKind::Identifier) is Ok
            && expect_spec(t, i + 3, TokenKind::LeftParen) is Ok {
            lemma_column_def_list_bounded(t, e, i + 4);
            if let Ok((_, f)) = column_def_list(t, i + 4) {
                lemma_column_def_list_advances(t, i + 4);
                lemma_expect_bounded(t, e, f, TokenKind::RightParen);
            }
        }
    }
}

/// Parsing statements stays before the end marker and blames a given token.
proof fn lemma_statements_bounded(t: Seq<TokenView>, e: int, i: int)
    requires
        0 <= i <= e < t.len(),
        t[e].kind == TokenKind::Eof,
    ensures
        !overruns(statements_spec(t, i)),
        blames(t, i, e, statements_spec(t, i)),
    decreases e - i,
{
    if t[i].kind != TokenKind::Eof {
        lemma_statement_bounded(t, e, i);
        lemma_statement_advances(t, i);
        if let Ok((_, j)) = statement_spec(t, i) {
            lemma_statements_bounded(t, e, j);
            if let Err(Failure::Error(err, p)) = statements_spec(t, j) {
                let x = choose|x: int| j <= x <= e && #[trigger] t[x] == err.token;
                assert(t[x] == err.token);
            }
        } else if let Err(Failure::Error(err, p)) = statement_spec(t, i) {
            let x = choose|x: int| i <= x <= e && #[trigger] t[x] == err.token;
            assert(t[x] == err.token);
        }
    }
}

/// The parser stays within its tokens when an end marker lies ahead: parsing from `i`
/// never reads past the end, so `Parser::parse` may be called.
pub proof fn law_eof_ahead_parses_within(t: Seq<TokenView>, i: int)
    requires
        eof_ahead(t, i),
    ensures
        !overruns(statements_spec(t, i)),
{
    let e = choose|j: int| 0 <= i <= j < t.len() && (#[trigger] t[j]).kind == TokenKind::Eof;
    assert(t[e].kind == TokenKind::Eof);
    lemma_statements_bounded(t, e, i);
}

/// A parse error holds a token it was given, and leaves the parser, between the index
/// parsing started at and the end marker.
pub proof fn law_parse_error_holds_a_given_token(t: Seq<TokenView>, e: int, i: int)
    requires
        0 <= i <= e < t.len(),
        t[e].kind == TokenKind::Eof,
    ensures
        statements_spec(t, i) matches Err(Failure::Error(err, p)) ==> i <= p <= e && exists|x: int|
            i <= x <= e && #[trigger] t[x] == err.token,
{
    lemma_statements_bounded(t, e, i);
}

/// The tokens of a successful lex always satisfy what the parser asks of its tokens: an end
/// marker lies ahead of the first token, so parsing them never reads past the end.
pub proof fn law_lexed_tokens_parse(s: Seq<char>, k: int)
    requires
        0 <= k <= s.len(),
        utf8_len(s) <= usize::MAX,
    ensures
        lex_spec(s, k) matches Ok(ts) ==> eof_ahead(ts, 0) && !overruns(statements_spec(ts, 0)),
{
    law_lex_ends_with_eof(s, k);
    if let Ok(ts) = lex_spec(s, k) {
        assert(ts[ts.len() - 1].kind == TokenKind::Eof);
        law_eof_ahead_parses_within(ts, 0);
    }
}

/// Two token sequences show the parser the same tokens up to index `e`, where an end
/// marker stands.
pub open spec fn agree_upto(t: Seq<TokenView>, u: Seq<TokenView>, e: int) -> bool {
    &&& 0 <= e < t.len()
    &&& e < u.len()
    &&& t[e].kind == TokenKind::Eof
    &&& forall|x: int| 0 <= x <= e ==> #[trigger] t[x] == u[x]
}

/// Consuming an expected token sees only tokens up to the end marker.
proof fn lemma_expect_upto(t: Seq<TokenView>, u: Seq<TokenView>, e: int, i: int, kind: TokenKind)
    requires
        agree_upto(t, u, e),
        0 <= i <= e,
    ensures
        expect_spec(t, i, kind) == expect_spec(u, i, kind),
{
    assert(t[i] == u[i]);
}

/// A literal parse sees only tokens up to the end marker.
proof fn lemma_literal_upto(t: Seq<TokenView>, u: Seq<TokenView>, e: int, i: int)
    requires
        agree_upto(t, u, e),
        0 <= i <= e,
    ensures
        literal_spec(t, i) == literal_spec(u, i),
{
    assert(t[i] == u[i]);
}

/// A data type parse sees only tokens up to the end marker.
proof fn lemma_datatype_upto(t: Seq<TokenView>, u: Seq<TokenView>, e: int, i: int)
    requires
        agree_upto(t, u, e),
        0 <= i <= e,
    ensures
        datatype_spec(t, i) == datatype_spec(u, i),
{
    lemma_datatype_bounded(t, e, i);
    assert(t[i] == u[i]);
    if t[i].kind == TokenKind::Identifier {
        lemma_expect_bounded(t, e, i + 1, TokenKind::LeftParen);
        lemma_expect_upto(t, u, e, i + 1, TokenKind::LeftParen);
        if expect_spec(t, i + 1, TokenKind::LeftParen) is Ok {
            lemma_expect_bounded(t, e, i + 2, TokenKind::Number);
            lemma_expect_upto(t, u, e, i + 2, TokenKind::Number);
            if expect_spec(t, i + 2, TokenKind::Number) is Ok {
                lemma_expect_upto(t, u, e, i + 3, TokenKind::RightParen);
            }
        }
    }
}

/// A column definition parse sees only tokens up to the end marker.
proof fn lemma_column_def_upto(t: Seq<TokenView>, u: Seq<TokenView>, e: int, i: int)
    requires
        agree_upto(t, u, e),
        0 <= i <= e,
    ensures
        column_def_spec(t, i) == column_def_spec(u, i),
{
    lemma_expect_bounded(t, e, i, TokenKind::Identifier);
    lemma_expect_upto(t, u, e, i, TokenKind::Identifier);
    if expect_spec(t, i, TokenKind::Identifier) is Ok {
        lemma_datatype_upto(t, u, e, i + 1);
    }
}

/// An identifier list parse sees only tokens up to the end marker.
proof fn lemma_identifier_list_upto(t: Seq<TokenView>, u: Seq<TokenView>, e: int, i: int)
    requires
        agree_upto(t, u, e),
        0 <= i <= e,
    ensures
        identifier_list(t, i) == identifier_list(u, i),
    decreases e - i,
{
    lemma_expect_bounded(t, e, i, TokenKind::Identifier);
    lemma_expect_upto(t, u, e, i, TokenKind::Identifier);
    if expect_spec(t, i, TokenKind::Identifier) is Ok {
        assert(t[i + 1] == u[i + 1]);
        if t[i + 1].kind == TokenKind::Comma {
            lemma_identifier_list_upto(t, u, e, i + 2);
        }
    }
}

/// A literal list parse sees only tokens up to the end marker.
proof fn lemma_literal_list_upto(t: Seq<TokenView>, u: Seq<TokenView>, e: int, i: int)
    requires
        agree_upto(t, u, e),
        0 <= i <= e,
    ensures
        literal_list(t, i) == literal_list(u, i),
    decreases e - i,
{
    lemma_literal_bounded(t, e, i);
    lemma_literal_upto(t, u, e, i);
    if literal_spec(t, i) is Ok {
        assert(t[i + 1] == u[i + 1]);
        if t[i + 1].kind == TokenKind::Comma {
            lemma_literal_list_upto(t, u, e, i + 2);
        }
    }
}

/// A column definition list parse sees only tokens up to the end marker.
proof fn lemma_column_def_list_upto(t: Seq<TokenView>, u: Seq<TokenView>, e: int, i: int)
    requires
        agree_upto(t, u, e),
        0 <= i <= e,
    ensures
        column_def_list(t, i) == column_def_list(u, i),
    decreases e - i,
{
    lemma_column_def_bounded(t, e, i);
    lemma_column_def_upto(t, u, e, i);
    if let Ok((_, j)) = column_def_spec(t, i) {
        assert(t[j] == u[j]);
        if t[j].kind == TokenKind::Comma {
            lemma_column_def_advances(t, i);
            lemma_column_def_list_upto(t, u, e, j + 1);
        }
    }
}

/// A comparison parse sees only tokens up to the end marker.
proof fn lemma_comparison_upto(t: Seq<TokenView>, u: Seq<TokenView>, e: int, i: int)
    requires
        agree_upto(t, u, e),
        0 <= i <= e,
    ensures
        comparison_spec(t, i) == comparison_spec(u, i),
{
    lemma_expect_bounded(t, e, i, TokenKind::Identifier);
    lemma_expect_upto(t, u, e, i, TokenKind::Identifier);
    if expect_spec(t, i, TokenKind::Identifier) is Ok {
        assert(t[i + 1] == u[i + 1]);
        if comparison_op(t[i + 1].kind) is Some {
            lemma_literal_upto(t, u, e, i + 2);
        }
    }
}

/// A statement parse sees only tokens up to the end marker.
proof fn lemma_statement_upto(t: Seq<TokenView>, u: Seq<TokenView>, e: int, i: int)
    requires
        agree_upto(t, u, e),
        0 <= i <= e,
    ensures
        statement_spec(t, i) == statement_spec(u, i),
{
    assert(t[i] == u[i]);
    let kind = t[i].kind;
    if kind == TokenKind::Select {
        lemma_expect_upto(t, u, e, i, TokenKind::Select);
        lemma_identifier_list_bounded(t, e, i + 1);
        lemma_identifier_list_upto(t, u, e, i + 1);
        lemma_identifier_list_advances(t, i + 1);
        if let Ok((_, b)) = identifier_list(t, i + 1) {
            lemma_expect_bounded(t, e, b, TokenKind::From);
            lemma_expect_upto(t, u, e, b, TokenKind::From);
            if expect_spec(t, b, TokenKind::From) is Ok {
                lemma_expect_bounded(t, e, b + 1, TokenKind::Identifier);
                lemma_expect_upto(t, u, e, b + 1, TokenKind::Identifier);
                if expect_spec(t, b + 1, TokenKind::Identifier) is Ok {
                    assert(t[b + 2] == u[b + 2]);
                    if t[b + 2].kind == TokenKind::Where {
                        lemma_comparison_upto(t, u, e, b + 3);
                    }
                }
            }
        }
    } else if kind == TokenKind::Insert {
        lemma_expect_upto(t, u, e, i, TokenKind::Insert);
        lemma_expect_upto(t, u, e, i + 1, TokenKind::Into);
        lemma_expect_bounded(t, e, i + 1, TokenKind::Into);
        if expect_spec(t, i + 1, TokenKind::Into) is Ok {
            lemma_expect_upto(t, u, e, i + 2, TokenKind::Identifier);
            lemma_expect_bounded(t, e, i + 2, TokenKind::Identifier);
        }
        if expect_spec(t, i + 1, TokenKind::Into) is Ok && expect_spec(t, i + 2, TokenKind::Identifier) is Ok {
            let c = i + 3;
            assert(t[c] == u[c]);
            if t[c].kind == TokenKind::LeftParen {
                lemma_identifier_list_bounded(t, e, c + 1);
                lemma_identifier_list_upto(t, u, e, c + 1);
                lemma_identifier_list_advances(t, c + 1);
                if let Ok((_, j)) = identifier_list(t, c + 1) {
                    lemma_expect_upto(t, u, e, j, TokenKind::RightParen);
                    lemma_expect_bounded(t, e, j, TokenKind::RightParen);
                }
            }
            assert(insert_columns_spec(t, c) == insert_columns_spec(u, c));
            if let Ok((_, d)) = insert_columns_spec(t, c) {
                lemma_expect_upto(t, u, e, d, TokenKind::Values);
                lemma_expect_bounded(t, e, d, TokenKind::Values);
                if expect_spec(t, d, TokenKind::Values) is Ok {
                    lemma_expect_upto(t, u, e, d + 1, TokenKind::LeftParen);
                    lemma_expect_bounded(t, e, d + 1, TokenKind::LeftParen);
                    if expect_spec(t, d + 1, TokenKind::LeftParen) is Ok {
                        lemma_literal_list_bounded(t, e, d + 2);
                        lemma_literal_list_upto(t, u, e, d + 2);
                        lemma_literal_list_advances(t, d + 2);
                        if let Ok((_, h)) = literal_list(t, d + 2) {
                            lemma_expect_upto(t, u, e, h, TokenKind::RightParen);
                        }
                    }
                }
            }
        }
    } else if kind == TokenKind::Create {
        lemma_expect_upto(t, u, e, i, TokenKind::Create);
        lemma_expect_upto(t, u, e, i + 1, TokenKind::Table);
        lemma_expect_bounded(t, e, i + 1, TokenKind::Table);
        if expect_spec(t, i + 1, TokenKind::Table) is Ok {
            lemma_expect_upto(t, u, e, i + 2, TokenKind::Identifier);
            lemma_expect_bounded(t, e, i + 2, TokenKind::Identifier);
            if expect_spec(t, i + 2, TokenKind::Identifier) is Ok {
                lemma_expect_upto(t, u, e, i + 3, TokenKind::LeftParen);
                lemma_expect_bounded(t, e, i + 3, TokenKind::LeftParen);
            }
        }
        if expect_spec(t, i + 1, TokenKind::Table) is Ok && expect_spec(t, i + 2, TokenKind::Identifier) is Ok
            && expect_spec(t, i + 3, TokenKind::LeftParen) is Ok {
            lemma_column_def_list_bounded(t, e, i + 4);
            lemma_column_def_list_upto(t, u, e, i + 4);
            lemma_column_def_list_advances(t, i + 4);
            if let Ok((_, f)) = column_def_list(t, i + 4) {
                lemma_expect_upto(t, u, e, f, TokenKind::RightParen);
            }
        }
    }
}

/// Parsing statements sees only tokens up to the end marker.
proof fn lemma_statements_upto(t: Seq<TokenView>, u: Seq<TokenView>, e: int, i: int)
    requires
        agree_upto(t, u, e),
        0 <= i <= e,
    ensures
        statements_spec(t, i) == statements_spec(u, i),
    decreases e - i,
{
    assert(t[i] == u[i]);
    if t[i].kind != TokenKind::Eof {
        lemma_statement_upto(t, u, e, i);
        lemma_statement_bounded(t, e, i);
        lemma_statement_advances(t, i);
        if let Ok((_, j)) = statement_spec(t, i) {
            lemma_statements_upto(t, u, e, j);
        }
    }
}

/// The parser never reads past an end marker: two token sequences that agree up to an end
/// marker at index `e` parse to the same statements, or fail in the same way, from any
/// index up to `e`.
pub proof fn law_parse_stops_at_eof(t: Seq<TokenView>, u: Seq<TokenView>, e: int, i: int)
    requires
        0 <= i <= e < t.len(),
        e < u.len(),
        t[e].kind == TokenKind::Eof,
        t.take(e + 1) == u.take(e + 1),
    ensures
        statements_spec(t, i) == statements_spec(u, i),
{
    assert forall|x: int| 0 <= x <= e implies #[trigger] t[x] == u[x] by {
        assert(t.take(e + 1)[x] == t[x]);
        assert(u.take(e + 1)[x] == u[x]);
    }
    lemma_statements_upto(t, u, e, i);
}


/// Whether a token kind may stand right after a whole statement: the start of another
/// statement, or the end marker.
pub open spec fn statement_boundary(k: TokenKind) -> bool {
    k == TokenKind::Select || k == TokenKind::Insert || k == TokenKind::Create || k
        == TokenKind::Eof
}

/// Whether two tokens have the same kind and lexeme (wherever they stand).
pub open spec fn same_text_token(a: TokenView, b: TokenView) -> bool {
    a.kind == b.kind && a.lexeme == b.lexeme
}

/// `u` holds the kinds and lexemes of the tokens of `t` before its end marker at `e`, `n` places
/// further on, with no
/// end marker among them, and after them a statement boundary.
pub open spec fn carries(t: Seq<TokenView>, u: Seq<TokenView>, e: int, n: int) -> bool {
    &&& 0 <= e < t.len()
    &&& 0 <= n
    &&& e + n < u.len()
    &&& t[e].kind == TokenKind::Eof
    &&& forall|x: int|
        0 <= x < e ==> same_text_token(#[trigger] t[x], u[x + n]) && t[x].kind != TokenKind::Eof
    &&& statement_boundary(u[e + n].kind)
}

/// A parse result with its end index moved `n` places on.
pub open spec fn moved<T>(r: Parsed<T>, n: int) -> Parsed<T> {
    match r {
        Ok((v, j)) => Ok((v, j + n)),
        Err(f) => Err(f),
    }
}

/// A successful expect carries over.
proof fn lemma_expect_moves(t: Seq<TokenView>, u: Seq<TokenView>, e: int, n: int, i: int, kind: TokenKind)
    requires
        carries(t, u, e, n),
        0 <= i <= e,
        kind != TokenKind::Eof,
    ensures
        expect_spec(t, i, kind) matches Ok((tok, j)) ==> (expect_spec(u, i + n, kind) matches Ok(
            (tok2, j2),
        ) && tok2.lexeme == tok.lexeme && j2 == j + n),
{
    if i < e {
        assert(same_text_token(t[i], u[i + n]));
    }
}

/// A successful literal carries over.
proof fn lemma_literal_moves(t: Seq<TokenView>, u: Seq<TokenView>, e: int, n: int, i: int)
    requires
        carries(t, u, e, n),
        0 <= i <= e,
    ensures
        literal_spec(t, i) is Ok ==> literal_spec(u, i + n) == moved(literal_spec(t, i), n),
{
    if i < e {
        assert(same_text_token(t[i], u[i + n]));
    }
}

/// A successful data type carries over.
proof fn lemma_datatype_moves(t: Seq<TokenView>, u: Seq<TokenView>, e: int, n: int, i: int)
    requires
        carries(t, u, e, n),
        0 <= i <= e,
    ensures
        datatype_spec(t, i) is Ok ==> datatype_spec(u, i + n) == moved(datatype_spec(t, i), n),
{
    if i < e {
        assert(same_text_token(t[i], u[i + n]));
        lemma_expect_moves(t, u, e, n, i + 1, TokenKind::LeftParen);
        if expect_spec(t, i + 1, TokenKind::LeftParen) is Ok {
            lemma_expect_moves(t, u, e, n, i + 2, TokenKind::Number);
            if expect_spec(t, i + 2, TokenKind::Number) is Ok {
                lemma_expect_moves(t, u, e, n, i + 3, TokenKind::RightParen);
            }
        }
    }
}

/// A successful column definition carries over.
proof fn lemma_column_def_moves(t: Seq<TokenView>, u: Seq<TokenView>, e: int, n: int, i: int)
    requires
        carries(t, u, e, n),
        0 <= i <= e,
    ensures
        column_def_spec(t, i) is Ok ==> column_def_spec(u, i + n) == moved(column_def_spec(t, i), n),
{
    lemma_expect_moves(t, u, e, n, i, TokenKind::Identifier);
    if expect_spec(t, i, TokenKind::Identifier) is Ok {
        lemma_datatype_moves(t, u, e, n, i + 1);
    }
}

/// A successful identifier list carries over.
proof fn lemma_identifier_list_moves(t: Seq<TokenView>, u: Seq<TokenView>, e: int, n: int, i: int)
    requires
        carries(t, u, e, n),
        0 <= i <= e,
    ensures
        identifier_list(t, i) is Ok ==> identifier_list(u, i + n) == moved(identifier_list(t, i), n),
    decreases e - i,
{
    lemma_expect_moves(t, u, e, n, i, TokenKind::Identifier);
    if expect_spec(t, i, TokenKind::Identifier) is Ok {
        let j = i + 1;
        if j < e {
            assert(same_text_token(t[j], u[j + n]));
            if t[j].kind == TokenKind::Comma {
                lemma_identifier_list_moves(t, u, e, n, j + 1);
            }
        }
    }
}

/// A successful literal list carries over.
proof fn lemma_literal_list_moves(t: Seq<TokenView>, u: Seq<TokenView>, e: int, n: int, i: int)
    requires
        carries(t, u, e, n),
        0 <= i <= e,
    ensures
        literal_list(t, i) is Ok ==> literal_list(u, i + n) == moved(literal_list(t, i), n),
    decreases e - i,
{
    lemma_literal_moves(t, u, e, n, i);
    if literal_spec(t, i) is Ok {
        let j = i + 1;
        if j < e {
            assert(same_text_token(t[j], u[j + n]));
            if t[j].kind == TokenKind::Comma {
                lemma_literal_list_moves(t, u, e, n, j + 1);
            }
        }
    }
}

/// A successful column definition list carries over.
proof fn lemma_column_def_list_moves(t: Seq<TokenView>, u: Seq<TokenView>, e: int, n: int, i: int)
    requires
        carries(t, u, e, n),
        0 <= i <= e,
    ensures
        column_def_list(t, i) is Ok ==> column_def_list(u, i + n) == moved(column_def_list(t, i), n),
    decreases e - i,
{
    lemma_column_def_moves(t, u, e, n, i);
    lemma_column_def_bounded(t, e, i);
    lemma_column_def_advances(t, i);
    if let Ok((_, j)) = column_def_spec(t, i) {
        if j < e {
            assert(same_text_token(t[j], u[j + n]));
            if t[j].kind == TokenKind::Comma {
                lemma_column_def_list_moves(t, u, e, n, j + 1);
            }
        }
    }
}

/// A successful comparison carries over.
proof fn lemma_comparison_moves(t: Seq<TokenView>, u: Seq<TokenView>, e: int, n: int, i: int)
    requires
        carries(t, u, e, n),
        0 <= i <= e,
    ensures
        comparison_spec(t, i) is Ok ==> comparison_spec(u, i + n) == moved(comparison_spec(t, i), n),
{
    lemma_expect_moves(t, u, e, n, i, TokenKind::Identifier);
    if expect_spec(t, i, TokenKind::Identifier) is Ok && i + 1 < e {
        assert(same_text_token(t[i + 1], u[i + 1 + n]));
        lemma_literal_moves(t, u, e, n, i + 2);
    }
}

/// A successful statement carries over.
#[verifier::rlimit(40)]
proof fn lemma_statement_moves(t: Seq<TokenView>, u: Seq<TokenView>, e: int, n: int, i: int)
    requires
        carries(t, u, e, n),
        0 <= i <= e,
    ensures
        statement_spec(t, i) is Ok ==> statement_spec(u, i + n) == moved(statement_spec(t, i), n),
{
    if i < e {
        assert(same_text_token(t[i], u[i + n]));
        let kind = t[i].kind;
        if kind == TokenKind::Select {
            lemma_expect_moves(t, u, e, n, i, TokenKind::Select);
            lemma_identifier_list_moves(t, u, e, n, i + 1);
            lemma_identifier_list_bounded(t, e, i + 1);
            lemma_identifier_list_advances(t, i + 1);
            if let Ok((_, b)) = identifier_list(t, i + 1) {
                lemma_expect_moves(t, u, e, n, b, TokenKind::From);
                if expect_spec(t, b, TokenKind::From) is Ok {
                    lemma_expect_moves(t, u, e, n, b + 1, TokenKind::Identifier);
                    if expect_spec(t, b + 1, TokenKind::Identifier) is Ok {
                        let d = b + 2;
                        if d < e {
                            assert(same_text_token(t[d], u[d + n]));
                            if t[d].kind == TokenKind::Where {
                                lemma_comparison_moves(t, u, e, n, d + 1);
                            }
                        }
                    }
                }
            }
        } else if kind == TokenKind::Insert {
            lemma_expect_moves(t, u, e, n, i, TokenKind::Insert);
            lemma_expect_moves(t, u, e, n, i + 1, TokenKind::Into);
            if expect_spec(t, i + 1, TokenKind::Into) is Ok {
                lemma_expect_moves(t, u, e, n, i + 2, TokenKind::Identifier);
            }
            if expect_spec(t, i + 1, TokenKind::Into) is Ok && expect_spec(t, i + 2, TokenKind::Identifier) is Ok {
                let c = i + 3;
                if c < e {
                    assert(same_text_token(t[c], u[c + n]));
                    if t[c].kind == TokenKind::LeftParen {
                        lemma_identifier_list_moves(t, u, e, n, c + 1);
                        lemma_identifier_list_bounded(t, e, c + 1);
                        lemma_identifier_list_advances(t, c + 1);
                        if let Ok((_, j)) = identifier_list(t, c + 1) {
                            lemma_expect_moves(t, u, e, n, j, TokenKind::RightParen);
                        }
                    }
                }
                assert(insert_columns_spec(t, c) is Ok ==> insert_columns_spec(u, c + n) == moved(
                    insert_columns_spec(t, c),
                    n,
                ));
                if let Ok((_, d)) = insert_columns_spec(t, c) {
                    lemma_expect_moves(t, u, e, n, d, TokenKind::Values);
                    if expect_spec(t, d, TokenKind::Values) is Ok {
                        lemma_expect_moves(t, u, e, n, d + 1, TokenKind::LeftParen);
                        if expect_spec(t, d + 1, TokenKind::LeftParen) is Ok {
                            lemma_literal_list_moves(t, u, e, n, d + 2);
                            lemma_literal_list_bounded(t, e, d + 2);
                            lemma_literal_list_advances(t, d + 2);
                            if let Ok((_, h)) = literal_list(t, d + 2) {
                                lemma_expect_moves(t, u, e, n, h, TokenKind::RightParen);
                            }
                        }
                    }
                }
            }
        } else if kind == TokenKind::Create {
            lemma_expect_moves(t, u, e, n, i, TokenKind::Create);
            lemma_expect_moves(t, u, e, n, i + 1, TokenKind::Table);
            if expect_spec(t, i + 1, TokenKind::Table) is Ok {
                lemma_expect_moves(t, u, e, n, i + 2, TokenKind::Identifier);
                if expect_spec(t, i + 2, TokenKind::Identifier) is Ok {
                    lemma_expect_moves(t, u, e, n, i + 3, TokenKind::LeftParen);
                }
            }
            if expect_spec(t, i + 1, TokenKind::Table) is Ok && expect_spec(t, i + 2, TokenKind::Identifier) is Ok
                && expect_spec(t, i + 3, TokenKind::LeftParen) is Ok {
                lemma_column_def_list_moves(t, u, e, n, i + 4);
                lemma_column_def_list_bounded(t, e, i + 4);
                lemma_column_def_list_advances(t, i + 4);
                if let Ok((_, f)) = column_def_list(t, i + 4) {
                    lemma_expect_moves(t, u, e, n, f, TokenKind::RightParen);
                }
            }
        }
    }
}

/// The statements of `t` up to its end marker, parsed where `u` carries them, come before
/// whatever `u` gives after them.
pub(crate) proof fn lemma_statements_move(t: Seq<TokenView>, u: Seq<TokenView>, e: int, n: int, i: int, r: Seq<StatementView>)
    requires
        carries(t, u, e, n),
        0 <= i <= e,
        statements_spec(u, e + n) == Ok::<Seq<StatementView>, Failure>(r),
    ensures
        statements_spec(t, i) matches Ok(s) ==> statements_spec(u, i + n) == Ok::<
            Seq<StatementView>,
            Failure,
        >(s + r),
    decreases e - i,
{
    if i == e {
        assert(Seq::<StatementView>::empty() + r =~= r);
    } else {
        assert(same_text_token(t[i], u[i + n]));
        lemma_statement_moves(t, u, e, n, i);
        lemma_statement_bounded(t, e, i);
        lemma_statement_advances(t, i);
        if let Ok((st, j)) = statement_spec(t, i) {
            lemma_statements_move(t, u, e, n, j, r);
            if let Ok(rest) = statements_spec(t, j) {
                assert(seq![st] + (rest + r) =~= (seq![st] + rest) + r);
            }
        }
    }
}

/// Joining two statement texts joins their statements: where the tokens `a` and `b` each
/// parse, followed by an end marker and with none among them, the tokens of `a` then `b`
/// then an end marker parse to the statements of `a` followed by those of `b`.
pub proof fn law_parse_concatenation(a: Seq<TokenView>, b: Seq<TokenView>, x: TokenView, y: TokenView)
    requires
        x.kind == TokenKind::Eof,
        y.kind == TokenKind::Eof,
        forall|k: int| 0 <= k < a.len() ==> (#[trigger] a[k]).kind != TokenKind::Eof,
        forall|k: int| 0 <= k < b.len() ==> (#[trigger] b[k]).kind != TokenKind::Eof,
        statements_spec(a.push(x), 0) is Ok,
        statements_spec(b.push(y), 0) is Ok,
    ensures
        statements_spec(a + b.push(y), 0) == Ok::<Seq<StatementView>, Failure>(
            statements_spec(a.push(x), 0)->Ok_0 + statements_spec(b.push(y), 0)->Ok_0,
        ),
{
    let ta = a.push(x);
    let tb = b.push(y);
    let u = a + tb;
    let sa = statements_spec(ta, 0)->Ok_0;
    let sb = statements_spec(tb, 0)->Ok_0;
    // The tokens of `b` come `a.len()` places on in `u`, and `u` ends with the end marker.
    assert forall|k: int| 0 <= k < b.len() implies same_text_token(#[trigger] tb[k], u[k + a.len()])
        && tb[k].kind != TokenKind::Eof by {
        assert(tb[k] == b[k]);
        assert(u[k + a.len()] == b[k]);
    }
    assert(u[(b.len() + a.len()) as int] == y);
    assert(carries(tb, u, b.len() as int, a.len() as int));
    assert(statements_spec(u, (b.len() + a.len()) as int) == Ok::<Seq<StatementView>, Failure>(
        Seq::empty(),
    ));
    lemma_statements_move(tb, u, b.len() as int, a.len() as int, 0, Seq::empty());
    assert(sb + Seq::<StatementView>::empty() =~= sb);
    // What follows the tokens of `a` in `u` starts a statement, or is the end marker.
    assert(u[a.len() as int] == tb[0]);
    if b.len() > 0 {
        assert(tb[0] == b[0]);
        assert(statement_spec(tb, 0) is Ok);
    }
    assert forall|k: int| 0 <= k < a.len() implies same_text_token(#[trigger] ta[k], u[k + 0])
        && ta[k].kind != TokenKind::Eof by {
        assert(ta[k] == a[k]);
        assert(u[k] == a[k]);
    }
    assert(carries(ta, u, a.len() as int, 0));
    lemma_statements_move(ta, u, a.len() as int, 0, 0, sb);
}


/// A statement is parsed by the rule its first keyword picks: `SELECT`, `INSERT` and
/// `CREATE` lead to their own statement rules from the same index, and any other token is an
/// error about that token, with the parser left where it stood.
pub proof fn law_statement_dispatch(t: Seq<TokenView>, i: int)
    requires
        0 <= i < t.len(),
    ensures
        t[i].kind == TokenKind::Select ==> statement_spec(t, i) == select_spec(t, i),
        t[i].kind == TokenKind::Insert ==> statement_spec(t, i) == insert_spec(t, i),
        t[i].kind == TokenKind::Create ==> statement_spec(t, i) == create_spec(t, i),
        !statement_boundary(t[i].kind) || t[i].kind == TokenKind::Eof ==> (statement_spec(t, i)
            matches Err(Failure::Error(e, p)) && p == i && e.token == t[i]),
{
}

} // verus!

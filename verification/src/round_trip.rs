//! Writing a statement as SQL and reading the text back gives the same statement.

use vstd::prelude::*;

use crate::lexer::{
    continues, eof_token, is_word_char, is_word_start, keyword, lemma_run_end,
    lemma_token_from_advances, lex_from, lex_spec, operator_at, prepend, run_end, token_at,
    token_from, word_kind, LexerErrorView, Run,
};
use crate::parser::{
    carries, column_def_list, column_def_spec, comparison_op, comparison_spec, datatype_spec,
    identifier_list, insert_columns_spec, lemma_column_def_advances,
    lemma_identifier_list_advances, lemma_statement_advances, lemma_statements_move, literal_list,
    literal_spec, same_text_token, statement_spec, statements_spec, within, ColumnDefView,
    ComparisonOp, ComparisonView, DataType, Failure, LiteralView, StatementView,
};
use crate::render::{
    column_def_text, column_def_texts, comma_separated, comparison_text, datatype_text,
    literal_text, literal_texts, op_text, piece, statement_text, written,
};
use crate::text::{
    all_ascii, all_digits, ascii_digit, decimal, digits_value, lemma_i64_value_of_decimal,
    lemma_nat_decimal, lemma_usize_value_of_decimal, lowercase, numeric, whitespace,
};
use crate::token::{TokenKind, TokenView};

verus! {

// ---------------------------------------------------------------------------
// Statements that can be written and read back
// ---------------------------------------------------------------------------

/// A name the lexer reads as one identifier: a word that is no keyword.
pub open spec fn plain_name(w: Seq<char>) -> bool {
    &&& w.len() > 0
    &&& !whitespace(w[0])
    &&& is_word_start(w[0])
    &&& forall|k: int| 0 <= k < w.len() ==> is_word_char(#[trigger] w[k])
    &&& word_kind(w) == TokenKind::Identifier
}

/// One or more plain names.
pub open spec fn plain_names(items: Seq<Seq<char>>) -> bool {
    items.len() > 0 && forall|k: int| 0 <= k < items.len() ==> plain_name(#[trigger] items[k])
}

/// A literal the lexer reads back: a number that is not negative, a string without a quote.
pub open spec fn plain_literal(l: LiteralView) -> bool {
    match l {
        LiteralView::Number(n) => n >= 0,
        LiteralView::String(v) => forall|k: int| 0 <= k < v.len() ==> #[trigger] v[k] != '\'',
    }
}

/// One or more plain literals.
pub open spec fn plain_literals(values: Seq<LiteralView>) -> bool {
    values.len() > 0 && forall|k: int| 0 <= k < values.len() ==> plain_literal(#[trigger] values[k])
}

/// One or more column definitions with plain names.
pub open spec fn plain_columns(columns: Seq<ColumnDefView>) -> bool {
    columns.len() > 0 && forall|k: int| 0 <= k < columns.len() ==> plain_name(#[trigger] columns[k].name)
}

/// A statement whose names, literals and lists can be written and read back: the statements
/// the parser gives for lexed text.
pub open spec fn plain_statement(st: StatementView) -> bool {
    match st {
        StatementView::Select { table, columns, where_clause } => {
            &&& plain_name(table)
            &&& plain_names(columns)
            &&& where_clause matches Some(c) ==> plain_name(c.column) && plain_literal(c.value)
        },
        StatementView::Insert { table, columns, values } => {
            &&& plain_name(table)
            &&& columns matches Some(cols) ==> plain_names(cols)
            &&& plain_literals(values)
        },
        StatementView::Create { table, columns } => plain_name(table) && plain_columns(columns),
    }
}

// ---------------------------------------------------------------------------
// The tokens of a written statement
// ---------------------------------------------------------------------------

/// A token with the given kind and lexeme (at the start of the text).
pub open spec fn tok(kind: TokenKind, lexeme: Seq<char>) -> TokenView {
    TokenView { kind, lexeme, position: 0 }
}

/// The comma between list items.
pub open spec fn comma() -> TokenView {
    tok(TokenKind::Comma, ","@)
}

/// The tokens of names separated by commas.
pub open spec fn names_tokens(items: Seq<Seq<char>>) -> Seq<TokenView>
    decreases items.len(),
{
    if items.len() == 0 {
        Seq::empty()
    } else if items.len() == 1 {
        seq![tok(TokenKind::Identifier, items[0])]
    } else {
        seq![tok(TokenKind::Identifier, items[0]), comma()] + names_tokens(items.drop_first())
    }
}

/// The token of a literal as it is written.
pub open spec fn literal_token(l: LiteralView) -> TokenView {
    match l {
        LiteralView::Number(n) => tok(TokenKind::Number, decimal(n as int)),
        LiteralView::String(v) => tok(TokenKind::String, v),
    }
}

/// The tokens of literals separated by commas.
pub open spec fn literals_tokens(values: Seq<LiteralView>) -> Seq<TokenView>
    decreases values.len(),
{
    if values.len() == 0 {
        Seq::empty()
    } else if values.len() == 1 {
        seq![literal_token(values[0])]
    } else {
        seq![literal_token(values[0]), comma()] + literals_tokens(values.drop_first())
    }
}

/// The tokens of a data type as it is written.
pub open spec fn datatype_tokens(d: DataType) -> Seq<TokenView> {
    match d {
        DataType::Int => seq![tok(TokenKind::Identifier, "INT"@)],
        DataType::Text => seq![tok(TokenKind::Identifier, "TEXT"@)],
        DataType::VarChar(m) => seq![
            tok(TokenKind::Identifier, "VARCHAR"@),
            tok(TokenKind::LeftParen, "("@),
            tok(TokenKind::Number, decimal(m as int)),
            tok(TokenKind::RightParen, ")"@),
        ],
    }
}

/// The tokens of a column definition: its name, then its data type.
pub open spec fn column_tokens(c: ColumnDefView) -> Seq<TokenView> {
    seq![tok(TokenKind::Identifier, c.name)] + datatype_tokens(c.data_type)
}

/// The tokens of column definitions separated by commas.
pub open spec fn columns_tokens(columns: Seq<ColumnDefView>) -> Seq<TokenView>
    decreases columns.len(),
{
    if columns.len() == 0 {
        Seq::empty()
    } else if columns.len() == 1 {
        column_tokens(columns[0])
    } else {
        column_tokens(columns[0]) + seq![comma()] + columns_tokens(columns.drop_first())
    }
}

/// The token of a comparison operator.
pub open spec fn op_token(op: ComparisonOp) -> TokenView {
    match op {
        ComparisonOp::Eq => tok(TokenKind::Equal, "="@),
        ComparisonOp::Lt => tok(TokenKind::LessThan, "<"@),
        ComparisonOp::LtEq => tok(TokenKind::LessThanEqual, "<="@),
        ComparisonOp::Gt => tok(TokenKind::GreaterThan, ">"@),
        ComparisonOp::GtEq => tok(TokenKind::GreaterThanEqual, ">="@),
    }
}

/// The tokens of a comparison: column, operator, literal.
pub open spec fn comparison_tokens(c: ComparisonView) -> Seq<TokenView> {
    seq![tok(TokenKind::Identifier, c.column), op_token(c.op), literal_token(c.value)]
}

/// The tokens of a statement as it is written.
pub open spec fn statement_tokens(st: StatementView) -> Seq<TokenView> {
    match st {
        StatementView::Select { table, columns, where_clause } => seq![tok(TokenKind::Select, "SELECT"@)]
            + names_tokens(columns) + seq![tok(TokenKind::From, "FROM"@), tok(TokenKind::Identifier, table)]
            + match where_clause {
            Some(c) => seq![tok(TokenKind::Where, "WHERE"@)] + comparison_tokens(c),
            None => Seq::empty(),
        },
        StatementView::Insert { table, columns, values } => seq![
            tok(TokenKind::Insert, "INSERT"@),
            tok(TokenKind::Into, "INTO"@),
            tok(TokenKind::Identifier, table),
        ] + match columns {
            Some(cols) => seq![tok(TokenKind::LeftParen, "("@)] + names_tokens(cols) + seq![
                tok(TokenKind::RightParen, ")"@),
            ],
            None => Seq::empty(),
        } + seq![tok(TokenKind::Values, "VALUES"@), tok(TokenKind::LeftParen, "("@)]
            + literals_tokens(values) + seq![tok(TokenKind::RightParen, ")"@)],
        StatementView::Create { table, columns } => seq![
            tok(TokenKind::Create, "CREATE"@),
            tok(TokenKind::Table, "TABLE"@),
            tok(TokenKind::Identifier, table),
            tok(TokenKind::LeftParen, "("@),
        ] + columns_tokens(columns) + seq![tok(TokenKind::RightParen, ")"@)],
    }
}

// ---------------------------------------------------------------------------
// The parser reads the tokens of a written statement back
// ---------------------------------------------------------------------------

/// The window of `t` from `i` holds the tokens `x`.
pub open spec fn holds_at(t: Seq<TokenView>, i: int, x: Seq<TokenView>) -> bool {
    0 <= i && i + x.len() <= t.len() && t.subrange(i, i + x.len()) == x
}

/// A window inside a window.
proof fn lemma_holds_inner(t: Seq<TokenView>, i: int, x: Seq<TokenView>, k: int, y: Seq<TokenView>)
    requires
        holds_at(t, i, x),
        0 <= k,
        k + y.len() <= x.len(),
        x.subrange(k, k + y.len()) == y,
    ensures
        holds_at(t, i + k, y),
{
    assert forall|m: int| 0 <= m < y.len() implies t.subrange(i + k, i + k + y.len())[m] == y[m] by {
        assert(t.subrange(i, i + x.len())[k + m] == x[k + m]);
        assert(x.subrange(k, k + y.len())[m] == x[k + m]);
    }
    assert(t.subrange(i + k, i + k + y.len()) =~= y);
}

/// The token at an index of a window.
proof fn lemma_holds_index(t: Seq<TokenView>, i: int, x: Seq<TokenView>, k: int)
    requires
        holds_at(t, i, x),
        0 <= k < x.len(),
    ensures
        t[i + k] == x[k],
{
    assert(t.subrange(i, i + x.len())[k] == t[i + k]);
}

/// Names written with commas are read back by the identifier list rule.
proof fn lemma_names_parse(t: Seq<TokenView>, i: int, items: Seq<Seq<char>>)
    requires
        items.len() > 0,
        holds_at(t, i, names_tokens(items)),
        i + names_tokens(items).len() < t.len(),
        t[i + names_tokens(items).len()].kind != TokenKind::Comma,
    ensures
        identifier_list(t, i) == Ok::<(Seq<Seq<char>>, int), Failure>(
            (items, i + names_tokens(items).len()),
        ),
    decreases items.len(),
{
    let x = names_tokens(items);
    lemma_holds_index(t, i, x, 0);
    if items.len() == 1 {
        assert(seq![items[0]] =~= items);
    } else {
        let r = items.drop_first();
        let y = names_tokens(r);
        lemma_holds_index(t, i, x, 1);
        assert(x.subrange(2, 2 + y.len() as int) =~= y);
        lemma_holds_inner(t, i, x, 2, y);
        lemma_names_parse(t, i + 2, r);
        assert(seq![items[0]] + r =~= items);
    }
}

/// A literal as it is written is read back.
proof fn lemma_literal_parse(t: Seq<TokenView>, i: int, l: LiteralView)
    requires
        plain_literal(l),
        0 <= i < t.len(),
        t[i] == literal_token(l),
    ensures
        literal_spec(t, i) == Ok::<(LiteralView, int), Failure>((l, i + 1)),
{
    if let LiteralView::Number(n) = l {
        lemma_i64_value_of_decimal(n);
    }
}

/// Literals written with commas are read back by the literal list rule.
proof fn lemma_literals_parse(t: Seq<TokenView>, i: int, values: Seq<LiteralView>)
    requires
        plain_literals(values),
        holds_at(t, i, literals_tokens(values)),
        i + literals_tokens(values).len() < t.len(),
        t[i + literals_tokens(values).len()].kind != TokenKind::Comma,
    ensures
        literal_list(t, i) == Ok::<(Seq<LiteralView>, int), Failure>(
            (values, i + literals_tokens(values).len()),
        ),
    decreases values.len(),
{
    let x = literals_tokens(values);
    lemma_holds_index(t, i, x, 0);
    assert(plain_literal(values[0]));
    lemma_literal_parse(t, i, values[0]);
    if values.len() == 1 {
        assert(seq![values[0]] =~= values);
    } else {
        let r = values.drop_first();
        let y = literals_tokens(r);
        lemma_holds_index(t, i, x, 1);
        assert(x.subrange(2, 2 + y.len() as int) =~= y);
        lemma_holds_inner(t, i, x, 2, y);
        assert forall|k: int| 0 <= k < r.len() implies plain_literal(#[trigger] r[k]) by {
            assert(r[k] == values[k + 1]);
        }
        lemma_literals_parse(t, i + 2, r);
        assert(seq![values[0]] + r =~= values);
    }
}

/// The spellings of the data types, lowered.
proof fn lemma_type_words()
    ensures
        lowercase("INT"@) == "int"@,
        lowercase("TEXT"@) == "text"@,
        lowercase("VARCHAR"@) == "varchar"@,
        "text"@ != "int"@,
        "varchar"@ != "int"@,
        "varchar"@ != "text"@,
{
    reveal_strlit("INT");
    reveal_strlit("TEXT");
    reveal_strlit("VARCHAR");
    reveal_strlit("int");
    reveal_strlit("text");
    reveal_strlit("varchar");
    assert(all_ascii("INT"@));
    assert(all_ascii("TEXT"@));
    assert(all_ascii("VARCHAR"@));
    assert(lowercase("INT"@) =~= "int"@);
    assert(lowercase("TEXT"@) =~= "text"@);
    assert(lowercase("VARCHAR"@) =~= "varchar"@);
}

/// A data type as it is written is read back.
proof fn lemma_datatype_parse(t: Seq<TokenView>, i: int, d: DataType)
    requires
        holds_at(t, i, datatype_tokens(d)),
    ensures
        datatype_spec(t, i) == Ok::<(DataType, int), Failure>((d, i + datatype_tokens(d).len())),
{
    let x = datatype_tokens(d);
    lemma_type_words();
    lemma_holds_index(t, i, x, 0);
    if let DataType::VarChar(m) = d {
        lemma_holds_index(t, i, x, 1);
        lemma_holds_index(t, i, x, 2);
        lemma_holds_index(t, i, x, 3);
        lemma_usize_value_of_decimal(m);
    }
}

/// A column definition as it is written is read back.
proof fn lemma_column_parse(t: Seq<TokenView>, i: int, c: ColumnDefView)
    requires
        holds_at(t, i, column_tokens(c)),
    ensures
        column_def_spec(t, i) == Ok::<(ColumnDefView, int), Failure>((c, i + column_tokens(c).len())),
{
    let x = column_tokens(c);
    let y = datatype_tokens(c.data_type);
    lemma_holds_index(t, i, x, 0);
    assert(x.subrange(1, 1 + y.len() as int) =~= y);
    lemma_holds_inner(t, i, x, 1, y);
    lemma_datatype_parse(t, i + 1, c.data_type);
}

/// Column definitions written with commas are read back by the column list rule.
proof fn lemma_columns_parse(t: Seq<TokenView>, i: int, columns: Seq<ColumnDefView>)
    requires
        columns.len() > 0,
        holds_at(t, i, columns_tokens(columns)),
        i + columns_tokens(columns).len() < t.len(),
        t[i + columns_tokens(columns).len()].kind != TokenKind::Comma,
    ensures
        column_def_list(t, i) == Ok::<(Seq<ColumnDefView>, int), Failure>(
            (columns, i + columns_tokens(columns).len()),
        ),
    decreases columns.len(),
{
    let x = columns_tokens(columns);
    let c = column_tokens(columns[0]);
    let n = c.len() as int;
    assert(x.subrange(0, n) =~= c);
    lemma_holds_inner(t, i, x, 0, c);
    lemma_column_parse(t, i, columns[0]);
    if columns.len() == 1 {
        assert(seq![columns[0]] =~= columns);
    } else {
        let r = columns.drop_first();
        let y = columns_tokens(r);
        lemma_holds_index(t, i, x, n);
        assert(x.subrange(n + 1, n + 1 + y.len()) =~= y);
        lemma_holds_inner(t, i, x, n + 1, y);
        lemma_columns_parse(t, i + n + 1, r);
        assert(seq![columns[0]] + r =~= columns);
    }
}

/// A comparison as it is written is read back.
proof fn lemma_comparison_parse(t: Seq<TokenView>, i: int, c: ComparisonView)
    requires
        plain_literal(c.value),
        holds_at(t, i, comparison_tokens(c)),
    ensures
        comparison_spec(t, i) == Ok::<(ComparisonView, int), Failure>((c, i + 3)),
{
    let x = comparison_tokens(c);
    lemma_holds_index(t, i, x, 0);
    lemma_holds_index(t, i, x, 1);
    lemma_holds_index(t, i, x, 2);
    assert(comparison_op(op_token(c.op).kind) == Some(c.op));
    lemma_literal_parse(t, i + 2, c.value);
}


/// The end marker after a written statement.
pub open spec fn end_token() -> TokenView {
    tok(TokenKind::Eof, Seq::empty())
}

/// A `SELECT` as it is written is read back.
proof fn lemma_select_parse(
    table: Seq<char>,
    columns: Seq<Seq<char>>,
    where_clause: Option<ComparisonView>,
)
    requires
        ({
            let st = StatementView::Select { table, columns, where_clause };
            plain_statement(st)
        }),
    ensures
        ({
            let st = StatementView::Select { table, columns, where_clause };
            statement_spec(statement_tokens(st).push(end_token()), 0) == Ok::<(StatementView, int), Failure>(
                (st, statement_tokens(st).len() as int),
            )
        }),
{
    let st = StatementView::Select { table, columns, where_clause };
    let x = statement_tokens(st);
    let t = x.push(end_token());
    assert(t.subrange(0, x.len() as int) =~= x);
    assert(holds_at(t, 0, x));
    assert(t[x.len() as int] == end_token());
    lemma_holds_index(t, 0, x, 0);
    let n = names_tokens(columns);
    let l = n.len() as int;
    assert(x.subrange(1, 1 + l) =~= n);
    lemma_holds_inner(t, 0, x, 1, n);
    lemma_holds_index(t, 0, x, 1 + l);
    lemma_holds_index(t, 0, x, 2 + l);
    lemma_names_parse(t, 1, columns);
    if let Some(c) = where_clause {
        let ct = comparison_tokens(c);
        lemma_holds_index(t, 0, x, 3 + l);
        assert(x.subrange(4 + l, 7 + l) =~= ct);
        lemma_holds_inner(t, 0, x, 4 + l, ct);
        lemma_comparison_parse(t, 4 + l, c);
    }
}

/// An `INSERT` as it is written is read back.
proof fn lemma_insert_parse(
    table: Seq<char>,
    columns: Option<Seq<Seq<char>>>,
    values: Seq<LiteralView>,
)
    requires
        ({
            let st = StatementView::Insert { table, columns, values };
            plain_statement(st)
        }),
    ensures
        ({
            let st = StatementView::Insert { table, columns, values };
            statement_spec(statement_tokens(st).push(end_token()), 0) == Ok::<(StatementView, int), Failure>(
                (st, statement_tokens(st).len() as int),
            )
        }),
{
    let st = StatementView::Insert { table, columns, values };
    let x = statement_tokens(st);
    let t = x.push(end_token());
    assert(t.subrange(0, x.len() as int) =~= x);
    assert(holds_at(t, 0, x));
    assert(t[x.len() as int] == end_token());
    lemma_holds_index(t, 0, x, 0);
    lemma_holds_index(t, 0, x, 1);
    lemma_holds_index(t, 0, x, 2);
    lemma_holds_index(t, 0, x, 3);
    let d: int = match columns {
        Some(cols) => names_tokens(cols).len() as int + 5,
        None => 3,
    };
    if let Some(cols) = columns {
        let n = names_tokens(cols);
        let l = n.len() as int;
        assert(x.subrange(4, 4 + l) =~= n);
        lemma_holds_inner(t, 0, x, 4, n);
        lemma_holds_index(t, 0, x, 4 + l);
        lemma_names_parse(t, 4, cols);
    }
    let v = literals_tokens(values);
    let m = v.len() as int;
    lemma_holds_index(t, 0, x, d);
    lemma_holds_index(t, 0, x, d + 1);
    assert(x.subrange(d + 2, d + 2 + m) =~= v);
    lemma_holds_inner(t, 0, x, d + 2, v);
    lemma_holds_index(t, 0, x, d + 2 + m);
    lemma_literals_parse(t, d + 2, values);
}

/// A `CREATE TABLE` as it is written is read back.
proof fn lemma_create_parse(table: Seq<char>, columns: Seq<ColumnDefView>)
    requires
        ({
            let st = StatementView::Create { table, columns };
            plain_statement(st)
        }),
    ensures
        ({
            let st = StatementView::Create { table, columns };
            statement_spec(statement_tokens(st).push(end_token()), 0) == Ok::<(StatementView, int), Failure>(
                (st, statement_tokens(st).len() as int),
            )
        }),
{
    let st = StatementView::Create { table, columns };
    let x = statement_tokens(st);
    let t = x.push(end_token());
    assert(t.subrange(0, x.len() as int) =~= x);
    assert(holds_at(t, 0, x));
    assert(t[x.len() as int] == end_token());
    lemma_holds_index(t, 0, x, 0);
    lemma_holds_index(t, 0, x, 1);
    lemma_holds_index(t, 0, x, 2);
    lemma_holds_index(t, 0, x, 3);
    let c = columns_tokens(columns);
    let m = c.len() as int;
    assert(x.subrange(4, 4 + m) =~= c);
    lemma_holds_inner(t, 0, x, 4, c);
    lemma_holds_index(t, 0, x, 4 + m);
    lemma_columns_parse(t, 4, columns);
}

/// A statement as it is written is read back by the statement rule.
proof fn lemma_statement_parse(st: StatementView)
    requires
        plain_statement(st),
    ensures
        statement_spec(statement_tokens(st).push(end_token()), 0) == Ok::<(StatementView, int), Failure>(
            (st, statement_tokens(st).len() as int),
        ),
{
    match st {
        StatementView::Select { table, columns, where_clause } => lemma_select_parse(table, columns, where_clause),
        StatementView::Insert { table, columns, values } => lemma_insert_parse(table, columns, values),
        StatementView::Create { table, columns } => lemma_create_parse(table, columns),
    }
}

/// The tokens of a written statement, then the end marker, are read back as that statement.
proof fn lemma_statements_parse(st: StatementView)
    requires
        plain_statement(st),
    ensures
        statements_spec(statement_tokens(st).push(end_token()), 0) == Ok::<Seq<StatementView>, Failure>(
            seq![st],
        ),
{
    let x = statement_tokens(st);
    let t = x.push(end_token());
    lemma_statement_parse(st);
    assert(x.len() > 0 && x[0].kind != TokenKind::Eof) by {
        assert(x[0] == t[0]);
    }
    assert(t[0] == x[0]);
    assert(t[x.len() as int].kind == TokenKind::Eof);
    assert(statements_spec(t, x.len() as int) == Ok::<Seq<StatementView>, Failure>(Seq::empty()));
    assert(seq![st] + Seq::<StatementView>::empty() =~= seq![st]);
}


// ---------------------------------------------------------------------------
// The lexer reads a written statement as its tokens
// ---------------------------------------------------------------------------

/// Lexing `s` from `i` gives tokens with the kinds and lexemes of `cs` (none an end marker),
/// followed by what lexing from `j` gives; or it fails as lexing from `j` does.
#[verifier::opaque]
pub open spec fn lexes_as(s: Seq<char>, i: int, j: int, cs: Seq<TokenView>) -> bool {
    match lex_from(s, j) {
        Ok(b) => {
            &&& lex_from(s, i) is Ok
            &&& lex_from(s, i)->Ok_0.len() == cs.len() + b.len()
            &&& forall|k: int|
                0 <= k < cs.len() ==> same_text_token(#[trigger] cs[k], lex_from(s, i)->Ok_0[k])
                    && cs[k].kind != TokenKind::Eof
            &&& lex_from(s, i)->Ok_0.skip(cs.len() as int) == b
        },
        Err(e) => lex_from(s, i) == Err::<Seq<TokenView>, LexerErrorView>(e),
    }
}

/// Lexing in two stretches.
proof fn lemma_lexes_chain(s: Seq<char>, i: int, j: int, k: int, c1: Seq<TokenView>, c2: Seq<TokenView>)
    requires
        lexes_as(s, i, j, c1),
        lexes_as(s, j, k, c2),
    ensures
        lexes_as(s, i, k, c1 + c2),
{
    reveal(lexes_as);
    if let Ok(b) = lex_from(s, k) {
        let a2 = lex_from(s, j)->Ok_0;
        let a1 = lex_from(s, i)->Ok_0;
        let n1 = c1.len() as int;
        assert forall|m: int| 0 <= m < (c1 + c2).len() implies same_text_token(
            #[trigger] (c1 + c2)[m],
            a1[m],
        ) && (c1 + c2)[m].kind != TokenKind::Eof by {
            if m >= n1 {
                assert(a1[m] == a1.skip(n1)[m - n1]);
                assert(same_text_token(c2[m - n1], a2[m - n1]));
            } else {
                assert(same_text_token(c1[m], a1[m]));
            }
        }
        assert(a1.skip((c1 + c2).len() as int) =~= b) by {
            assert forall|m: int| 0 <= m < b.len() implies a1.skip((c1 + c2).len() as int)[m] == b[m] by {
                assert(a1.skip(n1)[c2.len() + m] == a2[c2.len() + m]);
                assert(a2.skip(c2.len() as int)[m] == b[m]);
            }
        }
    }
}

/// One token, then what lexing from `j` gives.
proof fn lemma_lexes_one(s: Seq<char>, i: int, j: int, t: TokenView, c: TokenView)
    requires
        lex_from(s, i) == prepend(seq![t], lex_from(s, j)),
        same_text_token(c, t),
        c.kind != TokenKind::Eof,
    ensures
        lexes_as(s, i, j, seq![c]),
{
    reveal(lexes_as);
    if let Ok(b) = lex_from(s, j) {
        assert((seq![t] + b).skip(1) =~= b);
    }
}

/// The run of class `run` from `i` covers `s[i..k]` and stops at `k`.
proof fn lemma_run_through(s: Seq<char>, i: int, k: int, run: Run)
    requires
        0 <= i <= k <= s.len(),
        forall|m: int| i <= m < k ==> continues(run, #[trigger] s[m]),
        k == s.len() || !continues(run, s[k]),
    ensures
        run_end(s, i, run) == k,
    decreases k - i,
{
    if i < k {
        lemma_run_through(s, i + 1, k, run);
    }
}

/// Where the text from `i` is `w` then `rest`, the text after `w` is `rest`.
proof fn lemma_skip_step(s: Seq<char>, i: int, w: Seq<char>, rest: Seq<char>)
    requires
        0 <= i <= s.len(),
        s.skip(i) == w + rest,
    ensures
        i + w.len() + rest.len() == s.len(),
        s.skip(i + w.len()) == rest,
        s.subrange(i, i + w.len()) == w,
        forall|m: int| 0 <= m < w.len() ==> s[i + m] == #[trigger] w[m],
        rest.len() > 0 ==> s[i + w.len()] == rest[0],
{
    assert(s.skip(i).len() == s.len() - i);
    assert(s.skip(i).len() == w.len() + rest.len());
    assert forall|m: int| 0 <= m < w.len() implies s[i + m] == #[trigger] w[m] by {
        assert(s.skip(i)[m] == (w + rest)[m]);
        assert(s.skip(i)[m] == s[i + m]);
    }
    assert forall|m: int| 0 <= m < rest.len() implies s.skip(i + w.len())[m] == rest[m] by {
        assert(s.skip(i)[w.len() + m] == (w + rest)[w.len() + m]);
        assert(s.skip(i)[w.len() + m] == s[i + w.len() + m]);
        assert(s.skip(i + w.len())[m] == s[i + w.len() + m]);
    }
    assert(s.skip(i + w.len()) =~= rest);
    assert(s.subrange(i, i + w.len()) =~= w);
}

/// A whitespace character between tokens is skipped.
proof fn lemma_lex_blank(s: Seq<char>, i: int)
    requires
        0 <= i < s.len(),
        whitespace(s[i]),
    ensures
        lexes_as(s, i, i + 1, Seq::empty()),
{
    reveal(lexes_as);
    assert(run_end(s, i, Run::Blank) == run_end(s, i + 1, Run::Blank));
    assert(lex_from(s, i) == lex_from(s, i + 1));
    if let Ok(b) = lex_from(s, i + 1) {
        assert(b.skip(0) =~= b);
    }
}

/// A word that can stand as one token.
pub open spec fn word_like(w: Seq<char>) -> bool {
    &&& w.len() > 0
    &&& !whitespace(w[0])
    &&& is_word_start(w[0])
    &&& forall|k: int| 0 <= k < w.len() ==> is_word_char(#[trigger] w[k])
}

/// A word, followed by something that does not go on with it, is one token.
pub(crate) proof fn lemma_lex_word(s: Seq<char>, i: int, w: Seq<char>, rest: Seq<char>)
    requires
        0 <= i <= s.len(),
        s.skip(i) == w + rest,
        word_like(w),
        rest.len() == 0 || !is_word_char(rest[0]),
    ensures
        lexes_as(s, i, i + w.len(), seq![tok(word_kind(w), w)]),
        s.skip(i + w.len()) == rest,
{
    lemma_skip_step(s, i, w, rest);
    let e = i + w.len();
    assert(s[i] == w[0]);
    assert(run_end(s, i, Run::Blank) == i);
    assert forall|m: int| i + 1 <= m < e implies continues(Run::Word, #[trigger] s[m]) by {
        assert(s[i + (m - i)] == w[m - i]);
    }
    lemma_run_through(s, i + 1, e, Run::Word);
    assert(token_from(s, i) == Some((token_at(s, word_kind(w), i, e), e)));
    assert(lex_from(s, i) == prepend(seq![token_at(s, word_kind(w), i, e)], lex_from(s, e)));
    assert(keyword(lowercase(w)) != Some(TokenKind::Eof));
    lemma_lexes_one(s, i, e, token_at(s, word_kind(w), i, e), tok(word_kind(w), w));
}


/// A number as it is written, followed by something that is not numeric, is one token.
proof fn lemma_lex_number(s: Seq<char>, i: int, n: int, rest: Seq<char>)
    requires
        0 <= i <= s.len(),
        n >= 0,
        s.skip(i) == decimal(n) + rest,
        rest.len() == 0 || !numeric(rest[0]),
    ensures
        lexes_as(s, i, i + decimal(n).len(), seq![tok(TokenKind::Number, decimal(n))]),
        s.skip(i + decimal(n).len()) == rest,
{
    let d = decimal(n);
    lemma_nat_decimal(n as nat);
    assert(all_digits(d));
    lemma_skip_step(s, i, d, rest);
    let e = i + d.len();
    assert(s[i] == d[0]);
    assert(ascii_digit(d[0]));
    assert(run_end(s, i, Run::Blank) == i);
    assert forall|m: int| i + 1 <= m < e implies continues(Run::Digits, #[trigger] s[m]) by {
        assert(s[i + (m - i)] == d[m - i]);
        assert(ascii_digit(d[m - i]));
    }
    lemma_run_through(s, i + 1, e, Run::Digits);
    assert(token_from(s, i) == Some((token_at(s, TokenKind::Number, i, e), e)));
    assert(lex_from(s, i) == prepend(seq![token_at(s, TokenKind::Number, i, e)], lex_from(s, e)));
    lemma_lexes_one(s, i, e, token_at(s, TokenKind::Number, i, e), tok(TokenKind::Number, d));
}

/// A string as it is written, between quotes and holding none, is one token.
proof fn lemma_lex_string(s: Seq<char>, i: int, v: Seq<char>, rest: Seq<char>)
    requires
        0 <= i <= s.len(),
        forall|k: int| 0 <= k < v.len() ==> #[trigger] v[k] != '\'',
        s.skip(i) == "'"@ + v + "'"@ + rest,
    ensures
        lexes_as(s, i, i + v.len() + 2, seq![tok(TokenKind::String, v)]),
        s.skip(i + v.len() + 2) == rest,
{
    reveal_strlit("'");
    let w = "'"@ + v + "'"@;
    lemma_skip_step(s, i, w, rest);
    let e = i + 1 + v.len();
    assert(w.len() == v.len() + 2);
    assert(s[i] == w[0]);
    assert(s[i] == '\'');
    assert(s[i + (e - i)] == w[e - i]);
    assert(s[e] == '\'');
    assert(run_end(s, i, Run::Blank) == i);
    assert forall|m: int| i + 1 <= m < e implies continues(Run::Quoted, #[trigger] s[m]) by {
        assert(s[i + (m - i)] == w[m - i]);
        assert(w[m - i] == v[m - i - 1]);
    }
    lemma_run_through(s, i + 1, e, Run::Quoted);
    assert(s.subrange(i + 1, e) =~= v) by {
        assert forall|m: int| 0 <= m < v.len() implies s.subrange(i + 1, e)[m] == v[m] by {
            assert(s[i + (m + 1)] == w[m + 1]);
        }
    }
    assert(token_from(s, i) == Some((token_at(s, TokenKind::String, i + 1, e), e + 1)));
    assert(lex_from(s, i) == prepend(seq![token_at(s, TokenKind::String, i + 1, e)], lex_from(s, e + 1)));
    lemma_lexes_one(s, i, e + 1, token_at(s, TokenKind::String, i + 1, e), tok(TokenKind::String, v));
}

/// How an operator or a bracket is spelled.
pub open spec fn spelling(kind: TokenKind) -> Seq<char> {
    match kind {
        TokenKind::Comma => ","@,
        TokenKind::LeftParen => "("@,
        TokenKind::RightParen => ")"@,
        TokenKind::Equal => "="@,
        TokenKind::LessThan => "<"@,
        TokenKind::LessThanEqual => "<="@,
        TokenKind::GreaterThan => ">"@,
        TokenKind::GreaterThanEqual => ">="@,
        _ => Seq::empty(),
    }
}

/// Whether a kind is an operator or a bracket.
pub open spec fn symbol_kind(kind: TokenKind) -> bool {
    kind == TokenKind::Comma || kind == TokenKind::LeftParen || kind == TokenKind::RightParen
        || kind == TokenKind::Equal || kind == TokenKind::LessThan || kind == TokenKind::LessThanEqual
        || kind == TokenKind::GreaterThan || kind == TokenKind::GreaterThanEqual
}

/// An operator or bracket as it is spelled is one token, unless a `<` or `>` is followed by `=`.
proof fn lemma_lex_symbol(s: Seq<char>, i: int, kind: TokenKind, rest: Seq<char>)
    requires
        0 <= i <= s.len(),
        symbol_kind(kind),
        s.skip(i) == spelling(kind) + rest,
        kind == TokenKind::LessThan || kind == TokenKind::GreaterThan ==> rest.len() == 0 || rest[0]
            != '=',
    ensures
        lexes_as(s, i, i + spelling(kind).len(), seq![tok(kind, spelling(kind))]),
        s.skip(i + spelling(kind).len()) == rest,
{
    reveal_strlit(",");
    reveal_strlit("(");
    reveal_strlit(")");
    reveal_strlit("=");
    reveal_strlit("<");
    reveal_strlit("<=");
    reveal_strlit(">");
    reveal_strlit(">=");
    let p = spelling(kind);
    lemma_skip_step(s, i, p, rest);
    let e = i + p.len();
    assert(s[i] == p[0]);
    if p.len() == 2 {
        assert(s[i + 1] == p[1]);
    }
    assert(run_end(s, i, Run::Blank) == i);
    assert(operator_at(s, i) == Some((kind, e)));
    assert(token_from(s, i) == Some((token_at(s, kind, i, e), e)));
    assert(lex_from(s, i) == prepend(seq![token_at(s, kind, i, e)], lex_from(s, e)));
    lemma_lexes_one(s, i, e, token_at(s, kind, i, e), tok(kind, p));
}


/// The keyword spellings, lowered, compared with one another.
pub(crate) proof fn lemma_keyword_texts()
    ensures
        "select"@ != "create"@,
        "select"@ != "insert"@,
        "insert"@ != "create"@,
        "values"@ != "create"@,
        "values"@ != "insert"@,
        "values"@ != "select"@,
        "from"@ != "into"@,
        "where"@ != "table"@,
        "text"@ != "into"@,
        "text"@ != "from"@,
{
    reveal_strlit("create");
    reveal_strlit("insert");
    reveal_strlit("table");
    reveal_strlit("from");
    reveal_strlit("select");
    reveal_strlit("into");
    reveal_strlit("values");
    reveal_strlit("text");
    reveal_strlit("where");
    assert("select"@[0] != "create"@[0] && "select"@[0] != "insert"@[0]);
    assert("insert"@[0] != "create"@[0]);
    assert("values"@[0] != "create"@[0] && "values"@[0] != "insert"@[0] && "values"@[0] != "select"@[0]);
    assert("from"@[0] != "into"@[0]);
    assert("where"@[0] != "table"@[0]);
    assert("text"@[0] != "into"@[0] && "text"@[0] != "from"@[0]);
}

/// `SELECT` is a word of its keyword.
proof fn lemma_spelling_select()
    ensures
        word_like("SELECT"@),
        word_kind("SELECT"@) == TokenKind::Select,
{
    reveal_strlit("SELECT");
    reveal_strlit("select");
    reveal_strlit("create");
    reveal_strlit("table");
    reveal_strlit("insert");
    reveal_strlit("into");
    reveal_strlit("values");
    reveal_strlit("from");
    reveal_strlit("where");
    lemma_keyword_texts();
    assert(all_ascii("SELECT"@));
    assert(lowercase("SELECT"@) =~= "select"@);
}

/// `FROM` is a word of its keyword.
proof fn lemma_spelling_from()
    ensures
        word_like("FROM"@),
        word_kind("FROM"@) == TokenKind::From,
{
    reveal_strlit("FROM");
    reveal_strlit("from");
    reveal_strlit("create");
    reveal_strlit("table");
    reveal_strlit("insert");
    reveal_strlit("into");
    reveal_strlit("select");
    reveal_strlit("values");
    reveal_strlit("where");
    lemma_keyword_texts();
    assert(all_ascii("FROM"@));
    assert(lowercase("FROM"@) =~= "from"@);
}

/// `WHERE` is a word of its keyword.
proof fn lemma_spelling_where()
    ensures
        word_like("WHERE"@),
        word_kind("WHERE"@) == TokenKind::Where,
{
    reveal_strlit("WHERE");
    reveal_strlit("where");
    reveal_strlit("create");
    reveal_strlit("table");
    reveal_strlit("insert");
    reveal_strlit("into");
    reveal_strlit("select");
    reveal_strlit("values");
    reveal_strlit("from");
    lemma_keyword_texts();
    assert(all_ascii("WHERE"@));
    assert(lowercase("WHERE"@) =~= "where"@);
}

/// `INSERT` is a word of its keyword.
proof fn lemma_spelling_insert()
    ensures
        word_like("INSERT"@),
        word_kind("INSERT"@) == TokenKind::Insert,
{
    reveal_strlit("INSERT");
    reveal_strlit("insert");
    reveal_strlit("create");
    reveal_strlit("table");
    reveal_strlit("into");
    reveal_strlit("select");
    reveal_strlit("values");
    reveal_strlit("from");
    reveal_strlit("where");
    lemma_keyword_texts();
    assert(all_ascii("INSERT"@));
    assert(lowercase("INSERT"@) =~= "insert"@);
}

/// `INTO` is a word of its keyword.
proof fn lemma_spelling_into()
    ensures
        word_like("INTO"@),
        word_kind("INTO"@) == TokenKind::Into,
{
    reveal_strlit("INTO");
    reveal_strlit("into");
    reveal_strlit("create");
    reveal_strlit("table");
    reveal_strlit("insert");
    reveal_strlit("select");
    reveal_strlit("values");
    reveal_strlit("from");
    reveal_strlit("where");
    lemma_keyword_texts();
    assert(all_ascii("INTO"@));
    assert(lowercase("INTO"@) =~= "into"@);
}

/// `VALUES` is a word of its keyword.
proof fn lemma_spelling_values()
    ensures
        word_like("VALUES"@),
        word_kind("VALUES"@) == TokenKind::Values,
{
    reveal_strlit("VALUES");
    reveal_strlit("values");
    reveal_strlit("create");
    reveal_strlit("table");
    reveal_strlit("insert");
    reveal_strlit("into");
    reveal_strlit("select");
    reveal_strlit("from");
    reveal_strlit("where");
    lemma_keyword_texts();
    assert(all_ascii("VALUES"@));
    assert(lowercase("VALUES"@) =~= "values"@);
}

/// `CREATE` is a word of its keyword.
proof fn lemma_spelling_create()
    ensures
        word_like("CREATE"@),
        word_kind("CREATE"@) == TokenKind::Create,
{
    reveal_strlit("CREATE");
    reveal_strlit("create");
    reveal_strlit("table");
    reveal_strlit("insert");
    reveal_strlit("into");
    reveal_strlit("select");
    reveal_strlit("values");
    reveal_strlit("from");
    reveal_strlit("where");
    lemma_keyword_texts();
    assert(all_ascii("CREATE"@));
    assert(lowercase("CREATE"@) =~= "create"@);
}

/// `TABLE` is a word of its keyword.
proof fn lemma_spelling_table()
    ensures
        word_like("TABLE"@),
        word_kind("TABLE"@) == TokenKind::Table,
{
    reveal_strlit("TABLE");
    reveal_strlit("table");
    reveal_strlit("create");
    reveal_strlit("insert");
    reveal_strlit("into");
    reveal_strlit("select");
    reveal_strlit("values");
    reveal_strlit("from");
    reveal_strlit("where");
    lemma_keyword_texts();
    assert(all_ascii("TABLE"@));
    assert(lowercase("TABLE"@) =~= "table"@);
}

/// `INT` is a word that is no keyword.
proof fn lemma_spelling_int()
    ensures
        word_like("INT"@),
        word_kind("INT"@) == TokenKind::Identifier,
{
    reveal_strlit("INT");
    reveal_strlit("int");
    reveal_strlit("create");
    reveal_strlit("table");
    reveal_strlit("insert");
    reveal_strlit("into");
    reveal_strlit("select");
    reveal_strlit("values");
    reveal_strlit("from");
    reveal_strlit("where");
    lemma_keyword_texts();
    assert(all_ascii("INT"@));
    assert(lowercase("INT"@) =~= "int"@);
}

/// `TEXT` is a word that is no keyword.
proof fn lemma_spelling_text()
    ensures
        word_like("TEXT"@),
        word_kind("TEXT"@) == TokenKind::Identifier,
{
    reveal_strlit("TEXT");
    reveal_strlit("text");
    reveal_strlit("create");
    reveal_strlit("table");
    reveal_strlit("insert");
    reveal_strlit("into");
    reveal_strlit("select");
    reveal_strlit("values");
    reveal_strlit("from");
    reveal_strlit("where");
    lemma_keyword_texts();
    assert(all_ascii("TEXT"@));
    assert(lowercase("TEXT"@) =~= "text"@);
}

/// `VARCHAR` is a word that is no keyword.
proof fn lemma_spelling_varchar()
    ensures
        word_like("VARCHAR"@),
        word_kind("VARCHAR"@) == TokenKind::Identifier,
{
    reveal_strlit("VARCHAR");
    reveal_strlit("varchar");
    reveal_strlit("create");
    reveal_strlit("table");
    reveal_strlit("insert");
    reveal_strlit("into");
    reveal_strlit("select");
    reveal_strlit("values");
    reveal_strlit("from");
    reveal_strlit("where");
    lemma_keyword_texts();
    assert(all_ascii("VARCHAR"@));
    assert(lowercase("VARCHAR"@) =~= "varchar"@);
}


/// The first items of a list of two or more, as written: the first item, `", "`, then the
/// first items of the rest.
proof fn lemma_written_front(items: Seq<Seq<char>>, k: int)
    requires
        items.len() >= 2,
        1 <= k <= items.len(),
    ensures
        written(items, k) == items[0] + ", "@ + written(items.drop_first(), k - 1),
    decreases k,
{
    let r = items.drop_first();
    if k == 1 {
        assert(written(items, 0) == Seq::<char>::empty());
        assert(written(r, 0) == Seq::<char>::empty());
        assert(written(items, 1) =~= items[0] + ", "@ + written(r, 0));
    } else {
        lemma_written_front(items, k - 1);
        assert(piece(items, k - 1) == piece(r, k - 2));
        assert(written(items, k) =~= items[0] + ", "@ + written(r, k - 1));
    }
}

/// A comma separated list, read from the front.
proof fn lemma_comma_separated_front(items: Seq<Seq<char>>)
    requires
        items.len() >= 1,
    ensures
        items.len() == 1 ==> comma_separated(items) == items[0],
        items.len() >= 2 ==> comma_separated(items) == items[0] + ", "@ + comma_separated(
            items.drop_first(),
        ),
{
    if items.len() == 1 {
        assert(written(items, 0) == Seq::<char>::empty());
        assert(comma_separated(items) =~= items[0]);
    } else {
        lemma_written_front(items, items.len() as int);
    }
}

/// The separator `", "` between list items: a comma token, then a skipped space.
proof fn lemma_lex_separator(s: Seq<char>, i: int, rest: Seq<char>)
    requires
        0 <= i <= s.len(),
        s.skip(i) == ", "@ + rest,
    ensures
        lexes_as(s, i, i + 2, seq![comma()]),
        s.skip(i + 2) == rest,
{
    reveal_strlit(", ");
    reveal_strlit(",");
    reveal_strlit(" ");
    assert(", "@ + rest =~= ","@ + (" "@ + rest));
    lemma_lex_symbol(s, i, TokenKind::Comma, " "@ + rest);
    lemma_skip_step(s, i + 1, " "@, rest);
    assert(s[i + 1 + 0] == " "@[0]);
    assert(whitespace(s[i + 1]));
    lemma_lex_blank(s, i + 1);
    lemma_lexes_chain(s, i, i + 1, i + 2, seq![comma()], Seq::empty());
    assert(seq![comma()] + Seq::<TokenView>::empty() =~= seq![comma()]);
}

/// A space between tokens is skipped.
proof fn lemma_lex_space(s: Seq<char>, i: int, rest: Seq<char>)
    requires
        0 <= i <= s.len(),
        s.skip(i) == " "@ + rest,
    ensures
        lexes_as(s, i, i + 1, Seq::empty()),
        s.skip(i + 1) == rest,
{
    reveal_strlit(" ");
    lemma_skip_step(s, i, " "@, rest);
    assert(s[i + 0] == " "@[0]);
    assert(whitespace(s[i]));
    lemma_lex_blank(s, i);
}

/// Plain names written with commas are lexed as their tokens.
proof fn lemma_lex_names(s: Seq<char>, i: int, items: Seq<Seq<char>>, rest: Seq<char>)
    requires
        0 <= i <= s.len(),
        plain_names(items),
        s.skip(i) == comma_separated(items) + rest,
        rest.len() == 0 || !is_word_char(rest[0]),
    ensures
        lexes_as(s, i, i + comma_separated(items).len(), names_tokens(items)),
        s.skip(i + comma_separated(items).len()) == rest,
    decreases items.len(),
{
    lemma_comma_separated_front(items);
    let w = items[0];
    assert(plain_name(w));
    if items.len() == 1 {
        lemma_lex_word(s, i, w, rest);
    } else {
        reveal_strlit(", ");
        let r = items.drop_first();
        let cr = comma_separated(r);
        let wl = w.len() as int;
        assert(s.skip(i) =~= w + (", "@ + (cr + rest)));
        lemma_lex_word(s, i, w, ", "@ + (cr + rest));
        lemma_lex_separator(s, i + wl, cr + rest);
        assert forall|k: int| 0 <= k < r.len() implies plain_name(#[trigger] r[k]) by {
            assert(r[k] == items[k + 1]);
        }
        lemma_lex_names(s, i + wl + 2, r, rest);
        lemma_lexes_chain(s, i, i + wl, i + wl + 2, seq![tok(TokenKind::Identifier, w)], seq![comma()]);
        lemma_lexes_chain(
            s,
            i,
            i + wl + 2,
            i + wl + 2 + cr.len(),
            seq![tok(TokenKind::Identifier, w)] + seq![comma()],
            names_tokens(r),
        );
        assert(seq![tok(TokenKind::Identifier, w)] + seq![comma()] + names_tokens(r) =~= names_tokens(items));
    }
}

/// A plain literal as it is written, followed by something that is not numeric, is its token.
proof fn lemma_lex_literal(s: Seq<char>, i: int, l: LiteralView, rest: Seq<char>)
    requires
        0 <= i <= s.len(),
        plain_literal(l),
        s.skip(i) == literal_text(l) + rest,
        rest.len() == 0 || !numeric(rest[0]),
    ensures
        lexes_as(s, i, i + literal_text(l).len(), seq![literal_token(l)]),
        s.skip(i + literal_text(l).len()) == rest,
{
    match l {
        LiteralView::Number(n) => {
            lemma_lex_number(s, i, n as int, rest);
        },
        LiteralView::String(v) => {
            reveal_strlit("'");
            lemma_lex_string(s, i, v, rest);
        },
    }
}

/// Plain literals written with commas are lexed as their tokens.
proof fn lemma_lex_literals(s: Seq<char>, i: int, values: Seq<LiteralView>, rest: Seq<char>)
    requires
        0 <= i <= s.len(),
        plain_literals(values),
        s.skip(i) == comma_separated(literal_texts(values)) + rest,
        rest.len() == 0 || !numeric(rest[0]),
    ensures
        lexes_as(s, i, i + comma_separated(literal_texts(values)).len(), literals_tokens(values)),
        s.skip(i + comma_separated(literal_texts(values)).len()) == rest,
    decreases values.len(),
{
    let texts = literal_texts(values);
    lemma_comma_separated_front(texts);
    let l = values[0];
    assert(plain_literal(l));
    assert(texts[0] == literal_text(l));
    if values.len() == 1 {
        lemma_lex_literal(s, i, l, rest);
    } else {
        reveal_strlit(", ");
        reveal_strlit(",");
        let r = values.drop_first();
        assert(texts.drop_first() =~= literal_texts(r));
        let cr = comma_separated(literal_texts(r));
        let wl = literal_text(l).len() as int;
        assert(s.skip(i) =~= literal_text(l) + (", "@ + (cr + rest)));
        assert((", "@ + (cr + rest))[0] == ',');
        lemma_lex_literal(s, i, l, ", "@ + (cr + rest));
        lemma_lex_separator(s, i + wl, cr + rest);
        assert forall|k: int| 0 <= k < r.len() implies plain_literal(#[trigger] r[k]) by {
            assert(r[k] == values[k + 1]);
        }
        lemma_lex_literals(s, i + wl + 2, r, rest);
        lemma_lexes_chain(s, i, i + wl, i + wl + 2, seq![literal_token(l)], seq![comma()]);
        lemma_lexes_chain(
            s,
            i,
            i + wl + 2,
            i + wl + 2 + cr.len(),
            seq![literal_token(l)] + seq![comma()],
            literals_tokens(r),
        );
        assert(seq![literal_token(l)] + seq![comma()] + literals_tokens(r) =~= literals_tokens(values));
    }
}


/// A data type as it is written, followed by a comma or a closing bracket, is lexed as its
/// tokens.
proof fn lemma_lex_datatype(s: Seq<char>, i: int, d: DataType, rest: Seq<char>)
    requires
        0 <= i <= s.len(),
        s.skip(i) == datatype_text(d) + rest,
        rest.len() > 0,
        rest[0] == ',' || rest[0] == ')',
    ensures
        lexes_as(s, i, i + datatype_text(d).len(), datatype_tokens(d)),
        s.skip(i + datatype_text(d).len()) == rest,
{
    match d {
        DataType::Int => {
            lemma_spelling_int();
            lemma_lex_word(s, i, "INT"@, rest);
        },
        DataType::Text => {
            lemma_spelling_text();
            lemma_lex_word(s, i, "TEXT"@, rest);
        },
        DataType::VarChar(m) => {
            lemma_spelling_varchar();
            reveal_strlit("VARCHAR(");
            reveal_strlit("VARCHAR");
            reveal_strlit("(");
            reveal_strlit(")");
            let n = decimal(m as int);
            let r3 = ")"@ + rest;
            let r2 = n + r3;
            let r1 = "("@ + r2;
            assert(s.skip(i) =~= "VARCHAR"@ + r1);
            lemma_lex_word(s, i, "VARCHAR"@, r1);
            lemma_lex_symbol(s, i + 7, TokenKind::LeftParen, r2);
            lemma_lex_number(s, i + 8, m as int, r3);
            lemma_lex_symbol(s, i + 8 + n.len(), TokenKind::RightParen, rest);
            let a = seq![tok(TokenKind::Identifier, "VARCHAR"@)];
            let b = seq![tok(TokenKind::LeftParen, "("@)];
            let c = seq![tok(TokenKind::Number, n)];
            let e = seq![tok(TokenKind::RightParen, ")"@)];
            lemma_lexes_chain(s, i, i + 7, i + 8, a, b);
            lemma_lexes_chain(s, i, i + 8, i + 8 + n.len(), a + b, c);
            lemma_lexes_chain(s, i, i + 8 + n.len(), i + 9 + n.len(), a + b + c, e);
            assert(a + b + c + e =~= datatype_tokens(d));
        },
    }
}

/// A column definition with a plain name, as it is written and followed by a comma or a
/// closing bracket, is lexed as its tokens.
proof fn lemma_lex_column(s: Seq<char>, i: int, c: ColumnDefView, rest: Seq<char>)
    requires
        0 <= i <= s.len(),
        plain_name(c.name),
        s.skip(i) == column_def_text(c) + rest,
        rest.len() > 0,
        rest[0] == ',' || rest[0] == ')',
    ensures
        lexes_as(s, i, i + column_def_text(c).len(), column_tokens(c)),
        s.skip(i + column_def_text(c).len()) == rest,
{
    reveal_strlit(" ");
    let w = c.name;
    let dt = datatype_text(c.data_type);
    let wl = w.len() as int;
    assert(s.skip(i) =~= w + (" "@ + (dt + rest)));
    lemma_lex_word(s, i, w, " "@ + (dt + rest));
    lemma_lex_space(s, i + wl, dt + rest);
    lemma_lex_datatype(s, i + wl + 1, c.data_type, rest);
    let a = seq![tok(TokenKind::Identifier, w)];
    lemma_lexes_chain(s, i, i + wl, i + wl + 1, a, Seq::empty());
    lemma_lexes_chain(s, i, i + wl + 1, i + wl + 1 + dt.len(), a + Seq::empty(), datatype_tokens(c.data_type));
    assert(a + Seq::<TokenView>::empty() + datatype_tokens(c.data_type) =~= column_tokens(c));
}

/// Column definitions written with commas, followed by a closing bracket, are lexed as their
/// tokens.
proof fn lemma_lex_columns(s: Seq<char>, i: int, columns: Seq<ColumnDefView>, rest: Seq<char>)
    requires
        0 <= i <= s.len(),
        plain_columns(columns),
        s.skip(i) == comma_separated(column_def_texts(columns)) + rest,
        rest.len() > 0,
        rest[0] == ')',
    ensures
        lexes_as(s, i, i + comma_separated(column_def_texts(columns)).len(), columns_tokens(columns)),
        s.skip(i + comma_separated(column_def_texts(columns)).len()) == rest,
    decreases columns.len(),
{
    let texts = column_def_texts(columns);
    lemma_comma_separated_front(texts);
    let c = columns[0];
    assert(plain_name(c.name));
    assert(texts[0] == column_def_text(c));
    if columns.len() == 1 {
        lemma_lex_column(s, i, c, rest);
    } else {
        reveal_strlit(", ");
        let r = columns.drop_first();
        assert(texts.drop_first() =~= column_def_texts(r));
        let cr = comma_separated(column_def_texts(r));
        let wl = column_def_text(c).len() as int;
        assert(s.skip(i) =~= column_def_text(c) + (", "@ + (cr + rest)));
        lemma_lex_column(s, i, c, ", "@ + (cr + rest));
        lemma_lex_separator(s, i + wl, cr + rest);
        assert forall|k: int| 0 <= k < r.len() implies plain_name(#[trigger] r[k].name) by {
            assert(r[k] == columns[k + 1]);
        }
        lemma_lex_columns(s, i + wl + 2, r, rest);
        lemma_lexes_chain(s, i, i + wl, i + wl + 2, column_tokens(c), seq![comma()]);
        lemma_lexes_chain(
            s,
            i,
            i + wl + 2,
            i + wl + 2 + cr.len(),
            column_tokens(c) + seq![comma()],
            columns_tokens(r),
        );
        assert(column_tokens(c) + seq![comma()] + columns_tokens(r) =~= columns_tokens(columns));
    }
}

/// The kind of a comparison operator's token.
proof fn lemma_op_spelling(op: ComparisonOp)
    ensures
        symbol_kind(op_token(op).kind),
        spelling(op_token(op).kind) == op_text(op),
        op_token(op) == tok(op_token(op).kind, op_text(op)),
        op_token(op).kind == TokenKind::LessThan || op_token(op).kind == TokenKind::GreaterThan
            ==> op_text(op).len() == 1,
{
    reveal_strlit("<");
    reveal_strlit(">");
}

/// A comparison with a plain column and literal, written at the end of the text, is lexed as
/// its tokens.
proof fn lemma_lex_comparison(s: Seq<char>, i: int, c: ComparisonView)
    requires
        0 <= i <= s.len(),
        plain_name(c.column),
        plain_literal(c.value),
        s.skip(i) == comparison_text(c),
    ensures
        lexes_as(s, i, s.len() as int, comparison_tokens(c)),
{
    reveal_strlit(" ");
    let w = c.column;
    let o = op_text(c.op);
    let lt = literal_text(c.value);
    let wl = w.len() as int;
    let ol = o.len() as int;
    lemma_op_spelling(c.op);
    assert(s.skip(i) =~= w + (" "@ + (o + (" "@ + (lt + Seq::<char>::empty())))));
    lemma_lex_word(s, i, w, " "@ + (o + (" "@ + (lt + Seq::<char>::empty()))));
    lemma_lex_space(s, i + wl, o + (" "@ + (lt + Seq::<char>::empty())));
    lemma_lex_symbol(s, i + wl + 1, op_token(c.op).kind, " "@ + (lt + Seq::<char>::empty()));
    lemma_lex_space(s, i + wl + 1 + ol, lt + Seq::<char>::empty());
    lemma_lex_literal(s, i + wl + 2 + ol, c.value, Seq::empty());
    lemma_skip_step(s, i + wl + 2 + ol, lt, Seq::empty());
    let a = seq![tok(TokenKind::Identifier, w)];
    let b = seq![op_token(c.op)];
    let d = seq![literal_token(c.value)];
    lemma_lexes_chain(s, i, i + wl, i + wl + 1, a, Seq::empty());
    lemma_lexes_chain(s, i, i + wl + 1, i + wl + 1 + ol, a + Seq::empty(), b);
    lemma_lexes_chain(s, i, i + wl + 1 + ol, i + wl + 2 + ol, a + Seq::empty() + b, Seq::empty());
    lemma_lexes_chain(
        s,
        i,
        i + wl + 2 + ol,
        i + wl + 2 + ol + lt.len(),
        a + Seq::empty() + b + Seq::empty(),
        d,
    );
    assert(a + Seq::<TokenView>::empty() + b + Seq::<TokenView>::empty() + d =~= comparison_tokens(c));
}


/// A plain `SELECT` as it is written is lexed as its tokens.
#[verifier::rlimit(60)]
proof fn lemma_lex_select(
    table: Seq<char>,
    columns: Seq<Seq<char>>,
    where_clause: Option<ComparisonView>,
)
    requires
        ({
            let st = StatementView::Select { table, columns, where_clause };
            plain_statement(st)
        }),
    ensures
        ({
            let st = StatementView::Select { table, columns, where_clause };
            lexes_as(statement_text(st), 0, statement_text(st).len() as int, statement_tokens(st))
        }),
{
    let st = StatementView::Select { table, columns, where_clause };
    let s = statement_text(st);
    reveal_strlit("SELECT ");
    reveal_strlit("SELECT");
    reveal_strlit(" ");
    reveal_strlit(" FROM ");
    reveal_strlit("FROM");
    reveal_strlit(" WHERE ");
    reveal_strlit("WHERE");
    lemma_spelling_select();
    lemma_spelling_from();
    lemma_spelling_where();
    let cs = comma_separated(columns);
    let l = cs.len() as int;
    let t = table.len() as int;
    let tail = match where_clause {
        Some(c) => " "@ + ("WHERE"@ + (" "@ + comparison_text(c))),
        None => Seq::empty(),
    };
    let r6 = table + tail;
    let r5 = " "@ + r6;
    let r4 = "FROM"@ + r5;
    let r3 = " "@ + r4;
    let r2 = cs + r3;
    let r1 = " "@ + r2;
    assert(s =~= "SELECT"@ + r1);
    assert(s.skip(0) =~= "SELECT"@ + r1);
    lemma_lex_word(s, 0, "SELECT"@, r1);
    lemma_lex_space(s, 6, r2);
    lemma_lex_names(s, 7, columns, r3);
    lemma_lex_space(s, 7 + l, r4);
    lemma_lex_word(s, 8 + l, "FROM"@, r5);
    lemma_lex_space(s, 12 + l, r6);
    lemma_lex_word(s, 13 + l, table, tail);
    let a0 = seq![tok(TokenKind::Select, "SELECT"@)];
    let a1 = names_tokens(columns);
    let a2 = seq![tok(TokenKind::From, "FROM"@)];
    let a3 = seq![tok(TokenKind::Identifier, table)];
    let e = Seq::<TokenView>::empty();
    lemma_lexes_chain(s, 0, 6, 7, a0, e);
    lemma_lexes_chain(s, 0, 7, 7 + l, a0 + e, a1);
    lemma_lexes_chain(s, 0, 7 + l, 8 + l, a0 + e + a1, e);
    lemma_lexes_chain(s, 0, 8 + l, 12 + l, a0 + e + a1 + e, a2);
    lemma_lexes_chain(s, 0, 12 + l, 13 + l, a0 + e + a1 + e + a2, e);
    lemma_lexes_chain(s, 0, 13 + l, 13 + l + t, a0 + e + a1 + e + a2 + e, a3);
    let acc = a0 + e + a1 + e + a2 + e + a3;
    match where_clause {
        Some(c) => {
            let q3 = comparison_text(c);
            let q2 = " "@ + q3;
            let q1 = "WHERE"@ + q2;
            let b = 13 + l + t;
            lemma_lex_space(s, b, q1);
            lemma_lex_word(s, b + 1, "WHERE"@, q2);
            lemma_lex_space(s, b + 6, q3);
            lemma_lex_comparison(s, b + 7, c);
            let a4 = seq![tok(TokenKind::Where, "WHERE"@)];
            let a5 = comparison_tokens(c);
            lemma_lexes_chain(s, 0, b, b + 1, acc, e);
            lemma_lexes_chain(s, 0, b + 1, b + 6, acc + e, a4);
            lemma_lexes_chain(s, 0, b + 6, b + 7, acc + e + a4, e);
            lemma_lexes_chain(s, 0, b + 7, s.len() as int, acc + e + a4 + e, a5);
            assert(acc + e + a4 + e + a5 =~= statement_tokens(st));
        },
        None => {
            assert(acc =~= statement_tokens(st));
        },
    }
}

/// A plain `INSERT` as it is written is lexed as its tokens.
#[verifier::rlimit(60)]
proof fn lemma_lex_insert(
    table: Seq<char>,
    columns: Option<Seq<Seq<char>>>,
    values: Seq<LiteralView>,
)
    requires
        ({
            let st = StatementView::Insert { table, columns, values };
            plain_statement(st)
        }),
    ensures
        ({
            let st = StatementView::Insert { table, columns, values };
            lexes_as(statement_text(st), 0, statement_text(st).len() as int, statement_tokens(st))
        }),
{
    let st = StatementView::Insert { table, columns, values };
    let s = statement_text(st);
    reveal_strlit("INSERT INTO ");
    reveal_strlit("INSERT");
    reveal_strlit("INTO");
    reveal_strlit(" ");
    reveal_strlit("(");
    reveal_strlit(") ");
    reveal_strlit(")");
    reveal_strlit("VALUES (");
    reveal_strlit("VALUES");
    lemma_spelling_insert();
    lemma_spelling_into();
    lemma_spelling_values();
    let cl = comma_separated(literal_texts(values));
    let t = table.len() as int;
    let v4 = ")"@ + Seq::<char>::empty();
    let v3 = cl + v4;
    let v2 = "("@ + v3;
    let v1 = " "@ + v2;
    let q = "VALUES"@ + v1;
    let p = match columns {
        Some(cols) => "("@ + (comma_separated(cols) + (")"@ + (" "@ + q))),
        None => q,
    };
    let r4 = " "@ + p;
    let r3 = table + r4;
    let r2 = " "@ + r3;
    let r1 = "INTO"@ + r2;
    let r0 = " "@ + r1;
    assert(s =~= "INSERT"@ + r0);
    assert(s.skip(0) =~= "INSERT"@ + r0);
    lemma_lex_word(s, 0, "INSERT"@, r0);
    lemma_lex_space(s, 6, r1);
    lemma_lex_word(s, 7, "INTO"@, r2);
    lemma_lex_space(s, 11, r3);
    lemma_lex_word(s, 12, table, r4);
    lemma_lex_space(s, 12 + t, p);
    let e = Seq::<TokenView>::empty();
    let a0 = seq![tok(TokenKind::Insert, "INSERT"@)];
    let a1 = seq![tok(TokenKind::Into, "INTO"@)];
    let a2 = seq![tok(TokenKind::Identifier, table)];
    lemma_lexes_chain(s, 0, 6, 7, a0, e);
    lemma_lexes_chain(s, 0, 7, 11, a0 + e, a1);
    lemma_lexes_chain(s, 0, 11, 12, a0 + e + a1, e);
    lemma_lexes_chain(s, 0, 12, 12 + t, a0 + e + a1 + e, a2);
    lemma_lexes_chain(s, 0, 12 + t, 13 + t, a0 + e + a1 + e + a2, e);
    let acc = a0 + e + a1 + e + a2 + e;
    let cols_tokens = match columns {
        Some(cols) => seq![tok(TokenKind::LeftParen, "("@)] + names_tokens(cols) + seq![
            tok(TokenKind::RightParen, ")"@),
        ],
        None => Seq::empty(),
    };
    let d: int = match columns {
        Some(cols) => 13 + t + comma_separated(cols).len() + 3,
        None => 13 + t,
    };
    match columns {
        Some(cols) => {
            let cc = comma_separated(cols);
            let k = cc.len() as int;
            let b = 13 + t;
            lemma_lex_symbol(s, b, TokenKind::LeftParen, cc + (")"@ + (" "@ + q)));
            lemma_lex_names(s, b + 1, cols, ")"@ + (" "@ + q));
            lemma_lex_symbol(s, b + 1 + k, TokenKind::RightParen, " "@ + q);
            lemma_lex_space(s, b + 2 + k, q);
            let c0 = seq![tok(TokenKind::LeftParen, "("@)];
            let c1 = names_tokens(cols);
            let c2 = seq![tok(TokenKind::RightParen, ")"@)];
            lemma_lexes_chain(s, 0, b, b + 1, acc, c0);
            lemma_lexes_chain(s, 0, b + 1, b + 1 + k, acc + c0, c1);
            lemma_lexes_chain(s, 0, b + 1 + k, b + 2 + k, acc + c0 + c1, c2);
            lemma_lexes_chain(s, 0, b + 2 + k, b + 3 + k, acc + c0 + c1 + c2, e);
            assert(acc + c0 + c1 + c2 + e =~= acc + cols_tokens);
        },
        None => {
            assert(acc =~= acc + cols_tokens);
        },
    }
    assert(lexes_as(s, 0, d, acc + cols_tokens));
    assert(s.skip(d) == q);
    let m = cl.len() as int;
    lemma_lex_word(s, d, "VALUES"@, v1);
    lemma_lex_space(s, d + 6, v2);
    lemma_lex_symbol(s, d + 7, TokenKind::LeftParen, v3);
    lemma_lex_literals(s, d + 8, values, v4);
    lemma_lex_symbol(s, d + 8 + m, TokenKind::RightParen, Seq::empty());
    lemma_skip_step(s, d + 8 + m, ")"@, Seq::empty());
    let acc2 = acc + cols_tokens;
    let b0 = seq![tok(TokenKind::Values, "VALUES"@)];
    let b1 = seq![tok(TokenKind::LeftParen, "("@)];
    let b2 = literals_tokens(values);
    let b3 = seq![tok(TokenKind::RightParen, ")"@)];
    lemma_lexes_chain(s, 0, d, d + 6, acc2, b0);
    lemma_lexes_chain(s, 0, d + 6, d + 7, acc2 + b0, e);
    lemma_lexes_chain(s, 0, d + 7, d + 8, acc2 + b0 + e, b1);
    lemma_lexes_chain(s, 0, d + 8, d + 8 + m, acc2 + b0 + e + b1, b2);
    lemma_lexes_chain(s, 0, d + 8 + m, d + 9 + m, acc2 + b0 + e + b1 + b2, b3);
    assert(acc2 + b0 + e + b1 + b2 + b3 =~= statement_tokens(st));
}

/// A plain `CREATE TABLE` as it is written is lexed as its tokens.
#[verifier::rlimit(60)]
proof fn lemma_lex_create(table: Seq<char>, columns: Seq<ColumnDefView>)
    requires
        ({
            let st = StatementView::Create { table, columns };
            plain_statement(st)
        }),
    ensures
        ({
            let st = StatementView::Create { table, columns };
            lexes_as(statement_text(st), 0, statement_text(st).len() as int, statement_tokens(st))
        }),
{
    let st = StatementView::Create { table, columns };
    let s = statement_text(st);
    reveal_strlit("CREATE TABLE ");
    reveal_strlit("CREATE");
    reveal_strlit("TABLE");
    reveal_strlit(" ");
    reveal_strlit(" (");
    reveal_strlit("(");
    reveal_strlit(")");
    lemma_spelling_create();
    lemma_spelling_table();
    let cc = comma_separated(column_def_texts(columns));
    let k = cc.len() as int;
    let t = table.len() as int;
    let r8 = ")"@ + Seq::<char>::empty();
    let r7 = cc + r8;
    let r6 = "("@ + r7;
    let r5 = " "@ + r6;
    let r4 = table + r5;
    let r3 = " "@ + r4;
    let r2 = "TABLE"@ + r3;
    let r1 = " "@ + r2;
    assert(s =~= "CREATE"@ + r1);
    assert(s.skip(0) =~= "CREATE"@ + r1);
    lemma_lex_word(s, 0, "CREATE"@, r1);
    lemma_lex_space(s, 6, r2);
    lemma_lex_word(s, 7, "TABLE"@, r3);
    lemma_lex_space(s, 12, r4);
    lemma_lex_word(s, 13, table, r5);
    lemma_lex_space(s, 13 + t, r6);
    lemma_lex_symbol(s, 14 + t, TokenKind::LeftParen, r7);
    lemma_lex_columns(s, 15 + t, columns, r8);
    lemma_lex_symbol(s, 15 + t + k, TokenKind::RightParen, Seq::empty());
    lemma_skip_step(s, 15 + t + k, ")"@, Seq::empty());
    let e = Seq::<TokenView>::empty();
    let a0 = seq![tok(TokenKind::Create, "CREATE"@)];
    let a1 = seq![tok(TokenKind::Table, "TABLE"@)];
    let a2 = seq![tok(TokenKind::Identifier, table)];
    let a3 = seq![tok(TokenKind::LeftParen, "("@)];
    let a4 = columns_tokens(columns);
    let a5 = seq![tok(TokenKind::RightParen, ")"@)];
    lemma_lexes_chain(s, 0, 6, 7, a0, e);
    lemma_lexes_chain(s, 0, 7, 12, a0 + e, a1);
    lemma_lexes_chain(s, 0, 12, 13, a0 + e + a1, e);
    lemma_lexes_chain(s, 0, 13, 13 + t, a0 + e + a1 + e, a2);
    lemma_lexes_chain(s, 0, 13 + t, 14 + t, a0 + e + a1 + e + a2, e);
    lemma_lexes_chain(s, 0, 14 + t, 15 + t, a0 + e + a1 + e + a2 + e, a3);
    lemma_lexes_chain(s, 0, 15 + t, 15 + t + k, a0 + e + a1 + e + a2 + e + a3, a4);
    lemma_lexes_chain(s, 0, 15 + t + k, 16 + t + k, a0 + e + a1 + e + a2 + e + a3 + a4, a5);
    assert(a0 + e + a1 + e + a2 + e + a3 + a4 + a5 =~= statement_tokens(st));
}


/// A plain statement as it is written is lexed as its tokens.
proof fn lemma_lex_statement(st: StatementView)
    requires
        plain_statement(st),
    ensures
        lexes_as(statement_text(st), 0, statement_text(st).len() as int, statement_tokens(st)),
{
    match st {
        StatementView::Select { table, columns, where_clause } => lemma_lex_select(table, columns, where_clause),
        StatementView::Insert { table, columns, values } => lemma_lex_insert(table, columns, values),
        StatementView::Create { table, columns } => lemma_lex_create(table, columns),
    }
}

// ---------------------------------------------------------------------------
// The law
// ---------------------------------------------------------------------------

/// Writing a statement as SQL and reading the text back gives the same statement: for a
/// statement whose names are words that are no keywords, whose strings hold no quote, whose
/// numbers are not negative and whose lists are not empty, the text `statement_text` gives
/// lexes, and its tokens parse to that one statement.
pub proof fn law_written_statement_reads_back(st: StatementView)
    requires
        plain_statement(st),
    ensures
        lex_spec(statement_text(st), 0) is Ok,
        statements_spec(lex_spec(statement_text(st), 0)->Ok_0, 0) == Ok::<Seq<StatementView>, Failure>(
            seq![st],
        ),
{
    let s = statement_text(st);
    let x = statement_tokens(st);
    lemma_lex_statement(st);
    reveal(lexes_as);
    assert(run_end(s, s.len() as int, Run::Blank) == s.len());
    assert(lex_from(s, s.len() as int) == Ok::<Seq<TokenView>, LexerErrorView>(Seq::empty()));
    let a = lex_from(s, 0)->Ok_0;
    assert(a.len() == x.len());
    let u = a.push(eof_token(s));
    assert(lex_spec(s, 0) == Ok::<Seq<TokenView>, LexerErrorView>(u));
    let t = x.push(end_token());
    assert forall|k: int| 0 <= k < x.len() implies same_text_token(#[trigger] t[k], u[k + 0])
        && t[k].kind != TokenKind::Eof by {
        assert(t[k] == x[k]);
        assert(u[k] == a[k]);
        assert(same_text_token(x[k], a[k]));
    }
    assert(t[x.len() as int] == end_token());
    assert(u[x.len() as int] == eof_token(s));
    assert(carries(t, u, x.len() as int, 0));
    assert(statements_spec(u, x.len() as int) == Ok::<Seq<StatementView>, Failure>(Seq::empty()));
    lemma_statements_parse(st);
    lemma_statements_move(t, u, x.len() as int, 0, 0, Seq::empty());
    assert(seq![st] + Seq::<StatementView>::empty() =~= seq![st]);
}


// ---------------------------------------------------------------------------
// The statements read from text are plain
// ---------------------------------------------------------------------------

/// What the lexer guarantees of a token: an identifier is a plain name, a string holds no
/// quote, a number is one or more numeric characters.
pub open spec fn plain_token(t: TokenView) -> bool {
    &&& t.kind == TokenKind::Identifier ==> plain_name(t.lexeme)
    &&& t.kind == TokenKind::String ==> forall|k: int|
        0 <= k < t.lexeme.len() ==> #[trigger] t.lexeme[k] != '\''
    &&& t.kind == TokenKind::Number ==> t.lexeme.len() > 0 && forall|k: int|
        0 <= k < t.lexeme.len() ==> numeric(#[trigger] t.lexeme[k])
}

/// Every token of a sequence is plain.
pub open spec fn plain_tokens(t: Seq<TokenView>) -> bool {
    forall|k: int| 0 <= k < t.len() ==> plain_token(#[trigger] t[k])
}

/// The token that starts a token's text is plain.
proof fn lemma_token_from_plain(s: Seq<char>, j: int)
    requires
        0 <= j < s.len(),
        !whitespace(s[j]),
    ensures
        token_from(s, j) matches Some((t, e)) ==> plain_token(t),
{
    lemma_run_end(s, j + 1, Run::Word);
    lemma_run_end(s, j + 1, Run::Digits);
    lemma_run_end(s, j + 1, Run::Quoted);
    if let Some((t, e)) = token_from(s, j) {
        let c = s[j];
        if is_word_start(c) {
            let w = s.subrange(j, e);
            assert(w[0] == c);
            assert forall|k: int| 0 <= k < w.len() implies is_word_char(#[trigger] w[k]) by {
                assert(w[k] == s[j + k]);
                if k > 0 {
                    assert(continues(Run::Word, s[j + k]));
                }
            }
        } else if numeric(c) {
            let w = s.subrange(j, e);
            assert forall|k: int| 0 <= k < w.len() implies numeric(#[trigger] w[k]) by {
                assert(w[k] == s[j + k]);
                if k > 0 {
                    assert(continues(Run::Digits, s[j + k]));
                }
            }
        } else if c == '\'' {
            let q = run_end(s, j + 1, Run::Quoted);
            let w = s.subrange(j + 1, q);
            assert forall|k: int| 0 <= k < w.len() implies #[trigger] w[k] != '\'' by {
                assert(w[k] == s[j + 1 + k]);
                assert(continues(Run::Quoted, s[j + 1 + k]));
            }
        }
    }
}

/// The tokens the lexer gives are plain.
proof fn lemma_lex_from_plain(s: Seq<char>, i: int)
    requires
        0 <= i <= s.len(),
    ensures
        lex_from(s, i) matches Ok(ts) ==> plain_tokens(ts),
    decreases s.len() - i,
{
    lemma_run_end(s, i, Run::Blank);
    let j = run_end(s, i, Run::Blank);
    if j < s.len() {
        lemma_token_from_plain(s, j);
        lemma_token_from_advances(s, j);
        if let Some((t, e)) = token_from(s, j) {
            lemma_lex_from_plain(s, e);
            if let Ok(rest) = lex_from(s, e) {
                assert forall|k: int| 0 <= k < (seq![t] + rest).len() implies plain_token(
                    #[trigger] (seq![t] + rest)[k],
                ) by {
                    if k > 0 {
                        assert((seq![t] + rest)[k] == rest[k - 1]);
                    }
                }
            }
        }
    }
}


/// ASCII digits have a value that is not negative.
proof fn lemma_digits_value_nonneg(d: Seq<char>)
    requires
        forall|k: int| 0 <= k < d.len() ==> ascii_digit(#[trigger] d[k]),
    ensures
        digits_value(d) >= 0,
    decreases d.len(),
{
    if d.len() > 0 {
        assert(ascii_digit(d[d.len() - 1]));
        lemma_digits_value_nonneg(d.drop_last());
    }
}

/// A literal read from a plain token is plain.
proof fn lemma_literal_plain(t: Seq<TokenView>, i: int)
    requires
        plain_tokens(t),
        0 <= i,
    ensures
        literal_spec(t, i) matches Ok((l, _)) ==> plain_literal(l),
{
    if within(t, i) {
        assert(plain_token(t[i]));
        let w = t[i].lexeme;
        if t[i].kind == TokenKind::Number && w.len() > 0 {
            assert(numeric(w[0]));
            assert(w[0] != '-' && w[0] != '+');
            if all_digits(w) {
                lemma_digits_value_nonneg(w);
            }
        }
    }
}

/// Names read from plain tokens are plain.
proof fn lemma_names_plain(t: Seq<TokenView>, i: int)
    requires
        plain_tokens(t),
        0 <= i,
    ensures
        identifier_list(t, i) matches Ok((items, _)) ==> plain_names(items),
    decreases t.len() - i,
{
    if within(t, i) && t[i].kind == TokenKind::Identifier {
        assert(plain_token(t[i]));
        let j = i + 1;
        if within(t, j) && t[j].kind == TokenKind::Comma {
            lemma_names_plain(t, j + 1);
            if let Ok((rest, _)) = identifier_list(t, j + 1) {
                let items = seq![t[i].lexeme] + rest;
                assert forall|k: int| 0 <= k < items.len() implies plain_name(#[trigger] items[k]) by {
                    if k > 0 {
                        assert(items[k] == rest[k - 1]);
                    }
                }
            }
        }
    }
}

/// Literals read from plain tokens are plain.
proof fn lemma_literals_plain(t: Seq<TokenView>, i: int)
    requires
        plain_tokens(t),
        0 <= i,
    ensures
        literal_list(t, i) matches Ok((values, _)) ==> plain_literals(values),
    decreases t.len() - i,
{
    lemma_literal_plain(t, i);
    if let Ok((l, j)) = literal_spec(t, i) {
        if within(t, j) && t[j].kind == TokenKind::Comma {
            lemma_literals_plain(t, j + 1);
            if let Ok((rest, _)) = literal_list(t, j + 1) {
                let values = seq![l] + rest;
                assert forall|k: int| 0 <= k < values.len() implies plain_literal(#[trigger] values[k]) by {
                    if k > 0 {
                        assert(values[k] == rest[k - 1]);
                    }
                }
            }
        }
    }
}

/// Column definitions read from plain tokens have plain names.
proof fn lemma_columns_plain(t: Seq<TokenView>, i: int)
    requires
        plain_tokens(t),
        0 <= i,
    ensures
        column_def_list(t, i) matches Ok((columns, _)) ==> plain_columns(columns),
    decreases t.len() - i,
{
    if within(t, i) {
        assert(plain_token(t[i]));
    }
    lemma_column_def_advances(t, i);
    if let Ok((c, j)) = column_def_spec(t, i) {
        if within(t, j) && t[j].kind == TokenKind::Comma {
            lemma_columns_plain(t, j + 1);
            if let Ok((rest, _)) = column_def_list(t, j + 1) {
                let columns = seq![c] + rest;
                assert forall|k: int| 0 <= k < columns.len() implies plain_name(#[trigger] columns[k].name) by {
                    if k > 0 {
                        assert(columns[k] == rest[k - 1]);
                    }
                }
            }
        }
    }
}

/// A comparison read from plain tokens is plain.
proof fn lemma_comparison_plain(t: Seq<TokenView>, i: int)
    requires
        plain_tokens(t),
        0 <= i,
    ensures
        comparison_spec(t, i) matches Ok((c, _)) ==> plain_name(c.column) && plain_literal(c.value),
{
    if within(t, i) {
        assert(plain_token(t[i]));
    }
    lemma_literal_plain(t, i + 2);
}

/// A statement read from plain tokens is plain.
#[verifier::rlimit(40)]
proof fn lemma_statement_plain(t: Seq<TokenView>, i: int)
    requires
        plain_tokens(t),
        0 <= i,
    ensures
        statement_spec(t, i) matches Ok((st, _)) ==> plain_statement(st),
{
    if within(t, i) {
        let kind = t[i].kind;
        if kind == TokenKind::Select {
            lemma_names_plain(t, i + 1);
            lemma_identifier_list_advances(t, i + 1);
            if let Ok((_, b)) = identifier_list(t, i + 1) {
                if within(t, b + 1) {
                    assert(plain_token(t[b + 1]));
                }
                lemma_comparison_plain(t, b + 3);
            }
        } else if kind == TokenKind::Insert {
            if within(t, i + 2) {
                assert(plain_token(t[i + 2]));
            }
            lemma_names_plain(t, i + 4);
            lemma_identifier_list_advances(t, i + 4);
            if let Ok((_, d)) = insert_columns_spec(t, i + 3) {
                lemma_literals_plain(t, d + 2);
            }
        } else if kind == TokenKind::Create {
            if within(t, i + 2) {
                assert(plain_token(t[i + 2]));
            }
            lemma_columns_plain(t, i + 4);
        }
    }
}

/// The statements read from plain tokens are plain.
proof fn lemma_statements_plain(t: Seq<TokenView>, i: int)
    requires
        plain_tokens(t),
        0 <= i,
    ensures
        statements_spec(t, i) matches Ok(v) ==> forall|k: int|
            0 <= k < v.len() ==> plain_statement(#[trigger] v[k]),
    decreases t.len() - i,
{
    if within(t, i) && t[i].kind != TokenKind::Eof {
        lemma_statement_plain(t, i);
        lemma_statement_advances(t, i);
        if let Ok((st, j)) = statement_spec(t, i) {
            lemma_statements_plain(t, j);
            if let Ok(rest) = statements_spec(t, j) {
                let v = seq![st] + rest;
                assert forall|k: int| 0 <= k < v.len() implies plain_statement(#[trigger] v[k]) by {
                    if k > 0 {
                        assert(v[k] == rest[k - 1]);
                    }
                }
            }
        }
    }
}


/// Printing a statement that was read from text, then lexing and parsing what was printed,
/// gives that statement back, alone: for any text that lexes and parses, each statement `k`
/// of it, written by `statement_text`, lexes, and its tokens parse to just that statement.
pub proof fn law_print_then_parse(src: Seq<char>, k: int)
    requires
        lex_spec(src, 0) is Ok,
        statements_spec(lex_spec(src, 0)->Ok_0, 0) is Ok,
        0 <= k < statements_spec(lex_spec(src, 0)->Ok_0, 0)->Ok_0.len(),
    ensures
        ({
            let st = statements_spec(lex_spec(src, 0)->Ok_0, 0)->Ok_0[k];
            &&& lex_spec(statement_text(st), 0) is Ok
            &&& statements_spec(lex_spec(statement_text(st), 0)->Ok_0, 0) == Ok::<
                Seq<StatementView>,
                Failure,
            >(seq![st])
        }),
{
    lemma_lex_from_plain(src, 0);
    let body = lex_from(src, 0)->Ok_0;
    let ts = lex_spec(src, 0)->Ok_0;
    assert(ts == body.push(eof_token(src)));
    assert forall|m: int| 0 <= m < ts.len() implies plain_token(#[trigger] ts[m]) by {
        if m < body.len() {
            assert(ts[m] == body[m]);
        }
    }
    lemma_statements_plain(ts, 0);
    let st = statements_spec(ts, 0)->Ok_0[k];
    assert(plain_statement(st));
    law_written_statement_reads_back(st);
}

} // verus!

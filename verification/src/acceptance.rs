//! What the lexer and the parser accept and refuse: which words are keywords, what may stand
//! as the value of a comparison, and which words name a data type.

use vstd::prelude::*;

use crate::lexer::{
    is_word_start, lemma_run_end, lemma_token_from_advances, lex_from, lex_spec, run_end,
    token_from, word_kind, LexerErrorView, Run,
};
use crate::parser::{
    column_def_list, column_def_spec, identifier_list, literal_list, literal_spec, comparison_spec, kind_text, statement_spec, ComparisonOp, DataType, Failure,
    LiteralView, ParseErrorView, StatementView,
};
use crate::parser::same_text_token;
use crate::round_trip::{lemma_keyword_texts, lemma_lex_word, lexes_as, word_like};
use crate::text::{i64_value, lowercase, usize_value};
use crate::token::{TokenKind, TokenView};

verus! {

// ---------------------------------------------------------------------------
// Keywords
// ---------------------------------------------------------------------------

/// Whether a token of the lexer's output came from a word, with the kind its spelling gives,
/// or is a string, a number or a symbol.
spec fn kind_from_text(t: TokenView) -> bool {
    ||| t.kind == TokenKind::String
    ||| t.kind == TokenKind::Number
    ||| t.kind == TokenKind::Comma
    ||| t.kind == TokenKind::LeftParen
    ||| t.kind == TokenKind::RightParen
    ||| t.kind == TokenKind::Plus
    ||| t.kind == TokenKind::Equal
    ||| t.kind == TokenKind::LessThan
    ||| t.kind == TokenKind::LessThanEqual
    ||| t.kind == TokenKind::GreaterThan
    ||| t.kind == TokenKind::GreaterThanEqual
    ||| t.kind == word_kind(t.lexeme)
}

/// Every token the lexer gives from `i` on is a word of its spelling's kind, or a string, a
/// number or a symbol.
proof fn lemma_lex_from_kinds(s: Seq<char>, i: int)
    requires
        0 <= i <= s.len(),
    ensures
        lex_from(s, i) matches Ok(ts) ==> forall|k: int|
            0 <= k < ts.len() ==> kind_from_text(#[trigger] ts[k]),
    decreases s.len() - i,
{
    lemma_run_end(s, i, Run::Blank);
    let j = run_end(s, i, Run::Blank);
    if j < s.len() {
        lemma_token_from_advances(s, j);
        if let Some((t, e)) = token_from(s, j) {
            lemma_lex_from_kinds(s, e);
            if let Ok(rest) = lex_from(s, e) {
                assert forall|k: int| 0 <= k < (seq![t] + rest).len() implies kind_from_text(
                    #[trigger] (seq![t] + rest)[k],
                ) by {
                    if k > 0 {
                        assert((seq![t] + rest)[k] == rest[k - 1]);
                    }
                }
            }
        }
    }
}

/// A token is a keyword exactly by its spelling: in the lexer's output, a token of a keyword's
/// kind is that keyword spelled in any case, and an identifier is spelled, in lowercase, as
/// none of `create`, `table`, `insert`, `into`, `select`, `values`, `from` and `where`.
pub proof fn law_lexed_keywords_are_spelled(s: Seq<char>, k: int)
    requires
        lex_spec(s, 0) is Ok,
        0 <= k < lex_spec(s, 0)->Ok_0.len(),
    ensures
        ({
            let t = lex_spec(s, 0)->Ok_0[k];
            let l = lowercase(t.lexeme);
            &&& t.kind == TokenKind::Create ==> l == "create"@
            &&& t.kind == TokenKind::Table ==> l == "table"@
            &&& t.kind == TokenKind::Insert ==> l == "insert"@
            &&& t.kind == TokenKind::Into ==> l == "into"@
            &&& t.kind == TokenKind::Select ==> l == "select"@
            &&& t.kind == TokenKind::Values ==> l == "values"@
            &&& t.kind == TokenKind::From ==> l == "from"@
            &&& t.kind == TokenKind::Where ==> l == "where"@
            &&& t.kind == TokenKind::Identifier ==> l != "create"@ && l != "table"@ && l
                != "insert"@ && l != "into"@ && l != "select"@ && l != "values"@ && l != "from"@
                && l != "where"@
        }),
{
    lemma_lex_from_kinds(s, 0);
    let body = lex_from(s, 0)->Ok_0;
    let ts = lex_spec(s, 0)->Ok_0;
    if k < body.len() {
        assert(ts[k] == body[k]);
        assert(kind_from_text(body[k]));
    }
}

/// A word standing alone is one token, whose kind its spelling decides: the keyword it
/// spells in lowercase, when it spells one of `create`, `table`, `insert`, `into`, `select`,
/// `values`, `from` and `where`, and an identifier otherwise.
pub proof fn law_word_lexes_by_its_spelling(w: Seq<char>)
    requires
        word_like(w),
    ensures
        lex_spec(w, 0) is Ok,
        ({
            let ts = lex_spec(w, 0)->Ok_0;
            let l = lowercase(w);
            &&& ts.len() == 2
            &&& ts[0].lexeme == w
            &&& ts[1].kind == TokenKind::Eof
            &&& l == "create"@ ==> ts[0].kind == TokenKind::Create
            &&& l == "table"@ ==> ts[0].kind == TokenKind::Table
            &&& l == "insert"@ ==> ts[0].kind == TokenKind::Insert
            &&& l == "into"@ ==> ts[0].kind == TokenKind::Into
            &&& l == "select"@ ==> ts[0].kind == TokenKind::Select
            &&& l == "values"@ ==> ts[0].kind == TokenKind::Values
            &&& l == "from"@ ==> ts[0].kind == TokenKind::From
            &&& l == "where"@ ==> ts[0].kind == TokenKind::Where
            &&& (l != "create"@ && l != "table"@ && l != "insert"@ && l != "into"@ && l
                != "select"@ && l != "values"@ && l != "from"@ && l != "where"@) ==> ts[0].kind
                == TokenKind::Identifier
        }),
{
    assert(w.skip(0) =~= w + Seq::<char>::empty());
    lemma_lex_word(w, 0, w, Seq::empty());
    reveal(lexes_as);
    assert(run_end(w, w.len() as int, Run::Blank) == w.len());
    assert(lex_from(w, w.len() as int) == Ok::<Seq<TokenView>, LexerErrorView>(Seq::empty()));
    let body = lex_from(w, 0)->Ok_0;
    assert(body.len() == 1);
    assert(same_text_token(seq![crate::round_trip::tok(word_kind(w), w)][0], body[0]));
    let ts = lex_spec(w, 0)->Ok_0;
    assert(ts == body.push(crate::lexer::eof_token(w)));
    assert(ts[0] == body[0]);
    assert(ts[0].kind == word_kind(w) && ts[0].lexeme == w);
    lemma_keyword_texts();
    reveal_strlit("create");
    reveal_strlit("table");
    reveal_strlit("insert");
    reveal_strlit("into");
    reveal_strlit("select");
    reveal_strlit("values");
    reveal_strlit("from");
    reveal_strlit("where");
    assert("table"@.len() != "create"@.len());
    assert("into"@.len() != "create"@.len() && "into"@.len() != "table"@.len() && "into"@.len()
        != "insert"@.len());
    assert("from"@.len() == 4 && "where"@.len() == 5 && "create"@.len() == 6 && "insert"@.len()
        == 6 && "select"@.len() == 6 && "values"@.len() == 6 && "table"@.len() == 5);
    assert(ts.len() == 2);
    assert(ts[1].kind == TokenKind::Eof);
    let l = lowercase(w);
    assert(l == "create"@ ==> ts[0].kind == TokenKind::Create);
    assert(l == "table"@ ==> ts[0].kind == TokenKind::Table);
    assert(l == "insert"@ ==> ts[0].kind == TokenKind::Insert);
    assert(l == "into"@ ==> ts[0].kind == TokenKind::Into);
    assert(l == "select"@ ==> ts[0].kind == TokenKind::Select);
    assert(l == "values"@ ==> ts[0].kind == TokenKind::Values);
    assert(l == "from"@ ==> ts[0].kind == TokenKind::From);
    assert(l == "where"@ ==> ts[0].kind == TokenKind::Where);
}

// ---------------------------------------------------------------------------
// The value of a comparison
// ---------------------------------------------------------------------------

/// The value of a WHERE comparison is a literal token: when a SELECT with a WHERE clause
/// parses, ending at `k`, the last four tokens it read are `WHERE`, the column, the operator,
/// and a string token whose lexeme is the value or a number token that reads as the value.
pub proof fn law_where_value_is_a_literal_token(t: Seq<TokenView>, i: int)
    requires
        0 <= i,
    ensures
        (statement_spec(t, i) matches Ok((StatementView::Select { where_clause: Some(c), .. }, k))
            ==> {
            &&& i + 4 <= k <= t.len()
            &&& t[k - 4].kind == TokenKind::Where
            &&& t[k - 3].kind == TokenKind::Identifier
            &&& t[k - 3].lexeme == c.column
            &&& (t[k - 2].kind == TokenKind::Equal && c.op == ComparisonOp::Eq) || (t[k - 2].kind
                == TokenKind::LessThan && c.op == ComparisonOp::Lt) || (t[k - 2].kind
                == TokenKind::LessThanEqual && c.op == ComparisonOp::LtEq) || (t[k - 2].kind
                == TokenKind::GreaterThan && c.op == ComparisonOp::Gt) || (t[k - 2].kind
                == TokenKind::GreaterThanEqual && c.op == ComparisonOp::GtEq)
            &&& (t[k - 1].kind == TokenKind::String && c.value == LiteralView::String(t[k - 1].lexeme))
                || (t[k - 1].kind == TokenKind::Number && i64_value(t[k - 1].lexeme) is Some
                && c.value == LiteralView::Number(i64_value(t[k - 1].lexeme)->Some_0))
        }),
{
    crate::parser::lemma_identifier_list_advances(t, i + 1);
}

/// A comparison whose value is neither a string nor a number is refused, with the error on
/// that token: after a column and a comparison operator, any other token fails the
/// comparison with "Expected a literal (number or string); got" and its kind, and the parser
/// left at it.
pub proof fn law_where_value_must_be_a_literal(t: Seq<TokenView>, i: int)
    requires
        0 <= i,
        i + 2 < t.len(),
        t[i].kind == TokenKind::Identifier,
        t[i + 1].kind == TokenKind::Equal || t[i + 1].kind == TokenKind::LessThan || t[i + 1].kind
            == TokenKind::LessThanEqual || t[i + 1].kind == TokenKind::GreaterThan || t[i
            + 1].kind == TokenKind::GreaterThanEqual,
        t[i + 2].kind != TokenKind::String,
        t[i + 2].kind != TokenKind::Number,
    ensures
        comparison_spec(t, i) == Err::<(crate::parser::ComparisonView, int), Failure>(
            Failure::Error(
                (ParseErrorView {
                    token: t[i + 2],
                    msg: "Expected a literal (number or string); got "@ + kind_text(t[i + 2].kind),
                }),
                i + 2,
            ),
        ),
{
}

// ---------------------------------------------------------------------------
// Data types
// ---------------------------------------------------------------------------

/// A column's data type is the word that spells it: when a column definition parses, ending
/// at `k`, its name is the identifier it starts with, and its type is `INT` or `TEXT` from
/// an identifier spelled `int` or `text` in any case, or `VARCHAR(n)` from one spelled
/// `varchar` followed by `(`, a number that reads as `n`, and `)`.
pub proof fn law_column_type_is_spelled(t: Seq<TokenView>, i: int)
    requires
        0 <= i,
    ensures
        column_def_spec(t, i) matches Ok((c, k)) ==> {
            &&& i + 2 <= k <= t.len()
            &&& t[i].kind == TokenKind::Identifier
            &&& c.name == t[i].lexeme
            &&& t[i + 1].kind == TokenKind::Identifier
            &&& c.data_type == DataType::Int ==> lowercase(t[i + 1].lexeme) == "int"@ && k == i + 2
            &&& c.data_type == DataType::Text ==> lowercase(t[i + 1].lexeme) == "text"@ && k == i
                + 2
            &&& c.data_type matches DataType::VarChar(n) ==> {
                &&& lowercase(t[i + 1].lexeme) == "varchar"@
                &&& k == i + 5
                &&& t[i + 2].kind == TokenKind::LeftParen
                &&& t[i + 3].kind == TokenKind::Number
                &&& usize_value(t[i + 3].lexeme) == Some(n)
                &&& t[i + 4].kind == TokenKind::RightParen
            }
        },
{
}

/// A data type that is not spelled `int`, `text` or `varchar`, in any case, is refused: the
/// column definition fails with "Unknown data type:" and the word, on the type's token,
/// with the parser left at it.
pub proof fn law_unknown_type_is_refused(t: Seq<TokenView>, i: int)
    requires
        0 <= i,
        i + 1 < t.len(),
        t[i].kind == TokenKind::Identifier,
        t[i + 1].kind == TokenKind::Identifier,
        lowercase(t[i + 1].lexeme) != "int"@,
        lowercase(t[i + 1].lexeme) != "text"@,
        lowercase(t[i + 1].lexeme) != "varchar"@,
    ensures
        column_def_spec(t, i) == Err::<(crate::parser::ColumnDefView, int), Failure>(
            Failure::Error(
                (ParseErrorView { token: t[i + 1], msg: "Unknown data type: "@ + t[i + 1].lexeme }),
                i + 1,
            ),
        ),
{
}


// ---------------------------------------------------------------------------
// Lists and the shape of a SELECT
// ---------------------------------------------------------------------------

/// Whether `t[j]` is a literal token that reads as `l`: a string token whose lexeme is the
/// string, or a number token whose lexeme reads as the number.
pub open spec fn literal_token_reads_as(t: Seq<TokenView>, j: int, l: LiteralView) -> bool {
    ||| t[j].kind == TokenKind::String && l == LiteralView::String(t[j].lexeme)
    ||| t[j].kind == TokenKind::Number && i64_value(t[j].lexeme) is Some && l == LiteralView::Number(
        i64_value(t[j].lexeme)->Some_0,
    )
}

/// A literal is a literal token: when it parses, it is the string or number token at `i`.
pub proof fn law_literal_is_a_literal_token(t: Seq<TokenView>, i: int)
    requires
        0 <= i,
    ensures
        literal_spec(t, i) matches Ok((l, k)) ==> k == i + 1 && i < t.len() && literal_token_reads_as(
            t,
            i,
            l,
        ),
{
}

/// A list of values is literal tokens separated by commas: when it parses from `i` to `k`,
/// value `m` is read from the token at `i + 2m`, a comma stands between values, and the list
/// ends at its last value.
pub proof fn law_values_are_literal_tokens(t: Seq<TokenView>, i: int)
    requires
        0 <= i,
    ensures
        literal_list(t, i) matches Ok((vals, k)) ==> {
            &&& vals.len() >= 1
            &&& k == i + 2 * vals.len() - 1
            &&& k <= t.len()
            &&& forall|m: int| 0 <= m < vals.len() ==> literal_token_reads_as(t, i + 2 * m, #[trigger] vals[m])
            &&& forall|m: int| 0 <= m < vals.len() - 1 ==> (#[trigger] t[i + 2 * m + 1]).kind
                == TokenKind::Comma
        },
    decreases t.len() - i,
{
    law_literal_is_a_literal_token(t, i);
    if let Ok((l, j)) = literal_spec(t, i) {
        if j < t.len() && t[j].kind == TokenKind::Comma {
            law_values_are_literal_tokens(t, j + 1);
            if let Ok((rest, k)) = literal_list(t, j + 1) {
                let vals = seq![l] + rest;
                assert forall|m: int| 0 <= m < vals.len() implies literal_token_reads_as(
                    t,
                    i + 2 * m,
                    #[trigger] vals[m],
                ) by {
                    if m > 0 {
                        assert(vals[m] == rest[m - 1]);
                        assert(literal_token_reads_as(t, j + 1 + 2 * (m - 1), rest[m - 1]));
                        assert(j + 1 + 2 * (m - 1) == i + 2 * m);
                    }
                }
                assert forall|m: int| 0 <= m < vals.len() - 1 implies (#[trigger] t[i + 2 * m
                    + 1]).kind == TokenKind::Comma by {
                    if m > 0 {
                        assert(t[j + 1 + 2 * (m - 1) + 1] == t[i + 2 * m + 1]);
                    }
                }
            }
        }
    }
}

/// A list of names is identifier tokens separated by commas: when it parses from `i` to `k`,
/// name `m` is the lexeme of the identifier at `i + 2m`, a comma stands between names, and
/// the list ends at its last name.
pub proof fn law_names_are_identifier_tokens(t: Seq<TokenView>, i: int)
    requires
        0 <= i,
    ensures
        identifier_list(t, i) matches Ok((names, k)) ==> {
            &&& names.len() >= 1
            &&& k == i + 2 * names.len() - 1
            &&& k <= t.len()
            &&& forall|m: int|
                0 <= m < names.len() ==> (#[trigger] t[i + 2 * m]).kind == TokenKind::Identifier
                    && t[i + 2 * m].lexeme == names[m]
            &&& forall|m: int| 0 <= m < names.len() - 1 ==> (#[trigger] t[i + 2 * m + 1]).kind
                == TokenKind::Comma
        },
    decreases t.len() - i,
{
    if i < t.len() && t[i].kind == TokenKind::Identifier {
        let j = i + 1;
        if j < t.len() && t[j].kind == TokenKind::Comma {
            law_names_are_identifier_tokens(t, j + 1);
            if let Ok((rest, k)) = identifier_list(t, j + 1) {
                let names = seq![t[i].lexeme] + rest;
                assert forall|m: int| 0 <= m < names.len() implies (#[trigger] t[i + 2 * m]).kind
                    == TokenKind::Identifier && t[i + 2 * m].lexeme == names[m] by {
                    if m > 0 {
                        assert(names[m] == rest[m - 1]);
                        assert(t[j + 1 + 2 * (m - 1)] == t[i + 2 * m]);
                    }
                }
                assert forall|m: int| 0 <= m < names.len() - 1 implies (#[trigger] t[i + 2 * m
                    + 1]).kind == TokenKind::Comma by {
                    if m > 0 {
                        assert(t[j + 1 + 2 * (m - 1) + 1] == t[i + 2 * m + 1]);
                    }
                }
            }
        }
    }
}

/// The shape of a SELECT: when one parses from `i` to `k`, it starts with `SELECT` and its
/// columns, and the table is the identifier after `FROM` that ends it, or that comes just
/// before a WHERE comparison of four tokens; without a WHERE clause, what follows is not
/// `WHERE`.
pub proof fn law_select_shape(t: Seq<TokenView>, i: int)
    requires
        0 <= i,
    ensures
        (statement_spec(t, i) matches Ok((StatementView::Select { table, columns, where_clause }, k))
            ==> {
            &&& t[i].kind == TokenKind::Select
            &&& identifier_list(t, i + 1) == Ok::<(Seq<Seq<char>>, int), Failure>(
                (columns, i + 2 * columns.len()),
            )
            &&& where_clause is None ==> {
                &&& k == i + 2 * columns.len() + 2
                &&& t[k - 2].kind == TokenKind::From
                &&& t[k - 1].kind == TokenKind::Identifier
                &&& t[k - 1].lexeme == table
                &&& k < t.len() ==> t[k].kind != TokenKind::Where
            }
            &&& where_clause is Some ==> {
                &&& k == i + 2 * columns.len() + 6
                &&& t[k - 6].kind == TokenKind::From
                &&& t[k - 5].kind == TokenKind::Identifier
                &&& t[k - 5].lexeme == table
            }
        }),
{
    law_names_are_identifier_tokens(t, i + 1);
}


/// The shape of an INSERT: when one parses from `i` to `k`, it is `INSERT INTO` and the table
/// identifier, then the column names between brackets when there are some (and no bracket
/// when there are none), then `VALUES (`, the values, and `)` at its end.
pub proof fn law_insert_shape(t: Seq<TokenView>, i: int)
    requires
        0 <= i,
    ensures
        (statement_spec(t, i) matches Ok((StatementView::Insert { table, columns, values }, k))
            ==> {
            let d = match columns {
                Some(cols) => i + 4 + 2 * cols.len(),
                None => i + 3,
            };
            &&& t[i].kind == TokenKind::Insert
            &&& t[i + 1].kind == TokenKind::Into
            &&& t[i + 2].kind == TokenKind::Identifier
            &&& t[i + 2].lexeme == table
            &&& columns is None ==> t[i + 3].kind != TokenKind::LeftParen
            &&& columns matches Some(cols) ==> {
                &&& t[i + 3].kind == TokenKind::LeftParen
                &&& identifier_list(t, i + 4) == Ok::<(Seq<Seq<char>>, int), Failure>(
                    (cols, i + 3 + 2 * cols.len()),
                )
                &&& t[i + 3 + 2 * cols.len()].kind == TokenKind::RightParen
            }
            &&& t[d].kind == TokenKind::Values
            &&& t[d + 1].kind == TokenKind::LeftParen
            &&& literal_list(t, d + 2) == Ok::<(Seq<LiteralView>, int), Failure>(
                (values, d + 1 + 2 * values.len()),
            )
            &&& k == d + 2 + 2 * values.len()
            &&& t[k - 1].kind == TokenKind::RightParen
        }),
{
    law_names_are_identifier_tokens(t, i + 4);
    if let Ok((StatementView::Insert { columns, .. }, _)) = statement_spec(t, i) {
        let d = match columns {
            Some(cols) => i + 4 + 2 * cols.len(),
            None => i + 3,
        };
        law_values_are_literal_tokens(t, d + 2);
    }
}

/// The shape of a CREATE TABLE: when one parses from `i` to `k`, it is `CREATE TABLE`, the
/// table identifier and `(`, then the column definitions up to the `)` that ends it.
pub proof fn law_create_shape(t: Seq<TokenView>, i: int)
    requires
        0 <= i,
    ensures
        (statement_spec(t, i) matches Ok((StatementView::Create { table, columns }, k)) ==> {
            &&& t[i].kind == TokenKind::Create
            &&& t[i + 1].kind == TokenKind::Table
            &&& t[i + 2].kind == TokenKind::Identifier
            &&& t[i + 2].lexeme == table
            &&& t[i + 3].kind == TokenKind::LeftParen
            &&& column_def_list(t, i + 4) == Ok::<(Seq<crate::parser::ColumnDefView>, int), Failure>(
                (columns, k - 1),
            )
            &&& t[k - 1].kind == TokenKind::RightParen
        }),
{
}

} // verus!

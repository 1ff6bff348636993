//! Writing statements back as SQL text.

use vstd::prelude::*;

use crate::parser::{
    column_views, literal_views, texts, ColumnDef, ColumnDefView, Comparison, ComparisonOp,
    ComparisonView, DataType, Literal, LiteralView, Statement, StatementView,
};
use crate::text::{decimal, push_i64, push_usize};

verus! {

// ---------------------------------------------------------------------------
// Specification
// ---------------------------------------------------------------------------

/// The `k`-th item of a comma separated list as it is written: the item, then `", "` unless
/// it is the last.
pub open spec fn piece(items: Seq<Seq<char>>, k: int) -> Seq<char> {
    if k + 1 < items.len() {
        items[k] + ", "@
    } else {
        items[k]
    }
}

/// The first `i` items of a comma separated list as they are written.
pub open spec fn written(items: Seq<Seq<char>>, i: int) -> Seq<char>
    decreases i,
{
    if i <= 0 {
        Seq::empty()
    } else {
        written(items, i - 1) + piece(items, i - 1)
    }
}

/// The items separated by `", "`.
pub open spec fn comma_separated(items: Seq<Seq<char>>) -> Seq<char> {
    written(items, items.len() as int)
}

/// The characters of each string in a sequence.
pub open spec fn string_views(v: Seq<String>) -> Seq<Seq<char>> {
    v.map_values(|s: String| s@)
}

/// A comparison operator as SQL.
pub open spec fn op_text(op: ComparisonOp) -> Seq<char> {
    match op {
        ComparisonOp::Eq => "="@,
        ComparisonOp::Lt => "<"@,
        ComparisonOp::LtEq => "<="@,
        ComparisonOp::Gt => ">"@,
        ComparisonOp::GtEq => ">="@,
    }
}

/// A data type as SQL.
pub open spec fn datatype_text(d: DataType) -> Seq<char> {
    match d {
        DataType::Int => "INT"@,
        DataType::Text => "TEXT"@,
        DataType::VarChar(size) => "VARCHAR("@ + decimal(size as int) + ")"@,
    }
}

/// A literal as SQL: a number in decimal, a string between single quotes.
pub open spec fn literal_text(l: LiteralView) -> Seq<char> {
    match l {
        LiteralView::Number(n) => decimal(n as int),
        LiteralView::String(s) => "'"@ + s + "'"@,
    }
}

/// A column definition as SQL: its name and its type.
pub open spec fn column_def_text(c: ColumnDefView) -> Seq<char> {
    c.name + " "@ + datatype_text(c.data_type)
}

/// A comparison as SQL: column, operator and literal.
pub open spec fn comparison_text(c: ComparisonView) -> Seq<char> {
    c.column + " "@ + op_text(c.op) + " "@ + literal_text(c.value)
}

/// The SQL of each literal.
pub open spec fn literal_texts(v: Seq<LiteralView>) -> Seq<Seq<char>> {
    v.map_values(|l: LiteralView| literal_text(l))
}

/// The SQL of each column definition.
pub open spec fn column_def_texts(v: Seq<ColumnDefView>) -> Seq<Seq<char>> {
    v.map_values(|c: ColumnDefView| column_def_text(c))
}

/// A statement as SQL.
pub open spec fn statement_text(s: StatementView) -> Seq<char> {
    match s {
        StatementView::Create { table, columns } => "CREATE TABLE "@ + table + " ("@
            + comma_separated(column_def_texts(columns)) + ")"@,
        StatementView::Insert { table, columns, values } => "INSERT INTO "@ + table + " "@ + match columns {
            Some(cols) => "("@ + comma_separated(cols) + ") "@,
            None => Seq::empty(),
        } + "VALUES ("@ + comma_separated(literal_texts(values)) + ")"@,
        StatementView::Select { table, columns, where_clause } => "SELECT "@ + comma_separated(columns)
            + match where_clause {
            Some(clause) => " FROM "@ + table + " WHERE "@ + comparison_text(clause),
            None => " FROM "@ + table,
        },
    }
}

// ---------------------------------------------------------------------------
// Implementation
// ---------------------------------------------------------------------------

/// Writes the items separated by `", "`.
pub fn write_comma_separated(out: &mut String, items: &Vec<String>)
    ensures
        final(out)@ == old(out)@ + comma_separated(string_views(items@)),
{
    let ghost v = string_views(items@);
    let n = items.len();
    let mut idx: usize = 0;
    proof {
        assert(old(out)@ + written(v, 0) =~= old(out)@);
    }
    while idx < n
        invariant
            n == items@.len(),
            v == string_views(items@),
            idx <= n,
            out@ == old(out)@ + written(v, idx as int),
        decreases n - idx,
    {
        let ghost before = out@;
        out.append(items[idx].as_str());
        if idx != n - 1 {
            out.append(", ");
        }
        idx = idx + 1;
        proof {
            assert(v[idx - 1] == items@[idx - 1]@);
            assert(out@ =~= old(out)@ + written(v, idx as int));
        }
    }
}

impl ComparisonOp {
    /// The operator as SQL.
    pub fn to_string(&self) -> (r: String)
        ensures
            r@ == op_text(*self),
    {
        let text = match self {
            ComparisonOp::Eq => "=",
            ComparisonOp::Lt => "<",
            ComparisonOp::LtEq => "<=",
            ComparisonOp::Gt => ">",
            ComparisonOp::GtEq => ">=",
        };
        String::from_str(text)
    }
}

impl DataType {
    /// The data type as SQL.
    pub fn to_string(&self) -> (r: String)
        ensures
            r@ == datatype_text(*self),
    {
        match self {
            DataType::Int => String::from_str("INT"),
            DataType::Text => String::from_str("TEXT"),
            DataType::VarChar(size) => {
                let mut out = String::from_str("VARCHAR(");
                push_usize(&mut out, *size);
                out.append(")");
                out
            },
        }
    }
}

impl<'a> Literal<'a> {
    /// The literal as SQL.
    pub fn to_string(&self) -> (r: String)
        ensures
            r@ == literal_text(self@),
    {
        match self {
            Literal::Number(n) => {
                let mut out = String::new();
                push_i64(&mut out, *n);
                proof {
                    assert(out@ =~= decimal(*n as int));
                }
                out
            },
            Literal::String(s) => {
                let mut out = String::from_str("'");
                out.append(s);
                out.append("'");
                out
            },
        }
    }
}

impl<'a> ColumnDef<'a> {
    /// The column definition as SQL.
    pub fn to_string(&self) -> (r: String)
        ensures
            r@ == column_def_text(self@),
    {
        let mut out = String::from_str(self.name);
        out.append(" ");
        out.append(self.data_type.to_string().as_str());
        out
    }
}

impl<'a> Comparison<'a> {
    /// The comparison as SQL.
    pub fn to_string(&self) -> (r: String)
        ensures
            r@ == comparison_text(self@),
    {
        let mut out = String::from_str(self.column);
        out.append(" ");
        out.append(self.op.to_string().as_str());
        out.append(" ");
        out.append(self.value.to_string().as_str());
        out
    }
}

/// The names as strings.
fn name_strings<'a>(names: &Vec<&'a str>) -> (r: Vec<String>)
    ensures
        string_views(r@) == texts(names@),
{
    let mut r: Vec<String> = Vec::new();
    let n = names.len();
    let mut i: usize = 0;
    while i < n
        invariant
            n == names@.len(),
            i <= n,
            r@.len() == i,
            string_views(r@) == texts(names@.take(i as int)),
        decreases n - i,
    {
        let ghost prev = r@;
        r.push(String::from_str(names[i]));
        i = i + 1;
        proof {
            assert forall|j: int| 0 <= j < i implies string_views(r@)[j] == (texts(names@.take(i as int)))[j] by {
                if j < i - 1 {
                    assert(string_views(prev)[j] == (texts(names@.take(i - 1)))[j]);
                }
            }
            assert(string_views(r@) =~= texts(names@.take(i as int)));
        }
    }
    proof {
        assert(names@.take(n as int) =~= names@);
    }
    r
}

/// The literals as SQL.
fn literal_strings<'a>(values: &Vec<Literal<'a>>) -> (r: Vec<String>)
    ensures
        string_views(r@) == literal_texts(literal_views(values@)),
{
    let mut r: Vec<String> = Vec::new();
    let n = values.len();
    let mut i: usize = 0;
    while i < n
        invariant
            n == values@.len(),
            i <= n,
            r@.len() == i,
            string_views(r@) == literal_texts(literal_views(values@.take(i as int))),
        decreases n - i,
    {
        let ghost prev = r@;
        r.push(values[i].to_string());
        i = i + 1;
        proof {
            assert forall|j: int| 0 <= j < i implies string_views(r@)[j] == (literal_texts(literal_views(values@.take(i as int))))[j] by {
                if j < i - 1 {
                    assert(string_views(prev)[j] == (literal_texts(literal_views(values@.take(i - 1))))[j]);
                }
            }
            assert(string_views(r@) =~= literal_texts(literal_views(values@.take(i as int))));
        }
    }
    proof {
        assert(values@.take(n as int) =~= values@);
    }
    r
}

/// The column definitions as SQL.
fn column_strings<'a>(columns: &Vec<ColumnDef<'a>>) -> (r: Vec<String>)
    ensures
        string_views(r@) == column_def_texts(column_views(columns@)),
{
    let mut r: Vec<String> = Vec::new();
    let n = columns.len();
    let mut i: usize = 0;
    while i < n
        invariant
            n == columns@.len(),
            i <= n,
            r@.len() == i,
            string_views(r@) == column_def_texts(column_views(columns@.take(i as int))),
        decreases n - i,
    {
        let ghost prev = r@;
        r.push(columns[i].to_string());
        i = i + 1;
        proof {
            assert forall|j: int| 0 <= j < i implies string_views(r@)[j] == (column_def_texts(column_views(columns@.take(i as int))))[j] by {
                if j < i - 1 {
                    assert(string_views(prev)[j] == (column_def_texts(column_views(columns@.take(i - 1))))[j]);
                }
            }
            assert(string_views(r@) =~= column_def_texts(column_views(columns@.take(i as int))));
        }
    }
    proof {
        assert(columns@.take(n as int) =~= columns@);
    }
    r
}

impl<'a> Statement<'a> {
    /// The statement as SQL.
    pub fn to_string(&self) -> (r: String)
        ensures
            r@ == statement_text(self@),
    {
        match self {
            Statement::Create { table, columns } => {
                let mut out = String::from_str("CREATE TABLE ");
                out.append(table);
                out.append(" (");
                write_comma_separated(&mut out, &column_strings(columns));
                out.append(")");
                out
            },
            Statement::Insert { table, columns, values } => {
                let mut out = String::from_str("INSERT INTO ");
                out.append(table);
                out.append(" ");
                let ghost head = out@;
                if let Some(cols) = columns {
                    out.append("(");
                    write_comma_separated(&mut out, &name_strings(cols));
                    out.append(") ");
                }
                proof {
                    assert(head + Seq::<char>::empty() =~= head);
                }
                out.append("VALUES (");
                write_comma_separated(&mut out, &literal_strings(values));
                out.append(")");
                out
            },
            Statement::Select { table, columns, where_clause } => {
                let mut out = String::from_str("SELECT ");
                write_comma_separated(&mut out, &name_strings(columns));
                if let Some(clause) = where_clause {
                    out.append(" FROM ");
                    out.append(table);
                    out.append(" WHERE ");
                    out.append(clause.to_string().as_str());
                } else {
                    out.append(" FROM ");
                    out.append(table);
                }
                out
            },
        }
    }
}

} // verus!

//! The statements that copy a table of text into a relational table named
//! `data`, in which every column holds text.
use vstd::prelude::*;
use vstd::string::StringExecFns;
use crate::table::{join, joined};

verus! {

/// The definition of the column named `name`: the name in double quotes,
/// then the type.
pub open spec fn column_text(name: Seq<char>) -> Seq<char> {
    "\""@ + name + "\" TEXT"@
}

/// The definitions of the columns named `headers`, in order.
pub open spec fn column_texts(headers: Seq<Seq<char>>) -> Seq<Seq<char>> {
    Seq::new(headers.len(), |i: int| column_text(headers[i]))
}

/// The statement that creates the table with the columns `headers`, unless
/// it exists.
pub open spec fn create_table_text(headers: Seq<Seq<char>>) -> Seq<char> {
    "CREATE TABLE IF NOT EXISTS data ("@ + joined(column_texts(headers), ", "@) + ")"@
}

/// `columns` placeholders, one for each value of a row.
pub open spec fn placeholders(columns: nat) -> Seq<Seq<char>> {
    Seq::new(columns, |i: int| "?"@)
}

/// The statement that inserts one row of `columns` values.
pub open spec fn insert_text(columns: nat) -> Seq<char> {
    "INSERT INTO data VALUES ("@ + joined(placeholders(columns), ", "@) + ")"@
}

/// Writes the statement that creates the table with the columns `headers`,
/// unless it exists.
pub fn create_table_sql(headers: &[String]) -> (r: String)
    ensures
        r@ == create_table_text(headers.deep_view()),
{
    let ghost names = headers.deep_view();
    let len: usize = headers.len();
    let mut columns: Vec<String> = Vec::new();
    let mut i: usize = 0;
    while i < len
        invariant
            i <= len == headers@.len(),
            names == headers.deep_view(),
            columns.deep_view() == column_texts(names).take(i as int),
        decreases len - i,
    {
        let mut column: String = String::from_str("\"");
        column.append(headers[i].as_str());
        column.append("\" TEXT");
        let ghost before = columns.deep_view();
        columns.push(column);
        proof {
            assert(column@ == column_text(names[i as int]));
            assert(columns.deep_view() =~= before.push(column@));
            assert(columns.deep_view() =~= column_texts(names).take(i + 1));
        }
        i = i + 1;
    }
    assert(column_texts(names).take(len as int) =~= column_texts(names));
    let list: String = join(columns.as_slice(), ", ");
    let mut out: String = String::from_str("CREATE TABLE IF NOT EXISTS data (");
    out.append(list.as_str());
    out.append(")");
    out
}

/// Writes the statement that inserts one row of `columns` values.
pub fn insert_sql(columns: usize) -> (r: String)
    ensures
        r@ == insert_text(columns as nat),
{
    let mut marks: Vec<String> = Vec::new();
    let mut i: usize = 0;
    while i < columns
        invariant
            i <= columns,
            marks.deep_view() == placeholders(i as nat),
        decreases columns - i,
    {
        let ghost before = marks.deep_view();
        let mark: String = String::from_str("?");
        marks.push(mark);
        proof {
            assert(marks.deep_view() =~= before.push(mark@));
            assert(marks.deep_view() =~= placeholders((i + 1) as nat));
        }
        i = i + 1;
    }
    let list: String = join(marks.as_slice(), ", ");
    let mut out: String = String::from_str("INSERT INTO data VALUES (");
    out.append(list.as_str());
    out.append(")");
    out
}

} // verus!

//! The SQL statements by which a segment keeps its sequence id in SQLite.
use sea_query::{Alias, Expr, OnConflict, Query, SqliteQueryBuilder};
use vstd::prelude::*;

verus! {

/// The values that a statement binds, as `sea_query` hands them on to the database driver.
#[verifier::external_type_specification]
#[verifier::external_body]
pub struct ExValues(sea_query::Values);

/// A value that a statement binds.
pub enum SqlArgument {
    Text(Seq<char>),
    Unsigned(u64),
}

/// What a list of bound values holds, in the order of the placeholders.
pub uninterp spec fn bound_arguments(values: sea_query::Values) -> Seq<SqlArgument>;

/// A statement and the values it binds.
pub struct SqlStatement {
    pub sql: String,
    pub values: sea_query::Values,
}

/// The name holds no quotation mark, so that quoting leaves it as it is.
pub open spec fn is_plain_name(name: Seq<char>) -> bool {
    forall|i: int| 0 <= i < name.len() ==> name[i] != '"'
}

/// A name in quotation marks.
pub open spec fn quoted(name: Seq<char>) -> Seq<char> {
    seq!['"'] + name + seq!['"']
}

/// The text that selects `column` of the row of `table` whose `key_column` is the bound value.
pub open spec fn select_text(column: Seq<char>, table: Seq<char>, key_column: Seq<char>) -> Seq<
    char,
> {
    "SELECT "@ + quoted(column) + " FROM "@ + quoted(table) + " WHERE "@ + quoted(key_column)
        + " = ?"@
}

/// The text after the verb of a statement that puts a row of two bound values into `table`.
pub open spec fn row_text(table: Seq<char>, key_column: Seq<char>, column: Seq<char>) -> Seq<char> {
    " INTO "@ + quoted(table) + " ("@ + quoted(key_column) + ", "@ + quoted(column)
        + ") VALUES (?, ?)"@
}

/// The text that leaves a row with the same key as it is.
pub open spec fn keep_text(key_column: Seq<char>) -> Seq<char> {
    " ON CONFLICT ("@ + quoted(key_column) + ") DO NOTHING"@
}

/// Renders `sea_query::Query::select` with one column, one table and one equality, for SQLite.
///
/// Taken on trust from `sea_query`: the text is `SELECT "c" FROM "t" WHERE "k" = ?` for plain
/// names, and the one bound value is the key.
#[verifier::external_body]
fn render_select(column: &str, table: &str, key_column: &str, key: &str) -> (r: (
    String,
    sea_query::Values,
))
    requires
        is_plain_name(column@),
        is_plain_name(table@),
        is_plain_name(key_column@),
    ensures
        r.0@ == select_text(column@, table@, key_column@),
        bound_arguments(r.1) == seq![SqlArgument::Text(key@)],
{
    Query::select()
        .column(Alias::new(column))
        .from(Alias::new(table))
        .and_where(Expr::col(Alias::new(key_column)).eq(key))
        .build(SqliteQueryBuilder)
}

/// Renders `sea_query::Query::insert` of one row with a conflict clause that does nothing, for
/// SQLite.
///
/// Taken on trust from `sea_query`: the text is `INSERT INTO "t" ("k", "c") VALUES (?, ?) ON
/// CONFLICT ("k") DO NOTHING` for plain names, and the bound values are the key and the number.
/// The row has as many values as columns, which is all that `values_panic` asks for.
#[verifier::external_body]
fn render_insert_if_absent(
    table: &str,
    key_column: &str,
    column: &str,
    key: &str,
    number: u64,
) -> (r: (String, sea_query::Values))
    requires
        is_plain_name(table@),
        is_plain_name(key_column@),
        is_plain_name(column@),
    ensures
        r.0@ == "INSERT"@ + row_text(table@, key_column@, column@) + keep_text(key_column@),
        bound_arguments(r.1) == seq![SqlArgument::Text(key@), SqlArgument::Unsigned(number)],
{
    Query::insert()
        .into_table(Alias::new(table))
        .columns([Alias::new(key_column), Alias::new(column)])
        .values_panic([key.into(), number.into()])
        .on_conflict(OnConflict::column(Alias::new(key_column)).do_nothing().to_owned())
        .build(SqliteQueryBuilder)
}

/// Renders `sea_query::Query::insert` of one row that replaces one with the same key, for SQLite.
///
/// Taken on trust from `sea_query`: the text is `REPLACE INTO "t" ("k", "c") VALUES (?, ?)` for
/// plain names, and the bound values are the key and the number. The row has as many values as
/// columns, which is all that `values_panic` asks for.
#[verifier::external_body]
fn render_replace(table: &str, key_column: &str, column: &str, key: &str, number: u64) -> (r: (
    String,
    sea_query::Values,
))
    requires
        is_plain_name(table@),
        is_plain_name(key_column@),
        is_plain_name(column@),
    ensures
        r.0@ == "REPLACE"@ + row_text(table@, key_column@, column@),
        bound_arguments(r.1) == seq![SqlArgument::Text(key@), SqlArgument::Unsigned(number)],
{
    Query::insert()
        .into_table(Alias::new(table))
        .replace()
        .columns([Alias::new(key_column), Alias::new(column)])
        .values_panic([key.into(), number.into()])
        .build(SqliteQueryBuilder)
}

/// The names of the table and of its columns need no escaping.
proof fn lemma_names_are_plain()
    ensures
        is_plain_name("max_seq_id"@),
        is_plain_name("segment_id"@),
        is_plain_name("seq_id"@),
{
    reveal_strlit("max_seq_id");
    reveal_strlit("segment_id");
    reveal_strlit("seq_id");
}

/// The statement that looks up the sequence id of a segment.
pub fn select_max_seq_id(segment_id: &str) -> (statement: SqlStatement)
    ensures
        statement.sql@ == select_text("seq_id"@, "max_seq_id"@, "segment_id"@),
        bound_arguments(statement.values) == seq![SqlArgument::Text(segment_id@)],
{
    proof {
        lemma_names_are_plain();
    }
    let (sql, values) = render_select("seq_id", "max_seq_id", "segment_id", segment_id);
    SqlStatement { sql, values }
}

/// The statement that records the sequence id of a segment, unless one is recorded.
pub fn insert_max_seq_id_if_absent(segment_id: &str, seq_id: u64) -> (statement: SqlStatement)
    ensures
        statement.sql@ == "INSERT"@ + row_text("max_seq_id"@, "segment_id"@, "seq_id"@) + keep_text(
            "segment_id"@,
        ),
        bound_arguments(statement.values) == seq![
            SqlArgument::Text(segment_id@),
            SqlArgument::Unsigned(seq_id),
        ],
{
    proof {
        lemma_names_are_plain();
    }
    let (sql, values) = render_insert_if_absent(
        "max_seq_id",
        "segment_id",
        "seq_id",
        segment_id,
        seq_id,
    );
    SqlStatement { sql, values }
}

/// The statement that records the sequence id of a segment in place of any that is recorded.
pub fn replace_max_seq_id(segment_id: &str, seq_id: u64) -> (statement: SqlStatement)
    ensures
        statement.sql@ == "REPLACE"@ + row_text("max_seq_id"@, "segment_id"@, "seq_id"@),
        bound_arguments(statement.values) == seq![
            SqlArgument::Text(segment_id@),
            SqlArgument::Unsigned(seq_id),
        ],
{
    proof {
        lemma_names_are_plain();
    }
    let (sql, values) = render_replace("max_seq_id", "segment_id", "seq_id", segment_id, seq_id);
    SqlStatement { sql, values }
}

} // verus!

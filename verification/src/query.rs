//! The statements that are sent to SQL Server.

use crate::config::Settings;
use crate::mapping::{self, Lookup, LookupError};
use crate::text;
use vstd::prelude::*;
use vstd::string::*;

verus! {

/// The condition that picks the table out of a view of the catalogue.
pub open spec fn of_table(prefix: Seq<char>, database: Seq<char>, table: Seq<char>) -> Seq<char> {
    "TABLE_SCHEMA ='"@ + prefix + "'"@ + " AND TABLE_CATALOG = '"@ + database
        + "' AND TABLE_NAME ='"@ + table + "'"@
}

/// The condition that picks the table out of a view of the catalogue.
fn make_of_table(settings: &Settings) -> (r: String)
    ensures
        r@ == of_table(settings.prefix@, settings.database@, settings.table@),
{
    let mut out = String::from_str("TABLE_SCHEMA ='");
    out.append(settings.prefix.as_str());
    out.append("'");
    out.append(" AND TABLE_CATALOG = '");
    out.append(settings.database.as_str());
    out.append("' AND TABLE_NAME ='");
    out.append(settings.table.as_str());
    out.append("'");
    out
}

/// The condition names the schema, the database and the table, each between quotes.
pub proof fn law_table_is_picked(prefix: Seq<char>, database: Seq<char>, table: Seq<char>)
    ensures
        of_table(prefix, database, table) == "TABLE_SCHEMA ='"@ + prefix
            + "' AND TABLE_CATALOG = '"@ + database + "' AND TABLE_NAME ='"@ + table + "'"@,
{
    reveal_strlit("'");
    reveal_strlit(" AND TABLE_CATALOG = '");
    reveal_strlit("' AND TABLE_CATALOG = '");
    let start = "TABLE_SCHEMA ='"@ + prefix;
    assert(start + "'"@ + " AND TABLE_CATALOG = '"@ =~= start + "' AND TABLE_CATALOG = '"@);
}

/// The query for the column of the primary key of the table.
pub fn primary_key_query(settings: &Settings) -> (r: String)
    ensures
        r@
            == "SELECT COLUMN_NAME FROM INFORMATION_SCHEMA.KEY_COLUMN_USAGE WHERE OBJECTPROPERTY(OBJECT_ID(CONSTRAINT_SCHEMA + '.' + QUOTENAME(CONSTRAINT_NAME)), 'IsPrimaryKey') = 1 AND "@
            + of_table(settings.prefix@, settings.database@, settings.table@),
        r@
            == "SELECT COLUMN_NAME FROM INFORMATION_SCHEMA.KEY_COLUMN_USAGE WHERE OBJECTPROPERTY(OBJECT_ID(CONSTRAINT_SCHEMA + '.' + QUOTENAME(CONSTRAINT_NAME)), 'IsPrimaryKey') = 1 AND "@
            + ("TABLE_SCHEMA ='"@ + settings.prefix@ + "' AND TABLE_CATALOG = '"@
            + settings.database@ + "' AND TABLE_NAME ='"@ + settings.table@ + "'"@),
{
    proof {
        law_table_is_picked(settings.prefix@, settings.database@, settings.table@);
    }
    let mut out = String::from_str(
        "SELECT COLUMN_NAME FROM INFORMATION_SCHEMA.KEY_COLUMN_USAGE WHERE OBJECTPROPERTY(OBJECT_ID(CONSTRAINT_SCHEMA + '.' + QUOTENAME(CONSTRAINT_NAME)), 'IsPrimaryKey') = 1 AND ",
    );
    out.append(make_of_table(settings).as_str());
    out
}

/// The column of the primary key, from what the query for it found.
pub fn get_primary_key(found: &Lookup) -> (r: Result<String, LookupError>)
    ensures
        match r {
            Ok(key) => found@ == Ok::<Seq<char>, mapping::Missing>(key@),
            Err(error) => found@ == Err::<Seq<char>, mapping::Missing>(error@),
        },
{
    mapping::required_text(found)
}

/// The query for the columns of the table and their types.
pub fn mapping_query(settings: &Settings) -> (r: String)
    ensures
        r@ == "SELECT DATA_TYPE , COLUMN_NAME FROM INFORMATION_SCHEMA.COLUMNS WHERE "@ + of_table(
            settings.prefix@,
            settings.database@,
            settings.table@,
        ),
        r@ == "SELECT DATA_TYPE , COLUMN_NAME FROM INFORMATION_SCHEMA.COLUMNS WHERE "@ + (
        "TABLE_SCHEMA ='"@ + settings.prefix@ + "' AND TABLE_CATALOG = '"@ + settings.database@
            + "' AND TABLE_NAME ='"@ + settings.table@ + "'"@),
{
    proof {
        law_table_is_picked(settings.prefix@, settings.database@, settings.table@);
    }
    let mut out = String::from_str(
        "SELECT DATA_TYPE , COLUMN_NAME FROM INFORMATION_SCHEMA.COLUMNS WHERE ",
    );
    out.append(make_of_table(settings).as_str());
    out
}

/// The rows of the table whose primary key is above `last_row`.
pub open spec fn rows_after(
    database: Seq<char>,
    prefix: Seq<char>,
    table: Seq<char>,
    primary_key: Seq<char>,
    last_row: int,
) -> Seq<char> {
    " from "@ + database + "."@ + prefix + "."@ + table + " where "@ + primary_key + " > "@
        + text::decimal(last_row)
}

/// The rows are those of the table, named in full, whose primary key is above the last row: the
/// condition is the primary key, a greater sign and the decimal notation of the last row, whatever
/// these are.
pub proof fn law_rows_are_above_last_row(
    database: Seq<char>,
    prefix: Seq<char>,
    table: Seq<char>,
    primary_key: Seq<char>,
    last_row: int,
)
    ensures
        rows_after(database, prefix, table, primary_key, last_row) == " from "@ + database + "."@
            + prefix + "."@ + table + (" where "@ + primary_key + " > "@ + text::decimal(last_row)),
{
    let source = " from "@ + database + "."@ + prefix + "."@ + table;
    assert(rows_after(database, prefix, table, primary_key, last_row) =~= source + (" where "@
        + primary_key + " > "@ + text::decimal(last_row)));
}

/// Two batches of one table are fetched alike but for the number after the greater sign, so what is
/// fetched after one row is never what is fetched after another.
pub proof fn law_rows_differ_in_last_row(
    database: Seq<char>,
    prefix: Seq<char>,
    table: Seq<char>,
    primary_key: Seq<char>,
    one: i32,
    other: i32,
)
    ensures
        ({
            let a = rows_after(database, prefix, table, primary_key, one as int);
            let b = rows_after(database, prefix, table, primary_key, other as int);
            let size = a.len() - text::decimal(one as int).len();
            &&& a.take(size) == b.take(size)
            &&& a.skip(size) == text::decimal(one as int)
            &&& b.skip(size) == text::decimal(other as int)
        }),
        rows_after(database, prefix, table, primary_key, one as int) == rows_after(
            database,
            prefix,
            table,
            primary_key,
            other as int,
        ) ==> one == other,
{
    let start = " from "@ + database + "."@ + prefix + "."@ + table + " where "@ + primary_key;
    let a = rows_after(database, prefix, table, primary_key, one as int);
    let b = rows_after(database, prefix, table, primary_key, other as int);
    assert(a =~= start + " > "@ + text::decimal(one as int));
    assert(b =~= start + " > "@ + text::decimal(other as int));
    let size = (start + " > "@).len() as int;
    assert(a.take(size) =~= start + " > "@);
    assert(b.take(size) =~= start + " > "@);
    assert(a.skip(size) =~= text::decimal(one as int));
    assert(b.skip(size) =~= text::decimal(other as int));
    if a == b {
        text::law_decimal_reads_back(one);
        text::law_decimal_reads_back(other);
    }
}

/// The rows of the table whose primary key is above `last_row`.
fn make_rows_after(settings: &Settings, primary_key: &str, last_row: i32) -> (r: String)
    ensures
        r@ == rows_after(
            settings.database@,
            settings.prefix@,
            settings.table@,
            primary_key@,
            last_row as int,
        ),
{
    let mut out = String::from_str(" from ");
    out.append(settings.database.as_str());
    out.append(".");
    out.append(settings.prefix.as_str());
    out.append(".");
    out.append(settings.table.as_str());
    out.append(" where ");
    out.append(primary_key);
    out.append(" > ");
    out.append(text::decimal_text(last_row).as_str());
    out
}

/// The query for the number of rows that are still to be imported.
pub fn total_rows_query(settings: &Settings, primary_key: &str, last_row: i32) -> (r: String)
    ensures
        r@ == "SELECT count(*) as  total"@ + rows_after(
            settings.database@,
            settings.prefix@,
            settings.table@,
            primary_key@,
            last_row as int,
        ),
        r@ == "SELECT count(*) as  total from "@ + settings.database@ + "."@ + settings.prefix@
            + "."@ + settings.table@ + " where "@ + primary_key@ + " > "@ + text::decimal(
            last_row as int,
        ),
{
    proof {
        reveal_strlit("SELECT count(*) as  total");
        reveal_strlit(" from ");
        reveal_strlit("SELECT count(*) as  total from ");
        assert("SELECT count(*) as  total"@ + " from "@ =~= "SELECT count(*) as  total from "@);
        law_rows_are_above_last_row(
            settings.database@,
            settings.prefix@,
            settings.table@,
            primary_key@,
            last_row as int,
        );
    }
    let mut out = String::from_str("SELECT count(*) as  total");
    out.append(make_rows_after(settings, primary_key, last_row).as_str());
    out
}

/// The query for the next batch: the first `limit` rows whose primary key is above `last_row`, in
/// the order of the key.
pub fn batch_query(
    settings: &Settings,
    limit: &str,
    select: &Vec<String>,
    primary_key: &str,
    last_row: i32,
) -> (r: String)
    ensures
        r@ == "SELECT TOP "@ + limit@ + " "@ + text::joined(text::texts(select@), ","@)
            + rows_after(
            settings.database@,
            settings.prefix@,
            settings.table@,
            primary_key@,
            last_row as int,
        ) + "  ORDER BY "@ + primary_key@ + " asc"@,
        r@ == "SELECT TOP "@ + limit@ + " "@ + text::joined(text::texts(select@), ","@) + " from "@
            + settings.database@ + "."@ + settings.prefix@ + "."@ + settings.table@ + " where "@
            + primary_key@ + " > "@ + text::decimal(last_row as int) + "  ORDER BY "@ + primary_key@
            + " asc"@,
{
    proof {
        law_rows_are_above_last_row(
            settings.database@,
            settings.prefix@,
            settings.table@,
            primary_key@,
            last_row as int,
        );
    }
    let mut out = String::from_str("SELECT TOP ");
    out.append(limit);
    out.append(" ");
    out.append(text::join(select, ",").as_str());
    out.append(make_rows_after(settings, primary_key, last_row).as_str());
    out.append("  ORDER BY ");
    out.append(primary_key);
    out.append(" asc");
    out
}

} // verus!

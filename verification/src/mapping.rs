//! The mapping of the ElasticSearch index, and the columns that are fetched for it.

use crate::json::{self, Json};
use crate::layout::{self, Layout};
use crate::text;
use serde_json::Value;
use vstd::prelude::*;
use vstd::string::*;

verus! {

/// What a text column of a row of the catalogue holds.
pub enum Lookup {
    /// A text.
    Text(String),
    /// Null.
    Null,
    /// The column could not be read as text, for this reason.
    Failed(String),
}

/// Why a text that must be there could not be had.
pub enum LookupError {
    /// The column holds null.
    UnexpectedNull,
    /// The column could not be read as text, for this reason.
    Failed(String),
}

/// A `LookupError` as mathematics sees it.
pub enum Missing {
    UnexpectedNull,
    Failed(Seq<char>),
}

impl View for LookupError {
    type V = Missing;

    open spec fn view(&self) -> Missing {
        match *self {
            LookupError::UnexpectedNull => Missing::UnexpectedNull,
            LookupError::Failed(reason) => Missing::Failed(reason@),
        }
    }
}

impl View for Lookup {
    type V = Result<Seq<char>, Missing>;

    open spec fn view(&self) -> Result<Seq<char>, Missing> {
        match *self {
            Lookup::Text(found) => Ok(found@),
            Lookup::Null => Err(Missing::UnexpectedNull),
            Lookup::Failed(reason) => Err(Missing::Failed(reason@)),
        }
    }
}

impl LookupError {
    /// What the error says to a reader.
    pub fn message(&self) -> (r: String)
        ensures
            r@ == (match self@ {
                Missing::UnexpectedNull => "Unexpected null"@,
                Missing::Failed(reason) => reason,
            }),
    {
        match self {
            LookupError::UnexpectedNull => String::from_str("Unexpected null"),
            LookupError::Failed(reason) => reason.clone(),
        }
    }
}

/// The text that must be there.
pub fn required_text(found: &Lookup) -> (r: Result<String, LookupError>)
    ensures
        match r {
            Ok(value) => found@ == Ok::<Seq<char>, Missing>(value@),
            Err(error) => found@ == Err::<Seq<char>, Missing>(error@),
        },
{
    match found {
        Lookup::Text(value) => Ok(value.clone()),
        Lookup::Null => Err(LookupError::UnexpectedNull),
        Lookup::Failed(reason) => Err(LookupError::Failed(reason.clone())),
    }
}

/// A column of the table, as the catalogue of the database describes it.
pub struct Column {
    pub name: Lookup,
    pub data_type: Lookup,
}

/// A `Column` as mathematics sees it.
pub struct ColumnModel {
    pub name: Result<Seq<char>, Missing>,
    pub data_type: Result<Seq<char>, Missing>,
}

impl View for Column {
    type V = ColumnModel;

    open spec fn view(&self) -> ColumnModel {
        ColumnModel { name: self.name@, data_type: self.data_type@ }
    }
}

/// What each column of a list is.
pub open spec fn models(columns: Seq<Column>) -> Seq<ColumnModel> {
    columns.map_values(|c: Column| c@)
}

/// The JSON object with one member.
pub open spec fn single(name: Seq<char>, member: Json) -> Json {
    Json::Object(Map::<Seq<char>, Json>::empty().insert(name, member))
}

/// The JSON object with one member.
pub(crate) fn make_single(name: &str, member: Value) -> (r: Value)
    ensures
        json::json_of(r) == single(name@, json::json_of(member)),
{
    let mut out = json::object();
    json::set_member(&mut out, name, member);
    out
}

/// The mapping of a field of that type.
pub open spec fn typed(kind: Seq<char>) -> Json {
    single("type"@, Json::Str(kind))
}

/// The mapping of a field of that type.
fn make_typed(kind: &str) -> (r: Value)
    ensures
        json::json_of(r) == typed(kind@),
{
    make_single("type", json::string(kind))
}

/// The mapping of a text field, which is also kept whole as a keyword.
pub open spec fn text_field() -> Json {
    Json::Object(
        Map::<Seq<char>, Json>::empty().insert("type"@, Json::Str("text"@)).insert(
            "fields"@,
            single("keyword"@, typed("keyword"@)),
        ).insert("analyzer"@, Json::Str("lowercase_analyzer"@)),
    )
}

/// The mapping of a text field, which is also kept whole as a keyword.
fn make_text_field() -> (r: Value)
    ensures
        json::json_of(r) == text_field(),
{
    let mut out = make_single("type", json::string("text"));
    json::set_member(&mut out, "fields", make_single("keyword", make_typed("keyword")));
    json::set_member(&mut out, "analyzer", json::string("lowercase_analyzer"));
    out
}

/// The mapping of a column of that SQL type, where the type is one that is imported.
pub open spec fn field_of(data_type: Seq<char>) -> Option<Json> {
    if data_type == "varchar"@ || data_type == "ntext"@ || data_type == "nvarchar"@ {
        Some(text_field())
    } else if data_type == "float"@ {
        Some(typed("double"@))
    } else if data_type == "bigint"@ {
        Some(typed("long"@))
    } else if data_type == "int"@ || data_type == "numeric"@ {
        Some(typed("integer"@))
    } else if data_type == "date"@ || data_type == "datetime2"@ {
        Some(typed("date"@))
    } else {
        None
    }
}

/// The mapping of a column of that SQL type, where the type is one that is imported.
pub fn field_mapping(data_type: &str) -> (r: Option<Value>)
    ensures
        match r {
            Some(value) => field_of(data_type@) == Some(json::json_of(value)),
            None => field_of(data_type@) is None,
        },
{
    if text::same_text(data_type, "varchar") || text::same_text(data_type, "ntext")
        || text::same_text(data_type, "nvarchar") {
        Some(make_text_field())
    } else if text::same_text(data_type, "float") {
        Some(make_typed("double"))
    } else if text::same_text(data_type, "bigint") {
        Some(make_typed("long"))
    } else if text::same_text(data_type, "int") || text::same_text(data_type, "numeric") {
        Some(make_typed("integer"))
    } else if text::same_text(data_type, "date") || text::same_text(data_type, "datetime2") {
        Some(make_typed("date"))
    } else {
        None
    }
}

/// The mappings of the combined fields, beside `known`.
pub open spec fn with_catchalls(
    known: Map<Seq<char>, Json>,
    catchalls: Seq<layout::CatchAllModel>,
) -> Map<Seq<char>, Json>
    decreases catchalls.len(),
{
    if catchalls.len() == 0 {
        known
    } else {
        with_catchalls(known, catchalls.drop_last()).insert(catchalls.last().name, text_field())
    }
}

/// The mappings of the fields that are added to the columns of the table.
pub open spec fn added_fields(added: layout::LayoutModel) -> Map<Seq<char>, Json> {
    let empty = Map::<Seq<char>, Json>::empty();
    with_catchalls(
        match added.geo {
            Some(geo) => empty.insert(geo.name, typed("geo_shape"@)),
            None => empty,
        },
        added.catchalls,
    )
}

/// The mappings of the fields that are added to the columns of the table.
fn make_added_fields(added: &Layout) -> (r: Value)
    ensures
        json::json_of(r) == Json::Object(added_fields(added@)),
{
    let mut out = json::object();
    if let Some(geo) = &added.geo {
        json::set_member(&mut out, geo.name.as_str(), make_typed("geo_shape"));
    }
    let ghost known = json::json_of(out)->Object_0;
    let ghost all = added@.catchalls;
    let mut i: usize = 0;
    while i < added.catchalls.len()
        invariant
            i <= added.catchalls@.len(),
            all == added@.catchalls,
            json::json_of(out) == Json::Object(with_catchalls(known, all.take(i as int))),
        decreases added.catchalls@.len() - i,
    {
        proof {
            assert(all.take(i + 1).drop_last() =~= all.take(i as int));
            assert(all.take(i + 1).last() == added.catchalls@[i as int]@);
        }
        json::set_member(&mut out, added.catchalls[i].name.as_str(), make_text_field());
        i += 1;
    }
    assert(all.take(i as int) =~= all);
    out
}

/// The name and the SQL type of a column, or the first of the two that could not be had.
pub open spec fn described(column: ColumnModel) -> Result<(Seq<char>, Seq<char>), Missing> {
    match column.name {
        Err(error) => Err(error),
        Ok(name) => match column.data_type {
            Err(error) => Err(error),
            Ok(data_type) => Ok((name, data_type)),
        },
    }
}

/// The mappings of the columns beside `known`, or the first thing that could not be had of them.
/// A later column takes the place of an earlier field of the same name.
pub open spec fn with_columns(
    known: Map<Seq<char>, Json>,
    columns: Seq<ColumnModel>,
) -> Result<Map<Seq<char>, Json>, Missing>
    decreases columns.len(),
{
    if columns.len() == 0 {
        Ok(known)
    } else {
        match with_columns(known, columns.drop_last()) {
            Err(error) => Err(error),
            Ok(earlier) => match described(columns.last()) {
                Err(error) => Err(error),
                Ok((name, data_type)) => match field_of(data_type) {
                    Some(field) => Ok(earlier.insert(name, field)),
                    None => Ok(earlier),
                },
            },
        }
    }
}

/// The SQL types, of all columns in turn, that are not imported.
pub open spec fn ignored_types(columns: Seq<ColumnModel>) -> Seq<Seq<char>>
    decreases columns.len(),
{
    if columns.len() == 0 {
        seq![]
    } else {
        let earlier = ignored_types(columns.drop_last());
        match described(columns.last()) {
            Ok((_, data_type)) => if field_of(data_type) is None {
                earlier.push(data_type)
            } else {
                earlier
            },
            Err(_) => earlier,
        }
    }
}

/// The settings of the index.
pub open spec fn index_settings() -> Json {
    let index = Json::Object(
        Map::<Seq<char>, Json>::empty().insert("refresh_interval"@, Json::Str("1s"@)).insert(
            "number_of_shards"@,
            Json::Int(28),
        ).insert("number_of_replicas"@, Json::Int(0)),
    );
    let analyzer = Json::Object(
        Map::<Seq<char>, Json>::empty().insert(
            "filter"@,
            Json::Array(seq![Json::Str("lowercase"@)]),
        ).insert("type"@, Json::Str("custom"@)).insert("tokenizer"@, Json::Str("keyword"@)),
    );
    Json::Object(
        Map::<Seq<char>, Json>::empty().insert("index"@, index).insert(
            "analysis"@,
            single("analyzer"@, single("lowercase_analyzer"@, analyzer)),
        ),
    )
}

/// The settings of the index.
fn make_index_settings() -> (r: Value)
    ensures
        json::json_of(r) == index_settings(),
{
    let mut index = make_single("refresh_interval", json::string("1s"));
    json::set_member(&mut index, "number_of_shards", json::integer(28));
    json::set_member(&mut index, "number_of_replicas", json::integer(0));
    let mut filters: Vec<Value> = Vec::new();
    filters.push(json::string("lowercase"));
    assert(json::jsons_of(filters@) =~= seq![Json::Str("lowercase"@)]);
    let mut analyzer = make_single("filter", json::array(filters));
    json::set_member(&mut analyzer, "type", json::string("custom"));
    json::set_member(&mut analyzer, "tokenizer", json::string("keyword"));
    let mut out = make_single("index", index);
    json::set_member(
        &mut out,
        "analysis",
        make_single("analyzer", make_single("lowercase_analyzer", analyzer)),
    );
    out
}

/// The document that creates an index with those fields.
pub open spec fn index_document(fields: Map<Seq<char>, Json>) -> Json {
    Json::Object(
        Map::<Seq<char>, Json>::empty().insert("settings"@, index_settings()).insert(
            "mappings"@,
            single("data"@, single("properties"@, Json::Object(fields))),
        ),
    )
}

/// The mapping of an index.
pub struct Mapping {
    /// The document that creates the index.
    pub document: Value,
    /// The SQL types of the columns that are left out.
    pub ignored: Vec<String>,
}

impl Mapping {
    /// The text of the document that creates the index.
    pub fn text(&self) -> (r: String)
        ensures
            r@ == json::json_text(json::json_of(self.document)),
    {
        json::text(&self.document)
    }
}

/// The fields that a document describes which creates an index.
pub open spec fn properties_of(document: Json) -> Json {
    json::member_of(
        json::member_of(json::member_of(document, "mappings"@), "data"@),
        "properties"@,
    )
}

/// Makes the mapping of the index for the columns of a table.
pub fn create_mapping(columns: &Vec<Column>, added: &Layout) -> (r: Result<Mapping, LookupError>)
    ensures
        match (r, with_columns(added_fields(added@), models(columns@))) {
            (Ok(mapping), Ok(fields)) => json::json_of(mapping.document) == index_document(fields)
                && text::texts(mapping.ignored@) == ignored_types(models(columns@)),
            (Err(error), Err(expected)) => error@ == expected,
            _ => false,
        },
        r is Ok <==> forall|i: int|
            0 <= i < columns@.len() ==> (#[trigger] columns@[i]).name is Text
                && columns@[i].data_type is Text,
        r matches Ok(mapping) ==> properties_of(json::json_of(mapping.document)) is Object,
        r matches Ok(mapping) ==> forall|name: Seq<char>| #[trigger]
            properties_of(json::json_of(mapping.document))->Object_0.contains_key(name)
                <==> added@.adds(name) || exists|i: int|
                0 <= i < columns@.len() && (#[trigger] columns@[i]).name->Text_0@ == name
                    && field_of(columns@[i].data_type->Text_0@) is Some,
        r matches Ok(mapping) ==> forall|i: int|
            0 <= i < columns@.len() && field_of((#[trigger] columns@[i]).data_type->Text_0@) is Some
                && (forall|j: int|
                i < j < columns@.len() ==> (#[trigger] columns@[j]).name->Text_0@
                    != columns@[i].name->Text_0@ || field_of(columns@[j].data_type->Text_0@) is None)
                ==> properties_of(json::json_of(mapping.document))->Object_0[columns@[i].name->Text_0@]
                == field_of(columns@[i].data_type->Text_0@)->0,
{
    proof {
        lemma_mapping_of_columns(columns@, added@);
    }
    let ghost all = models(columns@);
    let ghost known = added_fields(added@);
    let mut fields = make_added_fields(added);
    let mut ignored: Vec<String> = Vec::new();
    let mut i: usize = 0;
    assert(text::texts(ignored@) =~= seq![]);
    while i < columns.len()
        invariant
            i <= columns@.len(),
            all == models(columns@),
            json::json_of(fields) is Object,
            with_columns(known, all.take(i as int)) == Ok::<Map<Seq<char>, Json>, Missing>(
                json::json_of(fields)->Object_0,
            ),
            text::texts(ignored@) == ignored_types(all.take(i as int)),
            known == added_fields(added@),
        decreases columns@.len() - i,
    {
        proof {
            assert(all.take(i + 1).drop_last() =~= all.take(i as int));
            assert(all.take(i + 1).last() == columns@[i as int]@);
        }
        let name = match required_text(&columns[i].name) {
            Ok(name) => name,
            Err(error) => {
                proof {
                    lemma_error_stays(known, all, i + 1);
                }
                return Err(error);
            },
        };
        let data_type = match required_text(&columns[i].data_type) {
            Ok(data_type) => data_type,
            Err(error) => {
                proof {
                    lemma_error_stays(known, all, i + 1);
                }
                return Err(error);
            },
        };
        match field_mapping(data_type.as_str()) {
            Some(field) => {
                json::set_member(&mut fields, name.as_str(), field);
            },
            None => {
                let ghost so_far = text::texts(ignored@);
                ignored.push(data_type);
                assert(text::texts(ignored@) =~= so_far.push(data_type@));
            },
        }
        i += 1;
    }
    assert(all.take(i as int) =~= all);
    let mut document = make_single("settings", make_index_settings());
    json::set_member(
        &mut document,
        "mappings",
        make_single("data", make_single("properties", fields)),
    );
    Ok(Mapping { document, ignored })
}

/// An error in the first columns is the error of all of them.
proof fn lemma_error_stays(known: Map<Seq<char>, Json>, columns: Seq<ColumnModel>, k: int)
    requires
        0 <= k <= columns.len(),
        with_columns(known, columns.take(k)) is Err,
    ensures
        with_columns(known, columns) == with_columns(known, columns.take(k)),
    decreases columns.len(),
{
    if k == columns.len() {
        assert(columns.take(k) =~= columns);
    } else {
        assert(columns.drop_last().take(k) =~= columns.take(k));
        lemma_error_stays(known, columns.drop_last(), k);
    }
}

/// What mathematics sees of a column is what the catalogue says of it.
pub proof fn law_columns_are_seen(column: Column, error: LookupError)
    ensures
        column.name matches Lookup::Text(name) ==> column@.name == Ok::<Seq<char>, Missing>(name@),
        column.name is Null ==> column@.name == Err::<Seq<char>, Missing>(Missing::UnexpectedNull),
        column.name matches Lookup::Failed(reason) ==> column@.name == Err::<Seq<char>, Missing>(
            Missing::Failed(reason@),
        ),
        column.data_type matches Lookup::Text(kind) ==> column@.data_type == Ok::<
            Seq<char>,
            Missing,
        >(kind@),
        column.data_type is Null ==> column@.data_type == Err::<Seq<char>, Missing>(
            Missing::UnexpectedNull,
        ),
        column.data_type matches Lookup::Failed(reason) ==> column@.data_type == Err::<
            Seq<char>,
            Missing,
        >(Missing::Failed(reason@)),
        error is UnexpectedNull ==> error@ is UnexpectedNull,
        error matches LookupError::Failed(reason) ==> error@ == Missing::Failed(reason@),
{
}

/// The types that are imported, and the field that each becomes: a text of any kind becomes a text
/// that is also kept whole as a keyword, and the others become a number or a date.
pub proof fn law_imported_types(data_type: Seq<char>)
    ensures
        field_of(data_type) is Some <==> data_type == "varchar"@ || data_type == "ntext"@
            || data_type == "nvarchar"@ || data_type == "float"@ || data_type == "bigint"@
            || data_type == "int"@ || data_type == "numeric"@ || data_type == "date"@ || data_type
            == "datetime2"@,
        data_type == "float"@ ==> field_of(data_type)->0 == Json::Object(
            map!["type"@ => Json::Str("double"@)],
        ),
        data_type == "bigint"@ ==> field_of(data_type)->0 == Json::Object(
            map!["type"@ => Json::Str("long"@)],
        ),
        data_type == "int"@ || data_type == "numeric"@ ==> field_of(data_type)->0 == Json::Object(
            map!["type"@ => Json::Str("integer"@)],
        ),
        data_type == "date"@ || data_type == "datetime2"@ ==> field_of(data_type)->0
            == Json::Object(map!["type"@ => Json::Str("date"@)]),
        data_type == "varchar"@ || data_type == "ntext"@ || data_type == "nvarchar"@ ==> field_of(
            data_type,
        )->0 == Json::Object(
            map![
                "type"@ => Json::Str("text"@),
                "fields"@ => Json::Object(
                    map!["keyword"@ => Json::Object(map!["type"@ => Json::Str("keyword"@)])],
                ),
                "analyzer"@ => Json::Str("lowercase_analyzer"@),
            ],
        ),
{
    reveal_strlit("varchar");
    reveal_strlit("ntext");
    reveal_strlit("nvarchar");
    reveal_strlit("float");
    reveal_strlit("bigint");
    reveal_strlit("int");
    reveal_strlit("numeric");
    reveal_strlit("date");
    reveal_strlit("datetime2");
    assert("ntext"@.len() != "varchar"@.len());
    assert("nvarchar"@.len() != "varchar"@.len());
    assert("nvarchar"@.len() != "ntext"@.len());
    assert("float"@.len() != "varchar"@.len());
    assert("float"@[0] != "ntext"@[0]);
    assert("float"@.len() != "nvarchar"@.len());
    assert("bigint"@.len() != "varchar"@.len());
    assert("bigint"@.len() != "ntext"@.len());
    assert("bigint"@.len() != "nvarchar"@.len());
    assert("bigint"@.len() != "float"@.len());
    assert("int"@.len() != "varchar"@.len());
    assert("int"@.len() != "ntext"@.len());
    assert("int"@.len() != "nvarchar"@.len());
    assert("int"@.len() != "float"@.len());
    assert("int"@.len() != "bigint"@.len());
    assert("numeric"@[0] != "varchar"@[0]);
    assert("numeric"@.len() != "ntext"@.len());
    assert("numeric"@.len() != "nvarchar"@.len());
    assert("numeric"@.len() != "float"@.len());
    assert("numeric"@.len() != "bigint"@.len());
    assert("numeric"@.len() != "int"@.len());
    assert("date"@.len() != "varchar"@.len());
    assert("date"@.len() != "ntext"@.len());
    assert("date"@.len() != "nvarchar"@.len());
    assert("date"@.len() != "float"@.len());
    assert("date"@.len() != "bigint"@.len());
    assert("date"@.len() != "int"@.len());
    assert("date"@.len() != "numeric"@.len());
    assert("datetime2"@.len() != "varchar"@.len());
    assert("datetime2"@.len() != "ntext"@.len());
    assert("datetime2"@.len() != "nvarchar"@.len());
    assert("datetime2"@.len() != "float"@.len());
    assert("datetime2"@.len() != "bigint"@.len());
    assert("datetime2"@.len() != "int"@.len());
    assert("datetime2"@.len() != "numeric"@.len());
    assert("datetime2"@.len() != "date"@.len());
}

/// The fields that are added to the columns: a text field for each combined field, and a shape for
/// the point field where no combined field has its name.
pub proof fn law_added_fields(added: layout::LayoutModel, name: Seq<char>)
    ensures
        added_fields(added).contains_key(name) <==> (added.geo is Some && added.geo->0.name == name)
            || (exists|i: int|
            0 <= i < added.catchalls.len() && (#[trigger] added.catchalls[i]).name == name),
        (exists|i: int|
            0 <= i < added.catchalls.len() && (#[trigger] added.catchalls[i]).name == name)
            ==> Some(added_fields(added)[name]) == field_of("varchar"@),
        (forall|i: int|
            0 <= i < added.catchalls.len() ==> (#[trigger] added.catchalls[i]).name != name)
            && added.geo is Some && added.geo->0.name == name ==> added_fields(added)[name]
            == Json::Object(map!["type"@ => Json::Str("geo_shape"@)]),
{
    let empty = Map::<Seq<char>, Json>::empty();
    lemma_catchall_fields(
        match added.geo {
            Some(geo) => empty.insert(geo.name, typed("geo_shape"@)),
            None => empty,
        },
        added.catchalls,
        name,
    );
}

/// The combined fields are text fields beside those that are known.
proof fn lemma_catchall_fields(
    known: Map<Seq<char>, Json>,
    catchalls: Seq<layout::CatchAllModel>,
    name: Seq<char>,
)
    ensures
        (exists|i: int| 0 <= i < catchalls.len() && (#[trigger] catchalls[i]).name == name)
            ==> with_catchalls(known, catchalls).contains_key(name) && with_catchalls(
            known,
            catchalls,
        )[name] == text_field(),
        (forall|i: int| 0 <= i < catchalls.len() ==> (#[trigger] catchalls[i]).name != name) ==> {
            &&& with_catchalls(known, catchalls).contains_key(name) == known.contains_key(name)
            &&& with_catchalls(known, catchalls)[name] == known[name]
        },
    decreases catchalls.len(),
{
    if catchalls.len() > 0 {
        let shorter = catchalls.drop_last();
        lemma_catchall_fields(known, shorter, name);
        if exists|i: int| 0 <= i < catchalls.len() && (#[trigger] catchalls[i]).name == name {
            let i = choose|i: int|
                0 <= i < catchalls.len() && (#[trigger] catchalls[i]).name == name;
            if i < shorter.len() {
                assert(shorter[i].name == name);
            }
        } else {
            assert(catchalls[catchalls.len() - 1].name != name);
            assert forall|i: int| 0 <= i < shorter.len() implies (#[trigger] shorter[i]).name
                != name by {
                assert(catchalls[i].name != name);
            }
        }
    }
}

/// A name is that of a field of the index where a field of that name is added, or some column of that
/// name has a type that is imported, whatever the name is.
pub proof fn law_columns_become_fields(
    known: Map<Seq<char>, Json>,
    columns: Seq<ColumnModel>,
    name: Seq<char>,
)
    requires
        forall|i: int|
            0 <= i < columns.len() ==> (#[trigger] columns[i]).name is Ok && columns[i].data_type
                is Ok,
    ensures
        with_columns(known, columns) is Ok,
        with_columns(known, columns)->Ok_0.contains_key(name) <==> known.contains_key(name) || exists|
            i: int,
        |
            0 <= i < columns.len() && (#[trigger] columns[i]).name->Ok_0 == name && field_of(
                columns[i].data_type->Ok_0,
            ) is Some,
    decreases columns.len(),
{
    if columns.len() > 0 {
        let shorter = columns.drop_last();
        let last = columns[columns.len() - 1];
        assert forall|i: int| 0 <= i < shorter.len() implies (#[trigger] shorter[i]).name is Ok
            && shorter[i].data_type is Ok by {
            assert(shorter[i] == columns[i]);
        }
        law_columns_become_fields(known, shorter, name);
        assert(last.name is Ok && last.data_type is Ok);
        let earlier = exists|i: int|
            0 <= i < shorter.len() && (#[trigger] shorter[i]).name->Ok_0 == name && field_of(
                shorter[i].data_type->Ok_0,
            ) is Some;
        let all = exists|i: int|
            0 <= i < columns.len() && (#[trigger] columns[i]).name->Ok_0 == name && field_of(
                columns[i].data_type->Ok_0,
            ) is Some;
        if earlier {
            let i = choose|i: int|
                0 <= i < shorter.len() && (#[trigger] shorter[i]).name->Ok_0 == name && field_of(
                    shorter[i].data_type->Ok_0,
                ) is Some;
            assert(columns[i].name->Ok_0 == name);
            assert(all);
        }
        if all {
            let i = choose|i: int|
                0 <= i < columns.len() && (#[trigger] columns[i]).name->Ok_0 == name && field_of(
                    columns[i].data_type->Ok_0,
                ) is Some;
            if i < shorter.len() {
                assert(shorter[i].name->Ok_0 == name);
                assert(earlier);
            }
        }
        if last.name->Ok_0 == name && field_of(last.data_type->Ok_0) is Some {
            assert(columns[columns.len() - 1].name->Ok_0 == name);
            assert(all);
        }
    }
}

/// Under the name of a column stands the field of its type, where that type is imported and no later
/// column of the same name has an imported type. What is known under a name that no such column has
/// stays.
pub proof fn law_last_column_counts(known: Map<Seq<char>, Json>, columns: Seq<ColumnModel>, k: int)
    requires
        forall|i: int|
            0 <= i < columns.len() ==> (#[trigger] columns[i]).name is Ok && columns[i].data_type
                is Ok,
    ensures
        0 <= k < columns.len() && field_of(columns[k].data_type->Ok_0) is Some && (forall|j: int|
            k < j < columns.len() ==> (#[trigger] columns[j]).name->Ok_0 != columns[k].name->Ok_0
                || field_of(columns[j].data_type->Ok_0) is None) ==> with_columns(
            known,
            columns,
        )->Ok_0[columns[k].name->Ok_0] == field_of(columns[k].data_type->Ok_0)->0,
        forall|name: Seq<char>|
            (forall|j: int|
                0 <= j < columns.len() ==> (#[trigger] columns[j]).name->Ok_0 != name || field_of(
                    columns[j].data_type->Ok_0,
                ) is None) ==> #[trigger] with_columns(known, columns)->Ok_0[name] == known[name],
    decreases columns.len(),
{
    if columns.len() > 0 {
        let shorter = columns.drop_last();
        let last = columns[columns.len() - 1];
        assert forall|i: int| 0 <= i < shorter.len() implies (#[trigger] shorter[i]).name is Ok
            && shorter[i].data_type is Ok by {
            assert(shorter[i] == columns[i]);
        }
        law_columns_become_fields(known, shorter, seq![]);
        law_last_column_counts(known, shorter, k);
        assert(last.name is Ok && last.data_type is Ok);
        if 0 <= k < shorter.len() {
            assert(shorter[k] == columns[k]);
            if forall|j: int|
                k < j < columns.len() ==> (#[trigger] columns[j]).name->Ok_0
                    != columns[k].name->Ok_0 || field_of(columns[j].data_type->Ok_0) is None {
                assert(columns[columns.len() - 1].name->Ok_0 != columns[k].name->Ok_0 || field_of(
                    last.data_type->Ok_0,
                ) is None);
                assert forall|j: int| k < j < shorter.len() implies (#[trigger] shorter[j]).name->Ok_0
                    != shorter[k].name->Ok_0 || field_of(shorter[j].data_type->Ok_0) is None by {
                    assert(columns[j] == shorter[j]);
                }
            }
        }
        assert forall|name: Seq<char>|
            (forall|j: int|
                0 <= j < columns.len() ==> (#[trigger] columns[j]).name->Ok_0 != name || field_of(
                    columns[j].data_type->Ok_0,
                ) is None) implies #[trigger] with_columns(known, columns)->Ok_0[name]
            == known[name] by {
            assert(columns[columns.len() - 1].name->Ok_0 != name || field_of(last.data_type->Ok_0)
                is None);
            assert forall|j: int| 0 <= j < shorter.len() implies (#[trigger] shorter[j]).name->Ok_0
                != name || field_of(shorter[j].data_type->Ok_0) is None by {
                assert(columns[j] == shorter[j]);
            }
            assert(with_columns(known, shorter)->Ok_0[name] == known[name]);
        }
    }
}

/// A table has no mapping where the name or the type of a column cannot be had. What is wrong with
/// the first such column is reported, with its name before its type.
pub proof fn law_first_error_is_reported(
    known: Map<Seq<char>, Json>,
    columns: Seq<ColumnModel>,
    k: int,
)
    requires
        0 <= k < columns.len(),
        forall|i: int|
            0 <= i < k ==> (#[trigger] columns[i]).name is Ok && columns[i].data_type is Ok,
    ensures
        columns[k].name matches Err(error) ==> with_columns(known, columns) == Err::<
            Map<Seq<char>, Json>,
            Missing,
        >(error),
        columns[k].name is Ok ==> (columns[k].data_type matches Err(error) ==> with_columns(
            known,
            columns,
        ) == Err::<Map<Seq<char>, Json>, Missing>(error)),
{
    let some = columns.take(k + 1);
    let before = columns.take(k);
    assert forall|i: int| 0 <= i < before.len() implies (#[trigger] before[i]).name is Ok
        && before[i].data_type is Ok by {
        assert(before[i] == columns[i]);
    }
    law_columns_become_fields(known, before, seq![]);
    assert(some.drop_last() =~= before);
    assert(some.last() == columns[k]);
    if columns[k].name is Err || columns[k].data_type is Err {
        lemma_error_stays(known, columns, k + 1);
    }
}

/// The types that are left out are listed column by column: those of two lists of columns are those
/// of the one and then those of the other, and one column has its type listed where that type is not
/// imported.
pub proof fn law_ignored_types(
    some: Seq<ColumnModel>,
    more: Seq<ColumnModel>,
    name: Seq<char>,
    data_type: Seq<char>,
)
    ensures
        ignored_types(some + more) == ignored_types(some) + ignored_types(more),
        ignored_types(
            seq![ColumnModel { name: Ok(name), data_type: Ok(data_type) }],
        ) == if field_of(data_type) is None {
            seq![data_type]
        } else {
            seq![]
        },
    decreases more.len(),
{
    let one = seq![ColumnModel { name: Ok(name), data_type: Ok(data_type) }];
    assert(one.drop_last() =~= seq![]);
    assert(ignored_types(seq![]) =~= seq![]);
    assert(Seq::<Seq<char>>::empty().push(data_type) =~= seq![data_type]);
    if more.len() == 0 {
        assert(some + more =~= some);
        assert(ignored_types(some) + ignored_types(more) =~= ignored_types(some));
    } else {
        let shorter = more.drop_last();
        law_ignored_types(some, shorter, name, data_type);
        assert((some + more).drop_last() =~= some + shorter);
        assert((some + more).last() == more.last());
        assert(ignored_types(some + more) =~= ignored_types(some) + ignored_types(more));
    }
}

/// The document that creates an index describes the fields under its mappings, and sets up the index
/// and the analyzer of text fields.
pub proof fn law_index_document(fields: Map<Seq<char>, Json>)
    ensures
        json::member_of(
            json::member_of(json::member_of(index_document(fields), "mappings"@), "data"@),
            "properties"@,
        ) == Json::Object(fields),
        ({
            let settings = json::member_of(index_document(fields), "settings"@);
            let index = json::member_of(settings, "index"@);
            let analyzer = json::member_of(
                json::member_of(json::member_of(settings, "analysis"@), "analyzer"@),
                "lowercase_analyzer"@,
            );
            &&& json::member_of(index, "refresh_interval"@) == Json::Str("1s"@)
            &&& json::member_of(index, "number_of_shards"@) == Json::Int(28)
            &&& json::member_of(index, "number_of_replicas"@) == Json::Int(0)
            &&& json::member_of(analyzer, "filter"@) == Json::Array(seq![Json::Str("lowercase"@)])
            &&& json::member_of(analyzer, "type"@) == Json::Str("custom"@)
            &&& json::member_of(analyzer, "tokenizer"@) == Json::Str("keyword"@)
        }),
        index_document(fields) == Json::Object(
            map![
                "settings"@ => Json::Object(
                    map![
                        "index"@ => Json::Object(
                            map![
                                "refresh_interval"@ => Json::Str("1s"@),
                                "number_of_shards"@ => Json::Int(28),
                                "number_of_replicas"@ => Json::Int(0),
                            ],
                        ),
                        "analysis"@ => Json::Object(
                            map![
                                "analyzer"@ => Json::Object(
                                    map![
                                        "lowercase_analyzer"@ => Json::Object(
                                            map![
                                                "filter"@ => Json::Array(
                                                    seq![Json::Str("lowercase"@)],
                                                ),
                                                "type"@ => Json::Str("custom"@),
                                                "tokenizer"@ => Json::Str("keyword"@),
                                            ],
                                        ),
                                    ],
                                ),
                            ],
                        ),
                    ],
                ),
                "mappings"@ => Json::Object(
                    map![
                        "data"@ => Json::Object(map!["properties"@ => Json::Object(fields)]),
                    ],
                ),
            ],
        ),
{
    reveal_strlit("settings");
    reveal_strlit("mappings");
    reveal_strlit("index");
    reveal_strlit("analysis");
    reveal_strlit("refresh_interval");
    reveal_strlit("number_of_shards");
    reveal_strlit("number_of_replicas");
    reveal_strlit("filter");
    reveal_strlit("type");
    reveal_strlit("tokenizer");
    assert("settings"@[0] != "mappings"@[0]);
    assert("index"@[0] != "analysis"@[0]);
    assert("refresh_interval"@[0] != "number_of_shards"@[0]);
    assert("number_of_shards"@.len() != "number_of_replicas"@.len());
    assert("refresh_interval"@[0] != "number_of_replicas"@[0]);
    assert("filter"@[0] != "type"@[0]);
    assert("filter"@[0] != "tokenizer"@[0]);
    assert("type"@.len() != "tokenizer"@.len());
}

/// What the mapping of a table says of each of its columns, by the place of the column.
proof fn lemma_mapping_of_columns(columns: Seq<Column>, added: layout::LayoutModel)
    ensures
        ({
            let found = with_columns(added_fields(added), models(columns));
            &&& found is Ok <==> forall|i: int|
                0 <= i < columns.len() ==> (#[trigger] columns[i]).name is Text
                    && columns[i].data_type is Text
            &&& found matches Ok(fields) ==> properties_of(index_document(fields)) == Json::Object(
                fields,
            )
            &&& found matches Ok(fields) ==> forall|name: Seq<char>| #[trigger]
                fields.contains_key(name) <==> added.adds(name) || exists|i: int|
                    0 <= i < columns.len() && (#[trigger] columns[i]).name->Text_0@ == name
                        && field_of(columns[i].data_type->Text_0@) is Some
            &&& found matches Ok(fields) ==> forall|i: int|
                0 <= i < columns.len() && field_of((#[trigger] columns[i]).data_type->Text_0@)
                    is Some && (forall|j: int|
                    i < j < columns.len() ==> (#[trigger] columns[j]).name->Text_0@
                        != columns[i].name->Text_0@ || field_of(columns[j].data_type->Text_0@)
                        is None) ==> fields[columns[i].name->Text_0@] == field_of(
                    columns[i].data_type->Text_0@,
                )->0
        }),
{
    let all = models(columns);
    let known = added_fields(added);
    let found = with_columns(known, all);
    if forall|i: int|
        0 <= i < columns.len() ==> (#[trigger] columns[i]).name is Text && columns[i].data_type
            is Text {
        assert forall|i: int| 0 <= i < all.len() implies (#[trigger] all[i]).name is Ok
            && all[i].data_type is Ok by {
            assert(all[i] == columns[i]@);
            assert(columns[i].name is Text);
        }
        law_columns_become_fields(known, all, seq![]);
        let fields = found->Ok_0;
        law_index_document(fields);
        assert forall|name: Seq<char>| #[trigger] fields.contains_key(name) <==> added.adds(name)
            || exists|i: int|
            0 <= i < columns.len() && (#[trigger] columns[i]).name->Text_0@ == name && field_of(
                columns[i].data_type->Text_0@,
            ) is Some by {
            law_columns_become_fields(known, all, name);
            law_added_fields(added, name);
            if exists|i: int|
                0 <= i < columns.len() && (#[trigger] columns[i]).name->Text_0@ == name && field_of(
                    columns[i].data_type->Text_0@,
                ) is Some {
                let i = choose|i: int|
                    0 <= i < columns.len() && (#[trigger] columns[i]).name->Text_0@ == name
                        && field_of(columns[i].data_type->Text_0@) is Some;
                assert(columns[i].name is Text);
                assert(all[i].name->Ok_0 == name);
            }
            if exists|i: int|
                0 <= i < all.len() && (#[trigger] all[i]).name->Ok_0 == name && field_of(
                    all[i].data_type->Ok_0,
                ) is Some {
                let i = choose|i: int|
                    0 <= i < all.len() && (#[trigger] all[i]).name->Ok_0 == name && field_of(
                        all[i].data_type->Ok_0,
                    ) is Some;
                assert(columns[i].name is Text);
                assert(columns[i].name->Text_0@ == name);
            }
        }
        assert forall|i: int|
            0 <= i < columns.len() && field_of((#[trigger] columns[i]).data_type->Text_0@) is Some
                && (forall|j: int|
                i < j < columns.len() ==> (#[trigger] columns[j]).name->Text_0@
                    != columns[i].name->Text_0@ || field_of(columns[j].data_type->Text_0@)
                    is None) implies fields[columns[i].name->Text_0@] == field_of(
            columns[i].data_type->Text_0@,
        )->0 by {
            assert(columns[i].name is Text);
            assert(all[i] == columns[i]@);
            assert forall|j: int| i < j < all.len() implies (#[trigger] all[j]).name->Ok_0
                != all[i].name->Ok_0 || field_of(all[j].data_type->Ok_0) is None by {
                assert(columns[j].name is Text);
                assert(all[j] == columns[j]@);
            }
            law_last_column_counts(known, all, i);
        }
    } else {
        let bad = choose|i: int|
            0 <= i < columns.len() && !((#[trigger] columns[i]).name is Text
                && columns[i].data_type is Text);
        let k = lemma_first_bad_column(columns, 0, bad);
        assert forall|i: int| 0 <= i < k implies (#[trigger] all[i]).name is Ok
            && all[i].data_type is Ok by {
            assert(columns[i].name is Text);
        }
        assert(all[k] == columns[k]@);
        law_first_error_is_reported(known, all, k);
    }
}

/// Where some column lacks its name or its type, there is a first one.
proof fn lemma_first_bad_column(columns: Seq<Column>, from: int, bad: int) -> (k: int)
    requires
        0 <= from <= bad < columns.len(),
        !(columns[bad].name is Text && columns[bad].data_type is Text),
        forall|i: int|
            0 <= i < from ==> (#[trigger] columns[i]).name is Text && columns[i].data_type is Text,
    ensures
        from <= k <= bad,
        !(columns[k].name is Text && columns[k].data_type is Text),
        forall|i: int|
            0 <= i < k ==> (#[trigger] columns[i]).name is Text && columns[i].data_type is Text,
    decreases bad - from,
{
    if columns[from].name is Text && columns[from].data_type is Text {
        lemma_first_bad_column(columns, from + 1, bad)
    } else {
        from
    }
}

} // verus!

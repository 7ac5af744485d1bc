//! The documents that rows become, and the body of a bulk request.

use crate::dates;
use crate::json::{self, Json};
use crate::layout::{self, CatchAll, GeoField, Layout};
use crate::mapping;
use crate::selection::{self, Field};
use crate::text;
use serde_json::Value;
use vstd::prelude::*;
use vstd::string::*;

verus! {

/// A decimal number of SQL Server.
pub enum Decimal {
    Null,
    /// The notation of the number is not that of a floating point number.
    Unreadable,
    /// The JSON number nearest to it.
    Number(Value),
}

/// What a column of a row holds.
pub enum Cell {
    I32(Option<i32>),
    I64(Option<i64>),
    /// A floating point number, as a JSON value.
    Real(Option<Value>),
    Numeric(Decimal),
    Text(Option<String>),
    /// A value of a type that is not imported.
    Other,
}

/// The JSON value of a cell. A null number is zero, and a null text is empty.
pub open spec fn cell_json(cell: Cell) -> Json {
    match cell {
        Cell::I32(Some(n)) => Json::Int(n as int),
        Cell::I32(None) => Json::Int(0),
        Cell::I64(Some(n)) => Json::Int(n as int),
        Cell::I64(None) => Json::Int(0),
        Cell::Real(Some(value)) => json::json_of(value),
        Cell::Real(None) => Json::Real("0.0"@),
        Cell::Numeric(Decimal::Null) => Json::Int(0),
        Cell::Numeric(Decimal::Unreadable) => Json::Real("0.0"@),
        Cell::Numeric(Decimal::Number(value)) => json::json_of(value),
        Cell::Text(Some(found)) => Json::Str(found@),
        Cell::Text(None) => Json::Str(""@),
        Cell::Other => Json::Str(""@),
    }
}

/// The JSON value of a cell. A null number is zero, and a null text is empty.
pub fn cell_value(cell: &Cell) -> (r: Value)
    ensures
        json::json_of(r) == cell_json(*cell),
{
    match cell {
        Cell::I32(Some(n)) => json::integer(*n as i64),
        Cell::I32(None) => json::integer(0),
        Cell::I64(Some(n)) => json::integer(*n),
        Cell::I64(None) => json::integer(0),
        Cell::Real(Some(value)) => json::copy(value),
        Cell::Real(None) => json::real_zero(),
        Cell::Numeric(Decimal::Null) => json::integer(0),
        Cell::Numeric(Decimal::Unreadable) => json::real_zero(),
        Cell::Numeric(Decimal::Number(value)) => json::copy(value),
        Cell::Text(Some(found)) => json::string(found.as_str()),
        Cell::Text(None) => json::string(""),
        Cell::Other => json::string(""),
    }
}

/// The JSON values of a row.
pub open spec fn row_jsons(row: Seq<Cell>) -> Seq<Json> {
    row.map_values(|cell: Cell| cell_json(cell))
}

/// The JSON values of each row.
pub open spec fn rows_jsons(rows: Seq<Vec<Cell>>) -> Seq<Seq<Json>> {
    rows.map_values(|row: Vec<Cell>| row_jsons(row@))
}

/// A value goes into the field: any value, or into a date field one that is written as a date in
/// that style.
pub open spec fn keeps(field: selection::FieldModel, value: Json, style: int) -> bool {
    field.date ==> dates::is_date_text(text::without(json::json_text(value), '"'), style)
}

/// What is left of two texts without a character is left of one after the other.
proof fn lemma_without_joins(a: Seq<char>, b: Seq<char>, c: char)
    ensures
        text::without(a + b, c) == text::without(a, c) + text::without(b, c),
    decreases b.len(),
{
    if b.len() == 0 {
        assert(a + b =~= a);
        assert(text::without(a, c) + text::without(b, c) =~= text::without(a, c));
    } else {
        assert((a + b).drop_last() =~= a + b.drop_last());
        lemma_without_joins(a, b.drop_last(), c);
        let before = text::without(a, c);
        let rest = text::without(b.drop_last(), c);
        assert(before + rest.push(b.last()) =~= (before + rest).push(b.last()));
    }
}

/// Quotes around a text do not count without the quotes.
proof fn lemma_without_quotes(s: Seq<char>)
    ensures
        text::without(seq!['"'] + s + seq!['"'], '"') == text::without(s, '"'),
{
    let quote = seq!['"'];
    assert(text::without(quote, '"') =~= seq![]) by {
        assert(quote.drop_last() =~= seq![]);
        assert(text::without(quote.drop_last(), '"') =~= seq![]);
    }
    lemma_without_joins(quote + s, quote, '"');
    lemma_without_joins(quote, s, '"');
    assert(text::without(quote + s + quote, '"') =~= text::without(s, '"'));
}

/// Nothing is left out of a text without quotes.
proof fn lemma_no_quotes(s: Seq<char>)
    requires
        json::plain(s),
    ensures
        text::without(s, '"') == s,
    decreases s.len(),
{
    if s.len() > 0 {
        let shorter = s.drop_last();
        assert forall|i: int| 0 <= i < shorter.len() implies json::unescaped(
            #[trigger] shorter[i],
        ) by {
            assert(shorter[i] == s[i]);
        }
        lemma_no_quotes(shorter);
        assert(json::unescaped(s[s.len() - 1]));
        assert(shorter.push(s.last()) =~= s);
    }
}

/// Whether a text goes into a date field is settled by what JSON writes for it, without quotes, as
/// far as that is settled for the formats of the style.
pub open spec fn settled(field: selection::FieldModel, value: Json, style: int) -> bool {
    field.date ==> match value {
        Json::Str(s) => {
            &&& text::without(json::json_text(value), '"') == text::without(json::escaped(s), '"')
            &&& dates::all_follow(text::without(json::escaped(s), '"'), style)
        },
        _ => true,
    }
}

/// Whether a value goes into the field: any value, or into a date field one that is written as a
/// date in that style.
pub fn is_kept(field: &Field, value: &Value, style: u16) -> (r: bool)
    ensures
        r == keeps(field@, json::json_of(*value), style as int),
        settled(field@, json::json_of(*value), style as int),
{
    if !field.date {
        return true;
    }
    let written = json::text(value);
    let bare = text::strip_quotes(written.as_str());
    proof {
        if let Json::Str(s) = json::json_of(*value) {
            lemma_without_quotes(json::escaped(s));
        }
    }
    dates::is_date(bare.as_str(), style)
}

/// The fields that the cells of a row fill. Of two fields of one name the later one stays.
pub open spec fn filled(
    cells: Seq<Json>,
    fields: Seq<selection::FieldModel>,
    style: int,
) -> Map<Seq<char>, Json>
    decreases cells.len(),
{
    if cells.len() == 0 {
        Map::empty()
    } else {
        let earlier = filled(cells.drop_last(), fields, style);
        let field = fields[cells.len() - 1];
        if keeps(field, cells.last(), style) {
            earlier.insert(field.name, cells.last())
        } else {
            earlier
        }
    }
}

/// What goes into the date fields is settled for every cell of a row.
pub open spec fn row_is_settled(
    cells: Seq<Json>,
    fields: Seq<selection::FieldModel>,
    style: int,
) -> bool {
    forall|k: int| 0 <= k < cells.len() ==> settled(#[trigger] fields[k], cells[k], style)
}

/// The fields that the cells of a row fill.
fn fill(row: &Vec<Cell>, fields: &Vec<Field>, style: u16) -> (r: Value)
    requires
        row@.len() <= fields@.len(),
    ensures
        json::json_of(r) == Json::Object(filled(row_jsons(row@), selection::models(fields@), style as int)),
        row_is_settled(row_jsons(row@), selection::models(fields@), style as int),
{
    let ghost cells = row_jsons(row@);
    let ghost known = selection::models(fields@);
    let mut out = json::object();
    let mut i: usize = 0;
    while i < row.len()
        invariant
            i <= row@.len() <= fields@.len(),
            cells == row_jsons(row@),
            known == selection::models(fields@),
            json::json_of(out) == Json::Object(filled(cells.take(i as int), known, style as int)),
            forall|k: int| 0 <= k < i ==> settled(#[trigger] known[k], cells[k], style as int),
        decreases row@.len() - i,
    {
        proof {
            assert(cells.take(i + 1).drop_last() =~= cells.take(i as int));
            assert(cells.take(i + 1).last() == cell_json(row@[i as int]));
            assert(known[i as int] == fields@[i as int]@);
        }
        let value = cell_value(&row[i]);
        if is_kept(&fields[i], &value, style) {
            json::set_member(&mut out, fields[i].name.as_str(), value);
        }
        i += 1;
    }
    assert(cells.take(i as int) =~= cells);
    out
}

/// The point at those coordinates.
pub open spec fn point(longitude: Json, latitude: Json) -> Json {
    Json::Object(
        Map::<Seq<char>, Json>::empty().insert("type"@, Json::Str("point"@)).insert(
            "coordinates"@,
            Json::Array(seq![longitude, latitude]),
        ),
    )
}

/// The fields with the point field beside them, where there is one.
pub open spec fn with_geo(
    fields: Map<Seq<char>, Json>,
    geo: Option<layout::GeoModel>,
) -> Map<Seq<char>, Json> {
    match geo {
        Some(geo) => fields.insert(
            geo.name,
            point(
                json::member_of(Json::Object(fields), geo.longitude),
                json::member_of(Json::Object(fields), geo.latitude),
            ),
        ),
        None => fields,
    }
}

/// Adds the point field.
fn add_geo(out: &mut Value, geo: &GeoField)
    requires
        json::json_of(*old(out)) is Object,
    ensures
        json::json_of(*final(out)) == Json::Object(
            with_geo(json::json_of(*old(out))->Object_0, Some(geo@)),
        ),
{
    let mut coordinates: Vec<Value> = Vec::new();
    coordinates.push(json::copy(json::member(out, geo.longitude.as_str())));
    coordinates.push(json::copy(json::member(out, geo.latitude.as_str())));
    assert(json::jsons_of(coordinates@) =~= seq![
        json::member_of(json::json_of(*out), geo.longitude@),
        json::member_of(json::json_of(*out), geo.latitude@),
    ]);
    let mut value = mapping::make_single("type", json::string("point"));
    json::set_member(&mut value, "coordinates", json::array(coordinates));
    json::set_member(out, geo.name.as_str(), value);
}

/// The JSON texts of the members, null for one that is not there.
pub open spec fn member_texts(
    fields: Map<Seq<char>, Json>,
    members: Seq<Seq<char>>,
) -> Seq<Seq<char>> {
    members.map_values(
        |name: Seq<char>| json::json_text(json::member_of(Json::Object(fields), name)),
    )
}

/// The text of a combined field: the JSON texts of its members, with its separator between them.
pub open spec fn combined_text(
    fields: Map<Seq<char>, Json>,
    catchall: layout::CatchAllModel,
) -> Seq<char> {
    text::joined(member_texts(fields, catchall.members), catchall.separator)
}

/// The fields with the combined fields beside them. A combined field may have an earlier one as a
/// member.
pub open spec fn with_combined(
    fields: Map<Seq<char>, Json>,
    catchalls: Seq<layout::CatchAllModel>,
) -> Map<Seq<char>, Json>
    decreases catchalls.len(),
{
    if catchalls.len() == 0 {
        fields
    } else {
        let earlier = with_combined(fields, catchalls.drop_last());
        let catchall = catchalls.last();
        earlier.insert(catchall.name, Json::Str(combined_text(earlier, catchall)))
    }
}

/// The texts of the members are the obvious ones where those are null, numbers or strings.
pub open spec fn members_follow(fields: Map<Seq<char>, Json>, members: Seq<Seq<char>>) -> bool {
    forall|i: int|
        0 <= i < members.len() ==> json::text_follows(
            json::member_of(Json::Object(fields), #[trigger] members[i]),
        )
}

/// The texts of the members of every combined field are the obvious ones where those are null,
/// numbers or strings.
pub open spec fn combined_follow(
    fields: Map<Seq<char>, Json>,
    catchalls: Seq<layout::CatchAllModel>,
) -> bool {
    forall|i: int|
        0 <= i < catchalls.len() ==> members_follow(
            with_combined(fields, catchalls.take(i)),
            (#[trigger] catchalls[i]).members,
        )
}

/// Adds a combined field.
fn add_combined(out: &mut Value, catchall: &CatchAll)
    requires
        json::json_of(*old(out)) is Object,
    ensures
        json::json_of(*final(out)) == Json::Object(
            json::json_of(*old(out))->Object_0.insert(
                catchall@.name,
                Json::Str(combined_text(json::json_of(*old(out))->Object_0, catchall@)),
            ),
        ),
        members_follow(json::json_of(*old(out))->Object_0, catchall@.members),
{
    let ghost fields = json::json_of(*out)->Object_0;
    let ghost names = catchall@.members;
    let ghost expected = member_texts(fields, names);
    let mut parts: Vec<String> = Vec::new();
    let mut i: usize = 0;
    while i < catchall.members.len()
        invariant
            i <= catchall.members@.len(),
            names == catchall@.members,
            json::json_of(*out) == Json::Object(fields),
            expected == member_texts(fields, names),
            text::texts(parts@) == expected.take(i as int),
            forall|j: int|
                0 <= j < i ==> json::text_follows(
                    json::member_of(Json::Object(fields), #[trigger] names[j]),
                ),
        decreases catchall.members@.len() - i,
    {
        let ghost so_far = text::texts(parts@);
        parts.push(json::text(json::member(out, catchall.members[i].as_str())));
        proof {
            assert(text::texts(parts@) =~= so_far.push(parts@.last()@));
            assert(names[i as int] == catchall.members@[i as int]@);
            assert(expected.take(i + 1) =~= expected.take(i as int).push(expected[i as int]));
        }
        i += 1;
    }
    assert(expected.take(i as int) =~= expected);
    let joined = text::join(&parts, catchall.separator.as_str());
    json::set_member(out, catchall.name.as_str(), json::string(joined.as_str()));
}

/// Adds the combined fields.
fn add_all_combined(out: &mut Value, catchalls: &Vec<CatchAll>)
    requires
        json::json_of(*old(out)) is Object,
    ensures
        json::json_of(*final(out)) == Json::Object(
            with_combined(json::json_of(*old(out))->Object_0, layout::models(catchalls@)),
        ),
        combined_follow(json::json_of(*old(out))->Object_0, layout::models(catchalls@)),
{
    let ghost known = json::json_of(*out)->Object_0;
    let ghost all = layout::models(catchalls@);
    assert(all.take(0) =~= seq![]);
    let mut i: usize = 0;
    while i < catchalls.len()
        invariant
            i <= catchalls@.len(),
            all == layout::models(catchalls@),
            json::json_of(*out) == Json::Object(with_combined(known, all.take(i as int))),
            combined_follow(known, all.take(i as int)),
        decreases catchalls@.len() - i,
    {
        let ghost some = all.take(i as int);
        let ghost more = all.take(i + 1);
        add_combined(out, &catchalls[i]);
        proof {
            assert(more.drop_last() =~= some);
            assert(more.last() == catchalls@[i as int]@);
            lemma_more_follow(known, more);
        }
        i += 1;
    }
    assert(all.take(i as int) =~= all);
}

/// Combined fields follow where the last one does after the others.
proof fn lemma_more_follow(fields: Map<Seq<char>, Json>, catchalls: Seq<layout::CatchAllModel>)
    requires
        catchalls.len() > 0,
        combined_follow(fields, catchalls.drop_last()),
        members_follow(
            with_combined(fields, catchalls.drop_last()),
            catchalls.last().members,
        ),
    ensures
        combined_follow(fields, catchalls),
{
    let some = catchalls.drop_last();
    assert forall|i: int| 0 <= i < catchalls.len() implies members_follow(
        with_combined(fields, catchalls.take(i)),
        (#[trigger] catchalls[i]).members,
    ) by {
        if i < some.len() {
            assert(some[i] == catchalls[i]);
            assert(some.take(i) =~= catchalls.take(i));
        } else {
            assert(catchalls.take(i) =~= some);
        }
    }
}

/// The document that a row becomes.
pub open spec fn document(
    cells: Seq<Json>,
    fields: Seq<selection::FieldModel>,
    added: layout::LayoutModel,
    style: int,
) -> Json {
    Json::Object(with_combined(with_geo(filled(cells, fields, style), added.geo), added.catchalls))
}

/// What the document of a row shows is settled for dates, and obvious in its combined fields for
/// null, numbers and strings.
pub open spec fn plainly_shown(
    cells: Seq<Json>,
    fields: Seq<selection::FieldModel>,
    added: layout::LayoutModel,
    style: int,
) -> bool {
    row_is_settled(cells, fields, style) && combined_follow(
        with_geo(filled(cells, fields, style), added.geo),
        added.catchalls,
    )
}

/// The document that a row becomes.
pub fn make_document(
    row: &Vec<Cell>,
    fields: &Vec<Field>,
    added: &Layout,
    style: u16,
) -> (r: Value)
    requires
        row@.len() <= fields@.len(),
    ensures
        json::json_of(r) == document(row_jsons(row@), selection::models(fields@), added@, style as int),
        plainly_shown(row_jsons(row@), selection::models(fields@), added@, style as int),
        ({
            let shown = json::member_of(json::json_of(r), added.geo->0.name@);
            added.geo is Some && (forall|i: int|
                0 <= i < added.catchalls@.len() ==> (#[trigger] added.catchalls@[i]).name@
                    != added.geo->0.name@) && selection::distinct(selection::models(fields@)) ==> {
                &&& json::member_of(shown, "type"@) == Json::Str("point"@)
                &&& json::member_of(shown, "coordinates"@) is Array
                &&& json::member_of(shown, "coordinates"@)->Array_0.len() == 2
                &&& forall|k: int|
                    0 <= k < row@.len() && !(#[trigger] fields@[k]).date && fields@[k].name@
                        == added.geo->0.longitude@ ==> json::member_of(
                        shown,
                        "coordinates"@,
                    )->Array_0[0] == cell_json(row@[k])
                &&& forall|k: int|
                    0 <= k < row@.len() && !(#[trigger] fields@[k]).date && fields@[k].name@
                        == added.geo->0.latitude@ ==> json::member_of(
                        shown,
                        "coordinates"@,
                    )->Array_0[1] == cell_json(row@[k])
            }
        }),
{
    proof {
        lemma_point_of_row(row@, fields@, *added, style as int);
    }
    let mut out = fill(row, fields, style);
    if let Some(geo) = &added.geo {
        add_geo(&mut out, geo);
    }
    add_all_combined(&mut out, &added.catchalls);
    out
}

/// The value that tells ElasticSearch to put the next document into an index.
pub open spec fn action(index: Seq<char>) -> Json {
    mapping::single(
        "index"@,
        Json::Object(
            Map::<Seq<char>, Json>::empty().insert("_index"@, Json::Str(index)).insert(
                "_type"@,
                Json::Str("data"@),
            ),
        ),
    )
}

/// The value that tells ElasticSearch to put the next document into an index.
fn make_action(index: &str) -> (r: Value)
    ensures
        json::json_of(r) == action(index@),
{
    let mut inner = mapping::make_single("_index", json::string(index));
    json::set_member(&mut inner, "_type", json::string("data"));
    mapping::make_single("index", inner)
}

/// The lines of a bulk request: for each row an action, and after it the document.
pub open spec fn bulk_lines(
    rows: Seq<Seq<Json>>,
    fields: Seq<selection::FieldModel>,
    added: layout::LayoutModel,
    style: int,
    index: Seq<char>,
) -> Seq<Seq<char>>
    decreases rows.len(),
{
    if rows.len() == 0 {
        seq![]
    } else {
        bulk_lines(rows.drop_last(), fields, added, style, index).push(
            json::json_text(action(index)) + "\n"@,
        ).push(json::json_text(document(rows.last(), fields, added, style)) + "\n"@)
    }
}

/// A single line with the line break that ends it.
pub open spec fn is_line(line: Seq<char>) -> bool {
    line.len() > 0 && line.last() == '\n' && !line.drop_last().contains('\n')
}

/// The JSON text of a value as a line.
fn make_line(value: &Value) -> (r: String)
    ensures
        r@ == json::json_text(json::json_of(*value)) + "\n"@,
        is_line(r@),
{
    let line = json::text(value);
    let ghost content = line@;
    let out = line.concat("\n");
    proof {
        reveal_strlit("\n");
        assert(out@.drop_last() =~= content);
    }
    out
}

/// The lines of a bulk request: for each row an action, and after it the document. No line has a
/// line break but the one at its end.
pub fn process_rows(
    rows: &[Vec<Cell>],
    fields: &Vec<Field>,
    added: &Layout,
    style: u16,
    index: &str,
) -> (r: Vec<String>)
    requires
        forall|i: int| 0 <= i < rows@.len() ==> (#[trigger] rows@[i])@.len() <= fields@.len(),
    ensures
        text::texts(r@) == bulk_lines(
            rows_jsons(rows@),
            selection::models(fields@),
            added@,
            style as int,
            index@,
        ),
        r@.len() == 2 * rows@.len(),
        forall|i: int| 0 <= i < r@.len() ==> is_line((#[trigger] r@[i])@),
        forall|i: int|
            0 <= i < rows@.len() ==> plainly_shown(
                #[trigger] rows_jsons(rows@)[i],
                selection::models(fields@),
                added@,
                style as int,
            ),
{
    let ghost all = rows_jsons(rows@);
    let ghost known = selection::models(fields@);
    let mut out: Vec<String> = Vec::new();
    let mut i: usize = 0;
    assert(text::texts(out@) =~= seq![]);
    while i < rows.len()
        invariant
            i <= rows@.len(),
            all == rows_jsons(rows@),
            known == selection::models(fields@),
            forall|j: int| 0 <= j < rows@.len() ==> (#[trigger] rows@[j])@.len() <= fields@.len(),
            text::texts(out@) == bulk_lines(all.take(i as int), known, added@, style as int, index@),
            out@.len() == 2 * i,
            forall|j: int| 0 <= j < out@.len() ==> is_line((#[trigger] out@[j])@),
            forall|j: int| 0 <= j < i ==> plainly_shown(#[trigger] all[j], known, added@, style as int),
        decreases rows@.len() - i,
    {
        let ghost so_far = text::texts(out@);
        proof {
            assert(all.take(i + 1).drop_last() =~= all.take(i as int));
            assert(all.take(i + 1).last() == row_jsons(rows@[i as int]@));
            assert(all[i as int] == row_jsons(rows@[i as int]@));
        }
        let head = make_line(&make_action(index));
        let body = make_line(&make_document(&rows[i], fields, added, style));
        let ghost head_text = head@;
        let ghost body_text = body@;
        out.push(head);
        out.push(body);
        assert(text::texts(out@) =~= so_far.push(head_text).push(body_text));
        i += 1;
    }
    assert(all.take(i as int) =~= all);
    out
}

/// The body of a bulk request of those lines: one after the other, and a last empty line.
pub fn close_body(lines: &Vec<String>) -> (r: String)
    ensures
        r@ == text::joined(text::texts(lines@), ""@) + "\n"@,
{
    text::join(lines, "").concat("\n")
}

/// The body of a bulk request for those rows: its lines, and a last empty line.
pub fn build_elastic_body(
    rows: &[Vec<Cell>],
    fields: &Vec<Field>,
    added: &Layout,
    style: u16,
    index: &str,
) -> (r: String)
    requires
        forall|i: int| 0 <= i < rows@.len() ==> (#[trigger] rows@[i])@.len() <= fields@.len(),
    ensures
        r@ == text::joined(
            bulk_lines(rows_jsons(rows@), selection::models(fields@), added@, style as int, index@),
            ""@,
        ) + "\n"@,
        forall|i: int|
            0 <= i < 2 * rows@.len() ==> is_line(
                #[trigger] bulk_lines(
                    rows_jsons(rows@),
                    selection::models(fields@),
                    added@,
                    style as int,
                    index@,
                )[i],
            ),
        forall|i: int|
            0 <= i < rows@.len() ==> plainly_shown(
                #[trigger] rows_jsons(rows@)[i],
                selection::models(fields@),
                added@,
                style as int,
            ),
{
    let lines = process_rows(rows, fields, added, style, index);
    proof {
        assert forall|i: int| 0 <= i < 2 * rows@.len() implies is_line(
            #[trigger] bulk_lines(
                rows_jsons(rows@),
                selection::models(fields@),
                added@,
                style as int,
                index@,
            )[i],
        ) by {
            assert(text::texts(lines@)[i] == lines@[i]@);
        }
    }
    close_body(&lines)
}

/// Rows can be worked on in parts: the lines for two lots of rows, one lot after the other, are
/// the lines for all of them.
pub proof fn law_rows_go_in_parts(
    some: Seq<Seq<Json>>,
    more: Seq<Seq<Json>>,
    fields: Seq<selection::FieldModel>,
    added: layout::LayoutModel,
    style: int,
    index: Seq<char>,
)
    ensures
        bulk_lines(some + more, fields, added, style, index) == bulk_lines(some, fields, added, style, index)
            + bulk_lines(more, fields, added, style, index),
    decreases more.len(),
{
    let first = bulk_lines(some, fields, added, style, index);
    if more.len() == 0 {
        assert(some + more =~= some);
        assert(first + bulk_lines(more, fields, added, style, index) =~= first);
    } else {
        let shorter = more.drop_last();
        law_rows_go_in_parts(some, shorter, fields, added, style, index);
        assert((some + more).drop_last() =~= some + shorter);
        assert((some + more).last() == more.last());
        let head = json::json_text(action(index)) + "\n"@;
        let body = json::json_text(document(more.last(), fields, added, style)) + "\n"@;
        let rest = bulk_lines(shorter, fields, added, style, index);
        assert((first + rest).push(head).push(body) =~= first + rest.push(head).push(body));
    }
}

/// The fields that a row fills have names of the list.
proof fn lemma_filled_names(
    cells: Seq<Json>,
    fields: Seq<selection::FieldModel>,
    style: int,
    name: Seq<char>,
)
    requires
        cells.len() <= fields.len(),
        filled(cells, fields, style).contains_key(name),
    ensures
        exists|i: int| 0 <= i < cells.len() && (#[trigger] fields[i]).name == name,
    decreases cells.len(),
{
    if cells.len() > 0 {
        let field = fields[cells.len() - 1];
        if field.name != name {
            lemma_filled_names(cells.drop_last(), fields, style, name);
        }
    }
}

/// Each cell of a row fills its own field, where the fields have different names: with its value,
/// or not at all where the field is for dates and the value is none.
proof fn lemma_row_fills_fields(
    cells: Seq<Json>,
    fields: Seq<selection::FieldModel>,
    style: int,
    k: int,
)
    requires
        0 <= k < cells.len() <= fields.len(),
        selection::distinct(fields),
    ensures
        filled(cells, fields, style).contains_key(fields[k].name) == keeps(fields[k], cells[k], style),
        keeps(fields[k], cells[k], style) ==> filled(cells, fields, style)[fields[k].name] == cells[k],
    decreases cells.len(),
{
    let shorter = cells.drop_last();
    if k < cells.len() - 1 {
        lemma_row_fills_fields(shorter, fields, style, k);
        assert(fields[k].name != fields[cells.len() - 1].name);
    } else if filled(shorter, fields, style).contains_key(fields[k].name) {
        lemma_filled_names(shorter, fields, style, fields[k].name);
        let i = choose|i: int|
            0 <= i < shorter.len() && (#[trigger] fields[i]).name == fields[k].name;
        assert(fields[i].name != fields[k].name);
    }
}

/// The combined fields leave fields of other names as they are.
proof fn lemma_combined_leaves_others(
    fields: Map<Seq<char>, Json>,
    catchalls: Seq<layout::CatchAllModel>,
    name: Seq<char>,
)
    requires
        forall|i: int| 0 <= i < catchalls.len() ==> (#[trigger] catchalls[i]).name != name,
    ensures
        with_combined(fields, catchalls).contains_key(name) == fields.contains_key(name),
        with_combined(fields, catchalls)[name] == fields[name],
    decreases catchalls.len(),
{
    if catchalls.len() > 0 {
        let shorter = catchalls.drop_last();
        assert forall|i: int| 0 <= i < shorter.len() implies (#[trigger] shorter[i]).name
            != name by {
            assert(shorter[i] == catchalls[i]);
        }
        lemma_combined_leaves_others(fields, shorter, name);
        assert(catchalls[catchalls.len() - 1].name != name);
    }
}

/// Taking a character out of a text leaves the others in it.
proof fn lemma_others_are_left(s: Seq<char>, c: char, i: int)
    requires
        0 <= i < s.len(),
        s[i] != c,
    ensures
        text::without(s, c).contains(s[i]),
    decreases s.len(),
{
    let shorter = s.drop_last();
    let left = text::without(shorter, c);
    if i < shorter.len() {
        lemma_others_are_left(shorter, c, i);
        let j = choose|j: int| 0 <= j < left.len() && left[j] == s[i];
        assert(left.push(s.last())[j] == s[i]);
    } else {
        assert(left.push(s.last())[left.len() as int] == s[i]);
    }
}

/// An escape has a backslash in it.
proof fn lemma_escapes_show(s: Seq<char>) -> (at: int)
    requires
        !json::plain(s),
    ensures
        0 <= at < json::escaped(s).len(),
        json::escaped(s)[at] == '\\',
    decreases s.len(),
{
    let shorter = s.drop_last();
    let earlier = json::escaped(shorter);
    if json::plain(shorter) {
        assert forall|i: int| 0 <= i < s.len() && json::unescaped(s.last()) implies json::unescaped(
            #[trigger] s[i],
        ) by {
            if i < shorter.len() {
                assert(json::unescaped(shorter[i]));
            }
        }
        assert(json::escape(s.last())[0] == '\\');
        earlier.len() as int
    } else {
        let at = lemma_escapes_show(shorter);
        assert((earlier + json::escape(s.last()))[at] == earlier[at]);
        at
    }
}

/// A text goes into a date field where it is a date in the style and none of its characters has an
/// escape in JSON. In a style without formats every text goes into it but the empty one.
pub proof fn law_dates_are_kept_as_written(
    field: selection::FieldModel,
    s: Seq<char>,
    style: int,
)
    requires
        field.date,
        settled(field, Json::Str(s), style),
    ensures
        keeps(field, Json::Str(s), style) == if dates::date_patterns(style).len() == 0 {
            s.len() > 0
        } else {
            json::plain(s) && dates::is_date_text(s, style)
        },
{
    let written = text::without(json::escaped(s), '"');
    if json::plain(s) {
        json::law_plain_text_has_no_escapes(s);
        lemma_no_quotes(s);
    } else {
        let at = lemma_escapes_show(s);
        lemma_others_are_left(json::escaped(s), '"', at);
        let there = choose|i: int| 0 <= i < written.len() && written[i] == '\\';
        if dates::date_patterns(style).len() > 0 {
            dates::law_foreign_texts_are_no_dates(written, style, there);
        }
    }
}

/// A document shows every column of its row under the name of its field, unless a field of that
/// name is added to the columns: with the value of the cell, but without a value that stands in a
/// column of dates and is none.
pub proof fn law_document_shows_row(
    cells: Seq<Json>,
    fields: Seq<selection::FieldModel>,
    added: layout::LayoutModel,
    style: int,
    k: int,
)
    requires
        0 <= k < cells.len() <= fields.len(),
        selection::distinct(fields),
        !added.adds(fields[k].name),
    ensures
        document(cells, fields, added, style)->Object_0.contains_key(fields[k].name) == keeps(
            fields[k],
            cells[k],
            style,
        ),
        keeps(fields[k], cells[k], style) ==> document(cells, fields, added, style)->Object_0[fields[k].name]
            == cells[k],
{
    lemma_row_fills_fields(cells, fields, style, k);
    let placed = with_geo(filled(cells, fields, style), added.geo);
    lemma_combined_leaves_others(placed, added.catchalls, fields[k].name);
}

/// A document has every field that is added to the columns.
pub proof fn law_document_has_added_fields(
    cells: Seq<Json>,
    fields: Seq<selection::FieldModel>,
    added: layout::LayoutModel,
    style: int,
    name: Seq<char>,
)
    requires
        added.adds(name),
    ensures
        document(cells, fields, added, style)->Object_0.contains_key(name),
{
    let placed = with_geo(filled(cells, fields, style), added.geo);
    lemma_combined_is_there(placed, added.catchalls, name);
}

/// The combined fields are there beside the fields that were there.
proof fn lemma_combined_is_there(
    fields: Map<Seq<char>, Json>,
    catchalls: Seq<layout::CatchAllModel>,
    name: Seq<char>,
)
    ensures
        with_combined(fields, catchalls).contains_key(name) <==> fields.contains_key(name) || (
        exists|i: int| 0 <= i < catchalls.len() && (#[trigger] catchalls[i]).name == name),
    decreases catchalls.len(),
{
    if catchalls.len() > 0 {
        let shorter = catchalls.drop_last();
        lemma_combined_is_there(fields, shorter, name);
        if exists|i: int| 0 <= i < shorter.len() && (#[trigger] shorter[i]).name == name {
            let i = choose|i: int| 0 <= i < shorter.len() && (#[trigger] shorter[i]).name == name;
            assert(catchalls[i].name == name);
        }
        if exists|i: int| 0 <= i < catchalls.len() && (#[trigger] catchalls[i]).name == name {
            let i = choose|i: int|
                0 <= i < catchalls.len() && (#[trigger] catchalls[i]).name == name;
            if i < shorter.len() {
                assert(shorter[i].name == name);
            }
        }
        if catchalls.last().name == name {
            assert(catchalls[catchalls.len() - 1].name == name);
        }
    }
}

/// The point of a document is where the coordinate columns of its row say, unless a combined
/// field has the name of the point field.
pub proof fn law_point_has_row_coordinates(
    cells: Seq<Json>,
    fields: Seq<selection::FieldModel>,
    added: layout::LayoutModel,
    style: int,
)
    requires
        added.geo is Some,
        forall|i: int|
            0 <= i < added.catchalls.len() ==> (#[trigger] added.catchalls[i]).name
                != added.geo->0.name,
    ensures
        json::member_of(document(cells, fields, added, style), added.geo->0.name) == point(
            json::member_of(Json::Object(filled(cells, fields, style)), added.geo->0.longitude),
            json::member_of(Json::Object(filled(cells, fields, style)), added.geo->0.latitude),
        ),
{
    let placed = with_geo(filled(cells, fields, style), added.geo);
    lemma_combined_leaves_others(placed, added.catchalls, added.geo->0.name);
}

/// What a column holds goes into the document as it is: numbers as numbers, texts as texts, with zero
/// for a number that is null and an empty text for a text that is null or a type that is not imported.
pub proof fn law_cells_become_json(n: i32, m: i64, value: Value, found: String)
    ensures
        cell_json(Cell::I32(Some(n))) == Json::Int(n as int),
        cell_json(Cell::I32(None)) == Json::Int(0),
        cell_json(Cell::I64(Some(m))) == Json::Int(m as int),
        cell_json(Cell::I64(None)) == Json::Int(0),
        cell_json(Cell::Real(Some(value))) == json::json_of(value),
        cell_json(Cell::Real(None)) == Json::Real(seq!['0', '.', '0']),
        cell_json(Cell::Numeric(Decimal::Null)) == Json::Int(0),
        cell_json(Cell::Numeric(Decimal::Unreadable)) == Json::Real(seq!['0', '.', '0']),
        cell_json(Cell::Numeric(Decimal::Number(value))) == json::json_of(value),
        cell_json(Cell::Text(Some(found))) == Json::Str(found@),
        cell_json(Cell::Text(None)) == Json::Str(seq![]),
        cell_json(Cell::Other) == Json::Str(seq![]),
{
    reveal_strlit("0.0");
    reveal_strlit("");
    assert("0.0"@ =~= seq!['0', '.', '0']);
    assert(""@ =~= seq![]);
}

/// Cells and rows keep their places.
pub proof fn law_cells_keep_places(rows: Seq<Vec<Cell>>, i: int, k: int)
    requires
        0 <= i < rows.len(),
    ensures
        rows_jsons(rows).len() == rows.len(),
        rows_jsons(rows)[i] == row_jsons(rows[i]@),
        row_jsons(rows[i]@).len() == rows[i]@.len(),
        0 <= k < rows[i]@.len() ==> row_jsons(rows[i]@)[k] == cell_json(rows[i]@[k]),
{
}

/// A field that is not for dates takes any value, in any style. A date field takes a value where what
/// JSON writes for it, without quotes, is a date in the style.
pub proof fn law_what_fields_take(name: Seq<char>, value: Json, style: int)
    ensures
        keeps(selection::FieldModel { name, date: false }, value, style),
        keeps(selection::FieldModel { name, date: true }, value, style) == dates::is_date_text(
            text::without(json::json_text(value), '"'),
            style,
        ),
{
}

/// The value of a column that is not for dates stands in the document under the name of its field,
/// whatever the name and the value are, unless a field of that name is added to the columns.
pub proof fn law_values_are_shown(
    cells: Seq<Json>,
    fields: Seq<selection::FieldModel>,
    added: layout::LayoutModel,
    style: int,
    k: int,
)
    requires
        0 <= k < cells.len() <= fields.len(),
        selection::distinct(fields),
        !fields[k].date,
        !added.adds(fields[k].name),
    ensures
        document(cells, fields, added, style) is Object,
        document(cells, fields, added, style)->Object_0.contains_key(fields[k].name),
        json::member_of(document(cells, fields, added, style), fields[k].name) == cells[k],
{
    law_what_fields_take(fields[k].name, cells[k], style);
    law_document_shows_row(cells, fields, added, style, k);
}

/// A document has no field but those of its row and those that are added to them.
pub proof fn law_document_has_nothing_else(
    cells: Seq<Json>,
    fields: Seq<selection::FieldModel>,
    added: layout::LayoutModel,
    style: int,
    name: Seq<char>,
)
    requires
        cells.len() <= fields.len(),
        document(cells, fields, added, style)->Object_0.contains_key(name),
    ensures
        added.adds(name) || exists|k: int|
            0 <= k < cells.len() && (#[trigger] fields[k]).name == name,
{
    let placed = with_geo(filled(cells, fields, style), added.geo);
    lemma_combined_is_there(placed, added.catchalls, name);
    if !added.adds(name) {
        lemma_filled_names(cells, fields, style, name);
    }
}

/// What a row has in a column: the value of its cell, or null where no cell fills a field of that
/// name.
proof fn lemma_row_has(
    cells: Seq<Json>,
    fields: Seq<selection::FieldModel>,
    style: int,
    name: Seq<char>,
)
    requires
        cells.len() <= fields.len(),
        selection::distinct(fields),
    ensures
        forall|k: int|
            0 <= k < cells.len() && !(#[trigger] fields[k]).date && fields[k].name == name
                ==> json::member_of(Json::Object(filled(cells, fields, style)), name) == cells[k],
        (forall|k: int| 0 <= k < cells.len() ==> (#[trigger] fields[k]).name != name)
            ==> json::member_of(Json::Object(filled(cells, fields, style)), name) is Null,
{
    assert forall|k: int|
        0 <= k < cells.len() && !(#[trigger] fields[k]).date && fields[k].name
            == name implies json::member_of(Json::Object(filled(cells, fields, style)), name)
        == cells[k] by {
        lemma_row_fills_fields(cells, fields, style, k);
    }
    if filled(cells, fields, style).contains_key(name) {
        lemma_filled_names(cells, fields, style, name);
    }
}

/// The point of a document has the longitude first and the latitude second, and nothing more: the
/// values of the two columns in its row, whatever they are, and null for a column that the row does
/// not have. This holds where no combined field has the name of the point field.
pub proof fn law_longitude_comes_first(
    cells: Seq<Json>,
    fields: Seq<selection::FieldModel>,
    added: layout::LayoutModel,
    style: int,
)
    requires
        cells.len() <= fields.len(),
        selection::distinct(fields),
        added.geo is Some,
        forall|i: int|
            0 <= i < added.catchalls.len() ==> (#[trigger] added.catchalls[i]).name
                != added.geo->0.name,
    ensures
        ({
            let shown = json::member_of(
                document(cells, fields, added, style),
                added.geo->0.name,
            );
            let coordinates = json::member_of(shown, "coordinates"@);
            &&& shown is Object
            &&& shown->Object_0.dom() == set!["type"@, "coordinates"@]
            &&& json::member_of(shown, "type"@) == Json::Str("point"@)
            &&& coordinates is Array
            &&& coordinates->Array_0.len() == 2
            &&& forall|k: int|
                0 <= k < cells.len() && !(#[trigger] fields[k]).date && fields[k].name
                    == added.geo->0.longitude ==> coordinates->Array_0[0] == cells[k]
            &&& forall|k: int|
                0 <= k < cells.len() && !(#[trigger] fields[k]).date && fields[k].name
                    == added.geo->0.latitude ==> coordinates->Array_0[1] == cells[k]
            &&& (forall|k: int|
                0 <= k < cells.len() ==> (#[trigger] fields[k]).name != added.geo->0.longitude)
                ==> coordinates->Array_0[0] is Null
            &&& (forall|k: int|
                0 <= k < cells.len() ==> (#[trigger] fields[k]).name != added.geo->0.latitude)
                ==> coordinates->Array_0[1] is Null
        }),
{
    reveal_strlit("type");
    reveal_strlit("coordinates");
    assert("type"@.len() != "coordinates"@.len());
    law_point_has_row_coordinates(cells, fields, added, style);
    lemma_row_has(cells, fields, style, added.geo->0.longitude);
    lemma_row_has(cells, fields, style, added.geo->0.latitude);
    let shown = json::member_of(document(cells, fields, added, style), added.geo->0.name);
    assert(shown->Object_0.dom() =~= set!["type"@, "coordinates"@]);
}

/// The point of the document of a row has the values of its two columns, by the places of these.
proof fn lemma_point_of_row(row: Seq<Cell>, fields: Seq<Field>, added: Layout, style: int)
    requires
        row.len() <= fields.len(),
    ensures
        ({
            let shown = json::member_of(
                document(row_jsons(row), selection::models(fields), added@, style),
                added.geo->0.name@,
            );
            added.geo is Some && (forall|i: int|
                0 <= i < added.catchalls@.len() ==> (#[trigger] added.catchalls@[i]).name@
                    != added.geo->0.name@) && selection::distinct(selection::models(fields)) ==> {
                &&& json::member_of(shown, "type"@) == Json::Str("point"@)
                &&& json::member_of(shown, "coordinates"@) is Array
                &&& json::member_of(shown, "coordinates"@)->Array_0.len() == 2
                &&& forall|k: int|
                    0 <= k < row.len() && !(#[trigger] fields[k]).date && fields[k].name@
                        == added.geo->0.longitude@ ==> json::member_of(
                        shown,
                        "coordinates"@,
                    )->Array_0[0] == cell_json(row[k])
                &&& forall|k: int|
                    0 <= k < row.len() && !(#[trigger] fields[k]).date && fields[k].name@
                        == added.geo->0.latitude@ ==> json::member_of(
                        shown,
                        "coordinates"@,
                    )->Array_0[1] == cell_json(row[k])
            }
        }),
{
    let cells = row_jsons(row);
    let known = selection::models(fields);
    if added.geo is Some && (forall|i: int|
        0 <= i < added.catchalls@.len() ==> (#[trigger] added.catchalls@[i]).name@
            != added.geo->0.name@) && selection::distinct(known) {
        assert forall|i: int| 0 <= i < added@.catchalls.len() implies (
        #[trigger] added@.catchalls[i]).name != added@.geo->0.name by {
            assert(added@.catchalls[i] == added.catchalls@[i]@);
        }
        law_longitude_comes_first(cells, known, added@, style);
        assert forall|k: int| 0 <= k < fields.len() implies known[k] == (#[trigger] fields[k])@ by {
        }
        assert forall|k: int| 0 <= k < row.len() implies cells[k] == cell_json(row[k]) by {
        }
    }
}

/// The text of a combined field is what JSON writes for each of its members, in their order, with its
/// separator between them. The members are those that the document shows, so this holds of a field
/// that is the last of its name and has no member that is added at its own place or behind it.
pub proof fn law_combined_field_joins_members(
    cells: Seq<Json>,
    fields: Seq<selection::FieldModel>,
    added: layout::LayoutModel,
    style: int,
    k: int,
)
    requires
        0 <= k < added.catchalls.len(),
        forall|j: int|
            k < j < added.catchalls.len() ==> (#[trigger] added.catchalls[j]).name
                != added.catchalls[k].name,
        forall|i: int, j: int|
            0 <= i < added.catchalls[k].members.len() && k <= j < added.catchalls.len()
                ==> #[trigger] added.catchalls[k].members[i] != (#[trigger] added.catchalls[j]).name,
    ensures
        json::member_of(document(cells, fields, added, style), added.catchalls[k].name)
            == Json::Str(
            text::joined(
                Seq::new(
                    added.catchalls[k].members.len(),
                    |i: int|
                        json::json_text(
                            json::member_of(
                                document(cells, fields, added, style),
                                added.catchalls[k].members[i],
                            ),
                        ),
                ),
                added.catchalls[k].separator,
            ),
        ),
{
    let placed = with_geo(filled(cells, fields, style), added.geo);
    let all = added.catchalls;
    let shown = document(cells, fields, added, style);
    let before = with_combined(placed, all.take(k));
    let members = all[k].members;
    let upto = all.take(k + 1);
    assert(upto.drop_last() =~= all.take(k));
    assert(upto.last() == all[k]);
    lemma_later_leave_others(placed, all, k + 1, all[k].name);
    let texts = Seq::new(
        members.len(),
        |i: int| json::json_text(json::member_of(shown, members[i])),
    );
    assert forall|i: int| 0 <= i < members.len() implies json::member_of(shown, #[trigger] members[i])
        == json::member_of(Json::Object(before), members[i]) by {
        assert forall|j: int| k <= j < all.len() implies (#[trigger] all[j]).name != members[i] by {
            assert(added.catchalls[k].members[i] != added.catchalls[j].name);
        }
        lemma_later_leave_others(placed, all, k, members[i]);
    }
    assert(member_texts(before, members) =~= texts);
}

/// The combined fields from `k` on leave fields of other names as those before them made them.
proof fn lemma_later_leave_others(
    fields: Map<Seq<char>, Json>,
    catchalls: Seq<layout::CatchAllModel>,
    k: int,
    name: Seq<char>,
)
    requires
        0 <= k <= catchalls.len(),
        forall|j: int| k <= j < catchalls.len() ==> (#[trigger] catchalls[j]).name != name,
    ensures
        with_combined(fields, catchalls).contains_key(name) == with_combined(
            fields,
            catchalls.take(k),
        ).contains_key(name),
        with_combined(fields, catchalls)[name] == with_combined(fields, catchalls.take(k))[name],
    decreases catchalls.len(),
{
    if k == catchalls.len() {
        assert(catchalls.take(k) =~= catchalls);
    } else {
        let shorter = catchalls.drop_last();
        assert(shorter.take(k) =~= catchalls.take(k));
        assert forall|j: int| k <= j < shorter.len() implies (#[trigger] shorter[j]).name != name by {
            assert(shorter[j] == catchalls[j]);
        }
        lemma_later_leave_others(fields, shorter, k, name);
        assert(catchalls[catchalls.len() - 1].name != name);
    }
}

/// The action before a document names the index, and the type of all documents, and nothing else.
pub proof fn law_action_names_index(index: Seq<char>)
    ensures
        action(index) == Json::Object(
            map![
                "index"@ => Json::Object(
                    map!["_index"@ => Json::Str(index), "_type"@ => Json::Str("data"@)],
                ),
            ],
        ),
{
}

/// A bulk request has two lines for each row, in the order of the rows: the action, and behind it the
/// document of that row.
pub proof fn law_two_lines_for_each_row(
    rows: Seq<Seq<Json>>,
    fields: Seq<selection::FieldModel>,
    added: layout::LayoutModel,
    style: int,
    index: Seq<char>,
    i: int,
)
    ensures
        bulk_lines(rows, fields, added, style, index).len() == 2 * rows.len(),
        0 <= i < rows.len() ==> bulk_lines(rows, fields, added, style, index)[2 * i]
            == json::json_text(action(index)).push('\n'),
        0 <= i < rows.len() ==> bulk_lines(rows, fields, added, style, index)[2 * i + 1]
            == json::json_text(document(rows[i], fields, added, style)).push('\n'),
    decreases rows.len(),
{
    reveal_strlit("\n");
    if rows.len() > 0 {
        let shorter = rows.drop_last();
        law_two_lines_for_each_row(shorter, fields, added, style, index, i);
        let head = json::json_text(action(index));
        let body = json::json_text(document(rows.last(), fields, added, style));
        assert(head + "\n"@ =~= head.push('\n'));
        assert(body + "\n"@ =~= body.push('\n'));
    }
}

/// One more column adds its value to the document under the name of its field, where the field takes
/// it, and changes nothing else.
pub proof fn law_one_more_column(
    cells: Seq<Json>,
    value: Json,
    fields: Seq<selection::FieldModel>,
    style: int,
)
    requires
        cells.len() < fields.len(),
    ensures
        ({
            let bare = layout::LayoutModel { geo: None, catchalls: seq![] };
            let field = fields[cells.len() as int];
            let before = document(cells, fields, bare, style)->Object_0;
            let after = document(cells.push(value), fields, bare, style)->Object_0;
            &&& !field.date ==> after == before.insert(field.name, value)
            &&& field.date && dates::is_date_text(
                text::without(json::json_text(value), '"'),
                style,
            ) ==> after == before.insert(field.name, value)
            &&& field.date && !dates::is_date_text(
                text::without(json::json_text(value), '"'),
                style,
            ) ==> after == before
        }),
{
    assert(cells.push(value).drop_last() =~= cells);
}

/// A row without cells has no field of its own.
pub proof fn law_empty_row(fields: Seq<selection::FieldModel>, style: int)
    ensures
        document(
            seq![],
            fields,
            layout::LayoutModel { geo: None, catchalls: seq![] },
            style,
        ) == Json::Object(Map::<Seq<char>, Json>::empty()),
{
}

/// A point field adds to the document a point with what the document has as longitude and then what
/// it has as latitude, and changes nothing else.
pub proof fn law_point_is_added(
    cells: Seq<Json>,
    fields: Seq<selection::FieldModel>,
    geo: layout::GeoModel,
    style: int,
)
    ensures
        ({
            let before = document(
                cells,
                fields,
                layout::LayoutModel { geo: None, catchalls: seq![] },
                style,
            );
            document(
                cells,
                fields,
                layout::LayoutModel { geo: Some(geo), catchalls: seq![] },
                style,
            ) == Json::Object(
                before->Object_0.insert(
                    geo.name,
                    Json::Object(
                        map![
                            "type"@ => Json::Str("point"@),
                            "coordinates"@ => Json::Array(
                                seq![
                                    json::member_of(before, geo.longitude),
                                    json::member_of(before, geo.latitude),
                                ],
                            ),
                        ],
                    ),
                ),
            )
        }),
{
}

/// One more combined field adds to the document what JSON writes for its members, as the document has
/// them then, with its separator between them, and changes nothing else.
pub proof fn law_one_more_combined_field(
    cells: Seq<Json>,
    fields: Seq<selection::FieldModel>,
    geo: Option<layout::GeoModel>,
    catchalls: Seq<layout::CatchAllModel>,
    more: layout::CatchAllModel,
    style: int,
)
    ensures
        ({
            let before = document(cells, fields, layout::LayoutModel { geo, catchalls }, style);
            document(
                cells,
                fields,
                layout::LayoutModel { geo, catchalls: catchalls.push(more) },
                style,
            ) == Json::Object(
                before->Object_0.insert(
                    more.name,
                    Json::Str(
                        text::joined(
                            Seq::new(
                                more.members.len(),
                                |i: int|
                                    json::json_text(json::member_of(before, more.members[i])),
                            ),
                            more.separator,
                        ),
                    ),
                ),
            )
        }),
{
    let before = document(cells, fields, layout::LayoutModel { geo, catchalls }, style);
    assert(catchalls.push(more).drop_last() =~= catchalls);
    assert(member_texts(before->Object_0, more.members) =~= Seq::new(
        more.members.len(),
        |i: int| json::json_text(json::member_of(before, more.members[i])),
    ));
}

} // verus!

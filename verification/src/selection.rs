//! The columns that a batch fetches, and the fields that they become.

use crate::json::{self, Json};
use crate::layout::{self, Layout};
use crate::mapping;
use crate::text;
use serde_json::Value;
use vstd::prelude::*;
use vstd::string::*;

verus! {

/// A field of a document that a column of the batch fills.
pub struct Field {
    pub name: String,
    /// The field holds a date.
    pub date: bool,
}

/// A `Field` as mathematics sees it.
#[verifier::ext_equal]
pub struct FieldModel {
    pub name: Seq<char>,
    pub date: bool,
}

impl View for Field {
    type V = FieldModel;

    open spec fn view(&self) -> FieldModel {
        FieldModel { name: self.name@, date: self.date }
    }
}

/// What each field of a list is.
pub open spec fn models(fields: Seq<Field>) -> Seq<FieldModel> {
    fields.map_values(|f: Field| f@)
}

/// The columns of a batch.
pub struct Selection {
    /// The fields that the columns become, in the order of the columns.
    pub fields: Vec<Field>,
    /// The expressions that fetch the columns.
    pub select: Vec<String>,
}

/// The fields that a mapping document describes.
pub open spec fn properties_in(document: Json) -> Json {
    json::member_of(
        json::member_of(json::member_of(document, "mappings"@), "data"@),
        "properties"@,
    )
}

/// The type of a field, as its mapping names it.
pub open spec fn kind_of(field: Json) -> Option<Seq<char>> {
    match json::member_of(field, "type"@) {
        Json::Str(kind) => Some(kind),
        _ => None,
    }
}

/// The document describes fields, each with a type.
pub open spec fn describes_fields(document: Json) -> bool {
    match properties_in(document) {
        Json::Object(fields) => forall|name: Seq<char>| #[trigger]
            fields.contains_key(name) ==> kind_of(fields[name]) is Some,
        _ => false,
    }
}

/// The field holds a date.
pub open spec fn is_date(field: Json) -> bool {
    kind_of(field) == Some("date"@)
}

/// The fields of those names that a column fills: dates, and what is not added to the columns.
pub open spec fn chosen(
    names: Seq<Seq<char>>,
    fields: Map<Seq<char>, Json>,
    added: layout::LayoutModel,
) -> Seq<FieldModel>
    decreases names.len(),
{
    if names.len() == 0 {
        seq![]
    } else {
        let earlier = chosen(names.drop_last(), fields, added);
        let name = names.last();
        let date = is_date(fields[name]);
        if date || !added.adds(name) {
            earlier.push(FieldModel { name, date })
        } else {
            earlier
        }
    }
}

/// The expression that fetches the column of a field. A date is fetched as text in that style.
pub open spec fn expression(field: FieldModel, style: int) -> Seq<char> {
    if field.date {
        "convert(varchar, "@ + field.name + ", "@ + text::decimal(style) + ") as "@ + field.name
    } else {
        field.name
    }
}

/// The expressions that fetch the columns of the fields.
pub open spec fn expressions(fields: Seq<FieldModel>, style: int) -> Seq<Seq<char>> {
    fields.map_values(|f: FieldModel| expression(f, style))
}

/// The expression that fetches the column of a field. A date is fetched as text in that style.
fn make_expression(name: &str, date: bool, style: u16) -> (r: String)
    ensures
        r@ == expression(FieldModel { name: name@, date }, style as int),
{
    if date {
        let mut out = String::from_str("convert(varchar, ");
        out.append(name);
        out.append(", ");
        out.append(text::decimal_text(style as i32).as_str());
        out.append(") as ");
        out.append(name);
        out
    } else {
        name.to_owned()
    }
}

/// Chooses the columns that a batch fetches for the fields of a mapping document, in the order of
/// their names. `None` where the document describes no fields or one without a type.
pub fn select_fields(document: &Value, added: &Layout, style: u16) -> (r: Option<Selection>)
    ensures
        r is Some <==> describes_fields(json::json_of(*document)),
        r matches Some(selection) ==> exists|names: Seq<Seq<char>>|
            {
                &&& #[trigger] json::in_order(
                    names,
                    properties_in(json::json_of(*document))->Object_0,
                )
                &&& models(selection.fields@) == chosen(
                    names,
                    properties_in(json::json_of(*document))->Object_0,
                    added@,
                )
                &&& text::texts(selection.select@) == expressions(
                    models(selection.fields@),
                    style as int,
                )
            },
        r is Some <==> json::member_of(
            json::member_of(json::member_of(json::json_of(*document), "mappings"@), "data"@),
            "properties"@,
        ) is Object && forall|name: Seq<char>| #[trigger]
            json::member_of(
                json::member_of(json::member_of(json::json_of(*document), "mappings"@), "data"@),
                "properties"@,
            )->Object_0.contains_key(name) ==> json::member_of(
                json::member_of(
                    json::member_of(json::member_of(json::json_of(*document), "mappings"@), "data"@),
                    "properties"@,
                )->Object_0[name],
                "type"@,
            ) is Str,
        r matches Some(selection) ==> selection.select@.len() == selection.fields@.len(),
        r matches Some(selection) ==> forall|i: int|
            0 <= i < selection.fields@.len() ==> (#[trigger] selection.select@[i])@
                == if selection.fields@[i].date {
                "convert(varchar, "@ + selection.fields@[i].name@ + ", "@ + text::decimal(
                    style as int,
                ) + ") as "@ + selection.fields@[i].name@
            } else {
                selection.fields@[i].name@
            },
        r matches Some(selection) ==> forall|i: int|
            0 <= i < selection.fields@.len() ==> (#[trigger] selection.fields@[i]).date == (
            json::member_of(
                json::member_of(
                    json::member_of(
                        json::member_of(json::member_of(json::json_of(*document), "mappings"@), "data"@),
                        "properties"@,
                    ),
                    selection.fields@[i].name@,
                ),
                "type"@,
            ) == Json::Str("date"@)),
        r matches Some(selection) ==> forall|i: int, j: int|
            0 <= i < j < selection.fields@.len() ==> json::before(
                (#[trigger] selection.fields@[i]).name@,
                (#[trigger] selection.fields@[j]).name@,
            ),
        r matches Some(selection) ==> forall|i: int|
            0 <= i < selection.fields@.len() ==> {
                &&& json::member_of(
                    json::member_of(json::member_of(json::json_of(*document), "mappings"@), "data"@),
                    "properties"@,
                )->Object_0.contains_key((#[trigger] selection.fields@[i]).name@)
                &&& selection.fields@[i].date || !added@.adds(selection.fields@[i].name@)
            },
        r matches Some(selection) ==> forall|name: Seq<char>| #[trigger]
            json::member_of(
                json::member_of(json::member_of(json::json_of(*document), "mappings"@), "data"@),
                "properties"@,
            )->Object_0.contains_key(name) && (json::member_of(
                json::member_of(
                    json::member_of(json::member_of(json::json_of(*document), "mappings"@), "data"@),
                    "properties"@,
                )->Object_0[name],
                "type"@,
            ) == Json::Str("date"@) || !added@.adds(name)) ==> exists|i: int|
                0 <= i < selection.fields@.len() && (#[trigger] selection.fields@[i]).name@ == name,
{
    let properties = json::member(
        json::member(json::member(document, "mappings"), "data"),
        "properties",
    );
    let names = match json::member_names(properties) {
        Some(names) => names,
        None => {
            return None;
        },
    };
    let ghost fields_json = json::json_of(*properties)->Object_0;
    let ghost all = text::texts(names@);
    let mut fields: Vec<Field> = Vec::new();
    let mut select: Vec<String> = Vec::new();
    let mut i: usize = 0;
    assert(models(fields@) =~= seq![]);
    assert(text::texts(select@) =~= expressions(models(fields@), style as int));
    while i < names.len()
        invariant
            i <= names@.len(),
            all == text::texts(names@),
            json::json_of(*properties) == Json::Object(fields_json),
            json::json_of(*properties) == properties_in(json::json_of(*document)),
            json::in_order(all, fields_json),
            models(fields@) == chosen(all.take(i as int), fields_json, added@),
            text::texts(select@) == expressions(models(fields@), style as int),
            forall|j: int| 0 <= j < i ==> kind_of(fields_json[#[trigger] all[j]]) is Some,
        decreases names@.len() - i,
    {
        let ghost name_text = all[i as int];
        let ghost so_far = models(fields@);
        let ghost items = text::texts(select@);
        proof {
            assert(all.take(i + 1).drop_last() =~= all.take(i as int));
            assert(all.take(i + 1).last() == name_text);
            assert(all.contains(name_text));
            assert(fields_json.contains_key(name_text));
        }
        let name = names[i].as_str();
        let kind = match json::as_str(json::member(json::member(properties, name), "type")) {
            Some(kind) => kind,
            None => {
                assert(kind_of(fields_json[name_text]) is None);
                return None;
            },
        };
        let date: bool = text::same_text(kind, "date");
        if date || !added.adds(name) {
            select.push(make_expression(name, date, style));
            fields.push(Field { name: name.to_owned(), date });
            proof {
                assert(models(fields@) =~= so_far.push(FieldModel { name: name@, date }));
                assert(text::texts(select@) =~= items.push(select@.last()@));
                assert(text::texts(select@) =~= expressions(models(fields@), style as int));
            }
        }
        i += 1;
    }
    proof {
        assert(all.take(i as int) =~= all);
        assert forall|name: Seq<char>| #[trigger] fields_json.contains_key(name) implies kind_of(
            fields_json[name],
        ) is Some by {
            assert(all.contains(name));
            let j = choose|j: int| 0 <= j < all.len() && all[j] == name;
            assert(kind_of(fields_json[all[j]]) is Some);
        }
        lemma_selection(fields@, select@, all, fields_json, added@, style as int);
    }
    Some(Selection { fields, select })
}

/// Two texts cannot each come before the other.
proof fn lemma_before_is_strict(a: Seq<char>, b: Seq<char>)
    requires
        json::before(a, b),
    ensures
        !json::before(b, a),
{
    if json::before(b, a) {
        let k = choose|k: int|
            {
                &&& 0 <= k <= a.len()
                &&& k < b.len()
                &&& a.take(k) == b.take(k)
                &&& k < a.len() ==> a[k] < b[k]
            };
        let l = choose|l: int|
            {
                &&& 0 <= l <= b.len()
                &&& l < a.len()
                &&& b.take(l) == a.take(l)
                &&& l < b.len() ==> b[l] < a[l]
            };
        if k < l {
            assert(a.take(l)[k] == b.take(l)[k]);
        } else if l < k {
            assert(a.take(k)[l] == b.take(k)[l]);
        }
    }
}

/// The order of the fields, and so of the columns, is fixed by the mapping alone.
pub proof fn law_order_is_fixed(
    one: Seq<Seq<char>>,
    other: Seq<Seq<char>>,
    fields: Map<Seq<char>, Json>,
)
    requires
        json::in_order(one, fields),
        json::in_order(other, fields),
    ensures
        one == other,
    decreases one.len(),
{
    if one.len() == 0 {
        if other.len() > 0 {
            assert(other.contains(other[0]));
            assert(one.contains(other[0]));
        }
        assert(one =~= other);
    } else {
        let last = one.last();
        assert(one.contains(last));
        assert(other.contains(last));
        let at = choose|j: int| 0 <= j < other.len() && other[j] == last;
        let end = other.last();
        assert(other.contains(end));
        assert(one.contains(end));
        let from = choose|j: int| 0 <= j < one.len() && one[j] == end;
        if at < other.len() - 1 {
            assert(json::before(other[at], other[other.len() - 1]));
            if from < one.len() - 1 {
                assert(json::before(one[from], one[one.len() - 1]));
                lemma_before_is_strict(last, end);
            } else {
                lemma_before_is_strict(last, last);
            }
        }
        assert(last == end);
        lemma_without_last(one, fields);
        lemma_without_last(other, fields);
        law_order_is_fixed(one.drop_last(), other.drop_last(), fields.remove(last));
        assert(one =~= one.drop_last().push(last));
        assert(other =~= other.drop_last().push(last));
    }
}

/// Without its last name, a list in order is the list of the other names in order.
proof fn lemma_without_last(names: Seq<Seq<char>>, fields: Map<Seq<char>, Json>)
    requires
        names.len() > 0,
        json::in_order(names, fields),
    ensures
        json::in_order(names.drop_last(), fields.remove(names.last())),
{
    let shorter = names.drop_last();
    let last = names.last();
    let rest = fields.remove(last);
    assert forall|name: Seq<char>| #[trigger] shorter.contains(name) <==> rest.contains_key(
        name,
    ) by {
        if shorter.contains(name) {
            let j = choose|j: int| 0 <= j < shorter.len() && shorter[j] == name;
            assert(names[j] == name);
            assert(names.contains(name));
            if name == last {
                assert(json::before(names[j], names[names.len() - 1]));
                lemma_before_is_strict(last, last);
            }
        }
        if rest.contains_key(name) {
            assert(names.contains(name));
            let j = choose|j: int| 0 <= j < names.len() && names[j] == name;
            assert(shorter[j] == name);
        }
    }
    assert forall|i: int, j: int| 0 <= i < j < shorter.len() implies json::before(
        #[trigger] shorter[i],
        #[trigger] shorter[j],
    ) by {
        assert(shorter[i] == names[i]);
        assert(shorter[j] == names[j]);
    }
}

/// No two fields have the same name.
pub open spec fn distinct(fields: Seq<FieldModel>) -> bool {
    forall|i: int, j: int|
        0 <= i < j < fields.len() ==> (#[trigger] fields[i]).name != (#[trigger] fields[j]).name
}

/// The chosen fields have names of the list.
proof fn lemma_chosen_names(
    names: Seq<Seq<char>>,
    fields: Map<Seq<char>, Json>,
    added: layout::LayoutModel,
    i: int,
)
    requires
        0 <= i < chosen(names, fields, added).len(),
    ensures
        names.contains(chosen(names, fields, added)[i].name),
    decreases names.len(),
{
    let earlier = chosen(names.drop_last(), fields, added);
    if i < earlier.len() {
        lemma_chosen_names(names.drop_last(), fields, added, i);
        let j = choose|j: int|
            0 <= j < names.len() - 1 && names.drop_last()[j] == earlier[i].name;
        assert(names[j] == earlier[i].name);
    } else {
        assert(names[names.len() - 1] == names.last());
    }
}

/// Every field is filled by one column at most.
pub proof fn law_fields_are_distinct(
    names: Seq<Seq<char>>,
    fields: Map<Seq<char>, Json>,
    added: layout::LayoutModel,
)
    requires
        json::in_order(names, fields),
    ensures
        distinct(chosen(names, fields, added)),
    decreases names.len(),
{
    if names.len() > 0 {
        let shorter = names.drop_last();
        let rest = fields.remove(names.last());
        let earlier = chosen(shorter, fields, added);
        lemma_without_last(names, fields);
        law_fields_are_distinct(shorter, rest, added);
        lemma_chosen_elsewhere(shorter, fields, added, names.last());
        let all = chosen(names, fields, added);
        assert forall|i: int, j: int| 0 <= i < j < all.len() implies (#[trigger] all[i]).name != (
        #[trigger] all[j]).name by {
            if j < earlier.len() {
                assert(all[i] == earlier[i]);
                assert(all[j] == earlier[j]);
            } else {
                assert(all[i] == earlier[i]);
                lemma_chosen_names(shorter, fields, added, i);
                assert(shorter.contains(earlier[i].name));
                assert(rest.contains_key(earlier[i].name));
            }
        }
    }
}

/// A field that is not in the list has no part in the choice.
proof fn lemma_chosen_elsewhere(
    names: Seq<Seq<char>>,
    fields: Map<Seq<char>, Json>,
    added: layout::LayoutModel,
    other: Seq<char>,
)
    requires
        json::in_order(names, fields.remove(other)),
    ensures
        chosen(names, fields, added) == chosen(names, fields.remove(other), added),
{
    assert(!names.contains(other)) by {
        assert(!fields.remove(other).contains_key(other));
    }
    lemma_chosen_agrees(names, fields, fields.remove(other), added);
}

/// Where two mappings agree on the names, so do the choices.
proof fn lemma_chosen_agrees(
    names: Seq<Seq<char>>,
    one: Map<Seq<char>, Json>,
    other: Map<Seq<char>, Json>,
    added: layout::LayoutModel,
)
    requires
        forall|i: int| 0 <= i < names.len() ==> one[#[trigger] names[i]] == other[names[i]],
    ensures
        chosen(names, one, added) == chosen(names, other, added),
    decreases names.len(),
{
    if names.len() > 0 {
        let shorter = names.drop_last();
        assert forall|i: int| 0 <= i < shorter.len() implies one[#[trigger] shorter[i]]
            == other[shorter[i]] by {
            assert(shorter[i] == names[i]);
        }
        lemma_chosen_agrees(shorter, one, other, added);
        assert(names[names.len() - 1] == names.last());
    }
}

/// The choice holds a field of that name.
pub open spec fn holds(fields: Seq<FieldModel>, name: Seq<char>) -> bool {
    exists|i: int| 0 <= i < fields.len() && (#[trigger] fields[i]).name == name
}

/// Every field of the mapping has a column in the batch, but for those that are added to the
/// columns of the table and hold no date.
pub proof fn law_every_column_is_fetched(
    names: Seq<Seq<char>>,
    fields: Map<Seq<char>, Json>,
    added: layout::LayoutModel,
    name: Seq<char>,
)
    requires
        json::in_order(names, fields),
    ensures
        holds(chosen(names, fields, added), name) <==> fields.contains_key(name) && (is_date(
            fields[name],
        ) || !added.adds(name)),
{
    lemma_chosen_holds(names, fields, added, name);
    assert(names.contains(name) <==> fields.contains_key(name));
}

/// The choice holds the names of the list that are dates or not added.
proof fn lemma_chosen_holds(
    names: Seq<Seq<char>>,
    fields: Map<Seq<char>, Json>,
    added: layout::LayoutModel,
    name: Seq<char>,
)
    ensures
        holds(chosen(names, fields, added), name) <==> names.contains(name) && (is_date(
            fields[name],
        ) || !added.adds(name)),
    decreases names.len(),
{
    if names.len() > 0 {
        let shorter = names.drop_last();
        let earlier = chosen(shorter, fields, added);
        let all = chosen(names, fields, added);
        lemma_chosen_holds(shorter, fields, added, name);
        assert(names.contains(name) <==> shorter.contains(name) || names.last() == name) by {
            if names.contains(name) {
                let j = choose|j: int| 0 <= j < names.len() && names[j] == name;
                if j < shorter.len() {
                    assert(shorter[j] == name);
                }
            }
            if shorter.contains(name) {
                let j = choose|j: int| 0 <= j < shorter.len() && shorter[j] == name;
                assert(names[j] == name);
            }
            if names.last() == name {
                assert(names[names.len() - 1] == name);
            }
        }
        if holds(earlier, name) {
            let j = choose|j: int| 0 <= j < earlier.len() && (#[trigger] earlier[j]).name == name;
            assert(all[j].name == name);
        }
        if holds(all, name) {
            let j = choose|j: int| 0 <= j < all.len() && (#[trigger] all[j]).name == name;
            if j < earlier.len() {
                assert(earlier[j].name == name);
            }
        }
        if names.last() == name && all.len() > earlier.len() {
            assert(all[earlier.len() as int].name == name);
        }
    }
}

/// Every field of those mappings has a type.
pub open spec fn all_typed(fields: Map<Seq<char>, Json>) -> bool {
    forall|name: Seq<char>| #[trigger] fields.contains_key(name) ==> kind_of(fields[name]) is Some
}

/// The mappings that the library makes name their type.
proof fn lemma_own_mappings_are_typed(kind: Seq<char>)
    ensures
        kind_of(mapping::typed(kind)) == Some(kind),
        kind_of(mapping::text_field()) == Some("text"@),
{
    reveal_strlit("type");
    reveal_strlit("fields");
    reveal_strlit("analyzer");
    assert("fields"@[0] != "type"@[0]);
    assert("analyzer"@[0] != "type"@[0]);
}

/// The combined fields have types.
proof fn lemma_catchalls_are_typed(
    known: Map<Seq<char>, Json>,
    catchalls: Seq<layout::CatchAllModel>,
)
    requires
        all_typed(known),
    ensures
        all_typed(mapping::with_catchalls(known, catchalls)),
    decreases catchalls.len(),
{
    lemma_own_mappings_are_typed(seq![]);
    if catchalls.len() > 0 {
        lemma_catchalls_are_typed(known, catchalls.drop_last());
    }
}

/// The fields of columns have types.
proof fn lemma_columns_are_typed(
    known: Map<Seq<char>, Json>,
    columns: Seq<mapping::ColumnModel>,
)
    requires
        all_typed(known),
    ensures
        mapping::with_columns(known, columns) matches Ok(fields) ==> all_typed(fields),
    decreases columns.len(),
{
    if columns.len() > 0 {
        lemma_columns_are_typed(known, columns.drop_last());
        lemma_own_mappings_are_typed("double"@);
        lemma_own_mappings_are_typed("long"@);
        lemma_own_mappings_are_typed("integer"@);
        lemma_own_mappings_are_typed("date"@);
    }
}

/// Columns can be chosen for every mapping that is made for a table, whatever its columns and the
/// fields that are added to them.
pub proof fn law_mappings_can_be_selected(
    added: layout::LayoutModel,
    columns: Seq<mapping::ColumnModel>,
)
    ensures
        mapping::with_columns(mapping::added_fields(added), columns) matches Ok(fields)
            ==> describes_fields(mapping::index_document(fields)) && properties_in(
            mapping::index_document(fields),
        ) == Json::Object(fields),
{
    lemma_own_mappings_are_typed("geo_shape"@);
    let empty = Map::<Seq<char>, Json>::empty();
    let known = match added.geo {
        Some(geo) => empty.insert(geo.name, mapping::typed("geo_shape"@)),
        None => empty,
    };
    assert(all_typed(known));
    lemma_catchalls_are_typed(known, added.catchalls);
    lemma_columns_are_typed(mapping::added_fields(added), columns);
}

/// What mathematics sees of a field is what it holds.
pub proof fn law_field_is_seen(field: Field)
    ensures
        field@.name == field.name@,
        field@.date == field.date,
{
}

/// A column is fetched by its name, and a column of dates as text in the style, under its own name.
/// This holds whatever the name and the style are.
pub proof fn law_dates_are_fetched_in_style(name: Seq<char>, style: int)
    ensures
        expression(FieldModel { name, date: true }, style) == "convert(varchar, "@ + name + ", "@
            + text::decimal(style) + ") as "@ + name,
        expression(FieldModel { name, date: false }, style) == name,
{
}

/// The style is all that tells the expressions of one date column apart: they are the same before
/// and behind its number.
pub proof fn law_expressions_differ_in_style(name: Seq<char>, one: int, other: int)
    ensures
        ({
            let a = expression(FieldModel { name, date: true }, one);
            let b = expression(FieldModel { name, date: true }, other);
            let start = "convert(varchar, "@ + name + ", "@;
            let end = ") as "@ + name;
            &&& a.take(start.len() as int) == start
            &&& b.take(start.len() as int) == start
            &&& a.skip(start.len() as int) == text::decimal(one) + end
            &&& b.skip(start.len() as int) == text::decimal(other) + end
        }),
{
    let a = expression(FieldModel { name, date: true }, one);
    let b = expression(FieldModel { name, date: true }, other);
    let start = "convert(varchar, "@ + name + ", "@;
    let end = ") as "@ + name;
    assert(a =~= start + (text::decimal(one) + end));
    assert(b =~= start + (text::decimal(other) + end));
    assert(a.take(start.len() as int) =~= start);
    assert(b.take(start.len() as int) =~= start);
    assert(a.skip(start.len() as int) =~= text::decimal(one) + end);
    assert(b.skip(start.len() as int) =~= text::decimal(other) + end);
}

/// The expressions stand in the order of the fields, one for each.
pub proof fn law_one_expression_for_each_field(fields: Seq<FieldModel>, style: int, i: int)
    requires
        0 <= i < fields.len(),
    ensures
        expressions(fields, style).len() == fields.len(),
        fields[i].date ==> expressions(fields, style)[i] == "convert(varchar, "@ + fields[i].name
            + ", "@ + text::decimal(style) + ") as "@ + fields[i].name,
        !fields[i].date ==> expressions(fields, style)[i] == fields[i].name,
{
}

/// The chosen fields come in the order of their names, and hold dates where the mapping gives the
/// type of dates.
pub proof fn law_chosen_fields(
    names: Seq<Seq<char>>,
    fields: Map<Seq<char>, Json>,
    added: layout::LayoutModel,
    i: int,
    j: int,
)
    requires
        json::in_order(names, fields),
    ensures
        0 <= i < chosen(names, fields, added).len() ==> chosen(names, fields, added)[i].date == (
        json::member_of(fields[chosen(names, fields, added)[i].name], "type"@) == Json::Str(
            "date"@,
        )),
        0 <= i < j < chosen(names, fields, added).len() ==> json::before(
            chosen(names, fields, added)[i].name,
            chosen(names, fields, added)[j].name,
        ),
    decreases names.len(),
{
    if names.len() > 0 {
        let shorter = names.drop_last();
        let rest = fields.remove(names.last());
        let earlier = chosen(shorter, fields, added);
        let all = chosen(names, fields, added);
        lemma_without_last(names, fields);
        lemma_chosen_elsewhere(shorter, fields, added, names.last());
        law_chosen_fields(shorter, rest, added, i, j);
        if 0 <= i < earlier.len() {
            assert(all[i] == earlier[i]);
            lemma_chosen_names(shorter, fields, added, i);
            assert(shorter.contains(earlier[i].name));
            assert(rest.contains_key(earlier[i].name));
            if j == earlier.len() && j < all.len() {
                let k = choose|k: int| 0 <= k < shorter.len() && shorter[k] == earlier[i].name;
                assert(json::before(names[k], names[names.len() - 1]));
            } else if i < j < earlier.len() {
                assert(all[j] == earlier[j]);
            }
        }
    }
}

/// What a selection holds, by the places of its fields.
proof fn lemma_selection(
    fields: Seq<Field>,
    select: Seq<String>,
    names: Seq<Seq<char>>,
    properties: Map<Seq<char>, Json>,
    added: layout::LayoutModel,
    style: int,
)
    requires
        json::in_order(names, properties),
        models(fields) == chosen(names, properties, added),
        text::texts(select) == expressions(models(fields), style),
    ensures
        select.len() == fields.len(),
        forall|i: int|
            0 <= i < fields.len() ==> (#[trigger] select[i])@ == if fields[i].date {
                "convert(varchar, "@ + fields[i].name@ + ", "@ + text::decimal(style) + ") as "@
                    + fields[i].name@
            } else {
                fields[i].name@
            },
        forall|i: int|
            0 <= i < fields.len() ==> (#[trigger] fields[i]).date == (json::member_of(
                json::member_of(Json::Object(properties), fields[i].name@),
                "type"@,
            ) == Json::Str("date"@)),
        forall|i: int, j: int|
            0 <= i < j < fields.len() ==> json::before(
                (#[trigger] fields[i]).name@,
                (#[trigger] fields[j]).name@,
            ),
        forall|i: int|
            0 <= i < fields.len() ==> properties.contains_key((#[trigger] fields[i]).name@) && (
            fields[i].date || !added.adds(fields[i].name@)),
        forall|name: Seq<char>| #[trigger]
            properties.contains_key(name) && (json::member_of(properties[name], "type"@)
                == Json::Str("date"@) || !added.adds(name)) ==> exists|i: int|
                0 <= i < fields.len() && (#[trigger] fields[i]).name@ == name,
{
    let all = chosen(names, properties, added);
    assert(text::texts(select).len() == select.len());
    assert forall|i: int| 0 <= i < fields.len() implies (#[trigger] select[i])@ == if fields[i].date {
        "convert(varchar, "@ + fields[i].name@ + ", "@ + text::decimal(style) + ") as "@
            + fields[i].name@
    } else {
        fields[i].name@
    } by {
        law_one_expression_for_each_field(models(fields), style, i);
        assert(text::texts(select)[i] == select[i]@);
        assert(models(fields)[i] == fields[i]@);
    }
    assert forall|i: int| 0 <= i < fields.len() implies properties.contains_key(
        (#[trigger] fields[i]).name@,
    ) && (fields[i].date || !added.adds(fields[i].name@)) && fields[i].date == (json::member_of(
        json::member_of(Json::Object(properties), fields[i].name@),
        "type"@,
    ) == Json::Str("date"@)) by {
        assert(models(fields)[i] == fields[i]@);
        lemma_chosen_names(names, properties, added, i);
        assert(names.contains(all[i].name));
        assert(holds(all, all[i].name));
        law_every_column_is_fetched(names, properties, added, all[i].name);
        law_chosen_fields(names, properties, added, i, i);
    }
    assert forall|i: int, j: int| 0 <= i < j < fields.len() implies json::before(
        (#[trigger] fields[i]).name@,
        (#[trigger] fields[j]).name@,
    ) by {
        assert(models(fields)[i] == fields[i]@);
        assert(models(fields)[j] == fields[j]@);
        law_chosen_fields(names, properties, added, i, j);
    }
    assert forall|name: Seq<char>| #[trigger]
        properties.contains_key(name) && (json::member_of(properties[name], "type"@) == Json::Str(
            "date"@,
        ) || !added.adds(name)) implies exists|i: int|
        0 <= i < fields.len() && (#[trigger] fields[i]).name@ == name by {
        law_every_column_is_fetched(names, properties, added, name);
        assert(holds(all, name));
        let i = choose|i: int| 0 <= i < all.len() && (#[trigger] all[i]).name == name;
        assert(models(fields)[i] == fields[i]@);
        assert(fields[i].name@ == name);
    }
}

} // verus!

use production_importer::layout::{self, GeoField, Layout};
use production_importer::mapping::{self, Column, Lookup, LookupError};
use production_importer::selection;
use serde_json::Value;

fn usual() -> Layout {
    Layout {
        geo: Some(GeoField {
            name: "the_geom".to_string(),
            longitude: "locLongWGS84_wh".to_string(),
            latitude: "locLatWGS84_wh".to_string(),
        }),
        catchalls: layout::parse_catchalls(
            "id_catchall=eOwnerID,eNormalizedID,wprdOperIDHartStandard;\
             name_catchall=wlaAPIHartStandard,wlaWellNum,wlaWellName,wlaLeaseName,wlaLeaseNum",
        )
        .unwrap(),
    }
}

fn bare() -> Layout {
    Layout { geo: None, catchalls: Vec::new() }
}

fn column(name: &str, data_type: &str) -> Column {
    Column {
        name: Lookup::Text(name.to_string()),
        data_type: Lookup::Text(data_type.to_string()),
    }
}

fn parsed(text: &str) -> Value {
    serde_json::from_str(text).unwrap()
}

#[test]
fn mapping_of_no_columns() {
    let mapping = mapping::create_mapping(&Vec::new(), &usual()).ok().unwrap();
    let expected = parsed(
        r#"{
        "settings": {
            "index": {"refresh_interval": "1s", "number_of_shards": 28, "number_of_replicas": 0},
            "analysis": {"analyzer": {"lowercase_analyzer":
                {"filter": ["lowercase"], "type": "custom", "tokenizer": "keyword"}}}
        },
        "mappings": {"data": {"properties": {
            "the_geom": {"type": "geo_shape"},
            "id_catchall": {"type": "text", "fields": {"keyword": {"type": "keyword"}},
                "analyzer": "lowercase_analyzer"},
            "name_catchall": {"type": "text", "fields": {"keyword": {"type": "keyword"}},
                "analyzer": "lowercase_analyzer"}
        }}}
    }"#,
    );
    assert_eq!(mapping.document, expected);
    assert!(mapping.ignored.is_empty());
}

#[test]
fn mapping_of_each_type() {
    let text = r#"{"type": "text", "fields": {"keyword": {"type": "keyword"}}, "analyzer": "lowercase_analyzer"}"#;
    for (sql, expected) in [
        ("varchar", text),
        ("ntext", text),
        ("nvarchar", text),
        ("float", r#"{"type": "double"}"#),
        ("bigint", r#"{"type": "long"}"#),
        ("int", r#"{"type": "integer"}"#),
        ("numeric", r#"{"type": "integer"}"#),
        ("date", r#"{"type": "date"}"#),
        ("datetime2", r#"{"type": "date"}"#),
    ] {
        assert_eq!(mapping::field_mapping(sql), Some(parsed(expected)), "{}", sql);
        let mapping = mapping::create_mapping(&vec![column("c", sql)], &bare()).ok().unwrap();
        assert_eq!(mapping.document["mappings"]["data"]["properties"]["c"], parsed(expected));
    }
    assert_eq!(mapping::field_mapping("xml"), None);
}

#[test]
fn other_types_are_ignored() {
    let columns = vec![column("a", "xml"), column("b", "int"), column("c", "bit"), column("d", "xml")];
    let mapping = mapping::create_mapping(&columns, &bare()).ok().unwrap();
    assert_eq!(mapping.ignored, vec!["xml", "bit", "xml"]);
    assert_eq!(
        mapping.document["mappings"]["data"]["properties"],
        parsed(r#"{"b": {"type": "integer"}}"#)
    );
}

#[test]
fn later_column_takes_the_name() {
    let columns = vec![column("the_geom", "int"), column("a", "int"), column("a", "float")];
    let mapping = mapping::create_mapping(&columns, &usual()).ok().unwrap();
    let properties = &mapping.document["mappings"]["data"]["properties"];
    assert_eq!(properties["the_geom"]["type"], "integer");
    assert_eq!(properties["a"]["type"], "double");
}

#[test]
fn null_in_the_catalogue_is_an_error() {
    let columns = vec![
        column("a", "int"),
        Column { name: Lookup::Null, data_type: Lookup::Failed("late".to_string()) },
        Column { name: Lookup::Failed("later".to_string()), data_type: Lookup::Null },
    ];
    assert!(matches!(mapping::create_mapping(&columns, &bare()), Err(LookupError::UnexpectedNull)));
    let columns = vec![Column {
        name: Lookup::Text("a".to_string()),
        data_type: Lookup::Failed("no text".to_string()),
    }];
    match mapping::create_mapping(&columns, &bare()) {
        Err(error) => assert_eq!(error.message(), "no text"),
        Ok(_) => panic!("no type"),
    }
    let columns = vec![Column { name: Lookup::Text("a".to_string()), data_type: Lookup::Null }];
    assert!(matches!(mapping::create_mapping(&columns, &bare()), Err(LookupError::UnexpectedNull)));
}

#[test]
fn columns_are_selected_in_order_of_names() {
    let columns = vec![
        column("zeta", "int"),
        column("Day", "date"),
        column("alpha", "varchar"),
        column("Beta", "bigint"),
    ];
    let mapping = mapping::create_mapping(&columns, &usual()).ok().unwrap();
    let selection = selection::select_fields(&mapping.document, &usual(), 23).unwrap();
    assert_eq!(
        selection.select,
        vec!["Beta", "convert(varchar, Day, 23) as Day", "alpha", "zeta"]
    );
    let names: Vec<&str> = selection.fields.iter().map(|f| f.name.as_str()).collect();
    assert_eq!(names, vec!["Beta", "Day", "alpha", "zeta"]);
    let dates: Vec<bool> = selection.fields.iter().map(|f| f.date).collect();
    assert_eq!(dates, vec![false, true, false, false]);
}

#[test]
fn added_fields_are_not_selected_unless_dates() {
    let columns = vec![column("the_geom", "int"), column("id_catchall", "date")];
    let mapping = mapping::create_mapping(&columns, &usual()).ok().unwrap();
    let selection = selection::select_fields(&mapping.document, &usual(), 101).unwrap();
    assert_eq!(selection.select, vec!["convert(varchar, id_catchall, 101) as id_catchall"]);
    assert_eq!(selection.fields.len(), 1);
    let selection = selection::select_fields(&mapping.document, &bare(), 101).unwrap();
    assert_eq!(selection.fields.len(), 3);
}

#[test]
fn documents_of_another_shape_give_no_selection() {
    for text in [
        "null",
        "[]",
        r#"{"mappings": {"data": {}}}"#,
        r#"{"mappings": {"data": {"properties": [1]}}}"#,
        r#"{"mappings": {"data": {"properties": {"a": {}}}}}"#,
        r#"{"mappings": {"data": {"properties": {"a": {"type": 1}}}}}"#,
    ] {
        assert!(selection::select_fields(&parsed(text), &bare(), 23).is_none(), "{}", text);
    }
    let empty = parsed(r#"{"mappings": {"data": {"properties": {}}}}"#);
    assert_eq!(selection::select_fields(&empty, &bare(), 23).unwrap().fields.len(), 0);
}

#[test]
fn order_of_columns_is_that_of_code_points() {
    let columns = vec![
        column("\u{1f600}", "int"),
        column("\u{ff5e}", "int"),
        column("ab", "int"),
        column("a", "int"),
        column("\u{e9}", "int"),
        column("Z", "int"),
    ];
    let mapping = mapping::create_mapping(&columns, &bare()).ok().unwrap();
    let selection = selection::select_fields(&mapping.document, &bare(), 23).unwrap();
    assert_eq!(selection.select, vec!["Z", "a", "ab", "\u{e9}", "\u{ff5e}", "\u{1f600}"]);
}

#[test]
fn mapping_is_sent_as_json() {
    let mapping = mapping::create_mapping(&vec![column("a", "int")], &bare()).ok().unwrap();
    assert_eq!(
        mapping.text(),
        "{\"mappings\":{\"data\":{\"properties\":{\"a\":{\"type\":\"integer\"}}}},\
         \"settings\":{\"analysis\":{\"analyzer\":{\"lowercase_analyzer\":\
         {\"filter\":[\"lowercase\"],\"tokenizer\":\"keyword\",\"type\":\"custom\"}}},\
         \"index\":{\"number_of_replicas\":0,\"number_of_shards\":28,\
         \"refresh_interval\":\"1s\"}}}"
    );
    assert_eq!(parsed(&mapping.text()), mapping.document);
}

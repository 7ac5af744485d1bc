use production_importer::document::{self, Cell, Decimal};
use production_importer::layout::{self, GeoField, Layout};
use production_importer::selection::Field;
use serde_json::Value;

fn usual() -> Layout {
    Layout {
        geo: Some(GeoField {
            name: "the_geom".to_string(),
            longitude: "locLongWGS84_wh".to_string(),
            latitude: "locLatWGS84_wh".to_string(),
        }),
        catchalls: layout::parse_catchalls(
            "id_catchall=eOwnerID,eNormalizedID,wprdOperIDHartStandard;\
             name_catchall=wlaAPIHartStandard,wlaWellNum,wlaWellName,wlaLeaseName,wlaLeaseNum",
        )
        .unwrap(),
    }
}

fn bare() -> Layout {
    Layout { geo: None, catchalls: Vec::new() }
}

fn field(name: &str) -> Field {
    Field { name: name.to_string(), date: false }
}

fn date(name: &str) -> Field {
    Field { name: name.to_string(), date: true }
}

fn text(s: &str) -> Cell {
    Cell::Text(Some(s.to_string()))
}

#[test]
fn cells_become_json() {
    let shown = |cell: Cell| document::cell_value(&cell).to_string();
    assert_eq!(shown(Cell::I32(Some(-5))), "-5");
    assert_eq!(shown(Cell::I32(None)), "0");
    assert_eq!(shown(Cell::I64(Some(i64::MAX))), "9223372036854775807");
    assert_eq!(shown(Cell::I64(None)), "0");
    assert_eq!(shown(Cell::Real(Some(Value::from(1.5f32)))), "1.5");
    assert_eq!(shown(Cell::Real(Some(Value::from(-0.25f64)))), "-0.25");
    assert_eq!(shown(Cell::Real(Some(Value::from(f64::NAN)))), "null");
    assert_eq!(shown(Cell::Real(None)), "0.0");
    assert_eq!(shown(Cell::Numeric(Decimal::Null)), "0");
    assert_eq!(shown(Cell::Numeric(Decimal::Unreadable)), "0.0");
    assert_eq!(shown(Cell::Numeric(Decimal::Number(Value::from(2.5f32)))), "2.5");
    assert_eq!(shown(text("a\"b\n")), "\"a\\\"b\\n\"");
    assert_eq!(shown(Cell::Text(None)), "\"\"");
    assert_eq!(shown(Cell::Other), "\"\"");
}

#[test]
fn null_reals_are_floating_point_zeros() {
    assert_eq!(document::cell_value(&Cell::Real(None)), Value::from(0f32));
    assert_eq!(document::cell_value(&Cell::Numeric(Decimal::Unreadable)), Value::from(0f64));
    assert_ne!(document::cell_value(&Cell::Numeric(Decimal::Null)), Value::from(0f32));
}

#[test]
fn dates_are_checked() {
    assert!(document::is_kept(&date("d"), &Value::from("2020-02-29"), 23));
    assert!(!document::is_kept(&date("d"), &Value::from("2021-02-29"), 23));
    assert!(!document::is_kept(&date("d"), &Value::from(""), 23));
    assert!(!document::is_kept(&date("d"), &Value::from("29/02/2020"), 23));
    assert!(!document::is_kept(&date("d"), &Value::from(0), 23));
    assert!(document::is_kept(&date("d"), &Value::from("\"2020-02-29"), 23) == false);
    assert!(document::is_kept(&field("d"), &Value::from("no date"), 23));
}

#[test]
fn row_becomes_document() {
    let fields = vec![
        field("eOwnerID"),
        date("good"),
        date("bad"),
        field("locLatWGS84_wh"),
        field("locLongWGS84_wh"),
        field("wlaWellName"),
    ];
    let row = vec![
        Cell::I32(Some(7)),
        text("2020-01-02"),
        text("n/a"),
        Cell::Real(Some(Value::from(45.5f64))),
        Cell::Real(Some(Value::from(-100.25f64))),
        text("No. \"1\""),
    ];
    let made = document::make_document(&row, &fields, &usual(), 23);
    let expected: Value = serde_json::from_str(
        r#"{
        "eOwnerID": 7,
        "good": "2020-01-02",
        "locLatWGS84_wh": 45.5,
        "locLongWGS84_wh": -100.25,
        "wlaWellName": "No. \"1\"",
        "the_geom": {"type": "point", "coordinates": [-100.25, 45.5]},
        "id_catchall": "7,null,null",
        "name_catchall": "null null \"No. \\\"1\\\"\" null null"
    }"#,
    )
    .unwrap();
    assert_eq!(made, expected);
}

#[test]
fn missing_coordinates_are_null() {
    let made = document::make_document(&Vec::new(), &Vec::new(), &usual(), 23);
    assert_eq!(made["the_geom"].to_string(), r#"{"coordinates":[null,null],"type":"point"}"#);
    assert_eq!(made["id_catchall"], "null,null,null");
}

#[test]
fn later_combined_field_sees_earlier_one() {
    let added = Layout {
        geo: None,
        catchalls: layout::parse_catchalls("one=a,b;two=one,b").unwrap(),
    };
    let fields = vec![field("a"), field("b")];
    let made = document::make_document(&vec![Cell::I32(Some(1)), Cell::I32(Some(2))], &fields, &added, 23);
    assert_eq!(made["one"], "1 2");
    assert_eq!(made["two"], "\"1 2\" 2");
}

#[test]
fn short_row_fills_the_first_fields() {
    let fields = vec![field("a"), field("b")];
    let made = document::make_document(&vec![Cell::I32(Some(1))], &fields, &bare(), 23);
    assert_eq!(made.to_string(), r#"{"a":1}"#);
}

#[test]
fn lines_of_a_bulk_request() {
    let fields = vec![field("b"), field("a")];
    let rows = vec![
        vec![Cell::I32(Some(1)), text("x\ny")],
        vec![Cell::I32(None), Cell::Text(None)],
    ];
    let lines = document::process_rows(&rows, &fields, &bare(), 23, "wells");
    assert_eq!(
        lines,
        vec![
            "{\"index\":{\"_index\":\"wells\",\"_type\":\"data\"}}\n",
            "{\"a\":\"x\\ny\",\"b\":1}\n",
            "{\"index\":{\"_index\":\"wells\",\"_type\":\"data\"}}\n",
            "{\"a\":\"\",\"b\":0}\n",
        ]
    );
    for line in &lines {
        assert_eq!(line.matches('\n').count(), 1);
    }
}

#[test]
fn body_of_a_bulk_request() {
    let fields = vec![field("a")];
    let rows = vec![vec![Cell::I32(Some(1))]];
    assert_eq!(
        document::build_elastic_body(&rows, &fields, &bare(), 23, "i"),
        "{\"index\":{\"_index\":\"i\",\"_type\":\"data\"}}\n{\"a\":1}\n\n"
    );
    assert_eq!(document::build_elastic_body(&Vec::new(), &fields, &bare(), 23, "i"), "\n");
}

#[test]
fn rows_go_in_parts() {
    let fields = vec![field("a")];
    let rows = |from: i32, to: i32| -> Vec<Vec<Cell>> {
        (from..to).map(|n| vec![Cell::I32(Some(n))]).collect()
    };
    let mut parts = document::process_rows(&rows(0, 3), &fields, &usual(), 23, "i");
    parts.extend(document::process_rows(&rows(3, 7), &fields, &usual(), 23, "i"));
    assert_eq!(parts, document::process_rows(&rows(0, 7), &fields, &usual(), 23, "i"));
}

#[test]
fn calendar_decides_on_dates() {
    for (s, kept) in [
        ("0000-01-01", true),
        ("9999-12-31", true),
        ("2000-02-29", true),
        ("1900-02-29", false),
        ("2020-04-30", true),
        ("2020-04-31", false),
        ("2020-12-31", true),
        ("2020-13-01", false),
        ("2020-00-10", false),
        ("2020-01-00", false),
        ("2020-01-32", false),
        ("20200102", false),
        ("2020 01 02", false),
    ] {
        assert_eq!(document::is_kept(&date("d"), &Value::from(s), 23), kept, "{}", s);
    }
}

#[test]
fn document_shows_every_column_that_is_not_added() {
    let fields = vec![field("a"), field("the_geom"), date("d")];
    let row = vec![Cell::I64(Some(3)), Cell::I64(Some(4)), text("2020-01-01")];
    let made = document::make_document(&row, &fields, &usual(), 23);
    assert_eq!(made["a"], 3);
    assert_eq!(made["d"], "2020-01-01");
    assert_eq!(made["the_geom"]["type"], "point");
    assert!(made.as_object().unwrap().contains_key("id_catchall"));
    assert!(made.as_object().unwrap().contains_key("name_catchall"));
}

#[test]
fn dates_stay_as_their_style_writes_them() {
    let fields = vec![date("d"), date("e"), field("f")];
    let row = vec![text("31/01/2020"), text("2020-01-31"), text("2020-01-31")];
    let made = document::make_document(&row, &fields, &bare(), 103);
    assert_eq!(made.to_string(), r#"{"d":"31/01/2020","f":"2020-01-31"}"#);
    let made = document::make_document(&row, &fields, &bare(), 23);
    assert_eq!(made.to_string(), r#"{"e":"2020-01-31","f":"2020-01-31"}"#);
    let rows = vec![vec![text("31/01/2020")]];
    assert_eq!(
        document::build_elastic_body(&rows, &fields, &bare(), 103, "i"),
        "{\"index\":{\"_index\":\"i\",\"_type\":\"data\"}}\n{\"d\":\"31/01/2020\"}\n\n"
    );
    assert!(document::is_kept(&date("d"), &Value::from("31/01/2020"), 103));
    assert!(!document::is_kept(&date("d"), &Value::from("31/02/2020"), 103));
}

#[test]
fn combined_fields_show_text_as_json_writes_it() {
    let added = Layout { geo: None, catchalls: layout::parse_catchalls("all=a,b,c").unwrap() };
    let fields = vec![field("a"), field("b"), field("c")];
    let row = vec![
        text("Gr\u{fc}n \u{4e95}\u{1f600}"),
        text("\u{7f}\u{a0}\u{2028}"),
        text("\"\\/\u{8}\t\n\u{c}\r\u{0}\u{b}\u{1f}"),
    ];
    let made = document::make_document(&row, &fields, &added, 23);
    assert_eq!(
        made["all"],
        "\"Gr\u{fc}n \u{4e95}\u{1f600}\" \"\u{7f}\u{a0}\u{2028}\" \
         \"\\\"\\\\/\\b\\t\\n\\f\\r\\u0000\\u000b\\u001f\""
    );
}

#[test]
fn texts_with_escapes_are_no_dates() {
    let kept = |s: &str, style: u16| document::is_kept(&date("d"), &Value::from(s), style);
    assert!(kept("2020-01-31", 23));
    assert!(kept(" 2020-01-31", 23));
    for s in ["\t2020-01-31", "2020-01-31\n", "\"2020-01-31\"", "2020\\-01-31", "\u{1}2020-01-31"] {
        assert!(!kept(s, 23), "{:?}", s);
        assert!(kept(s, 130), "{:?}", s);
    }
    assert!(!kept("", 130));
    assert!(kept("\"", 130));
}

use production_importer::config::{self, ConfigError, Settings, SettingsError};
use production_importer::layout;

const FILE: &str = "[CONFIG]
SQL_HOST=db.example.org
SQL_PORT=1433
SQL_USER=reader
SQL_PASS=a=b;c
SQL_DB=wells
SQL_PREFIX=dbo
SQL_TABLE=Production
ELASTIC_HOST=http://localhost:9200
ELASTIC_INDEX=production
ROWS_AT_ONCE=1000
THREADS=4
DATE_FORMAT=23
";

fn load(file: &str) -> Settings {
    match config::load_settings(file) {
        Ok(settings) => settings,
        Err(_) => panic!("no settings"),
    }
}

fn error(file: &str) -> SettingsError {
    match config::load_settings(file) {
        Err(ConfigError::Settings(error)) => error,
        _ => panic!("no settings error"),
    }
}

#[test]
fn settings_are_read() {
    let s = load(FILE);
    assert_eq!(s.host, "db.example.org");
    assert_eq!(s.port, 1433);
    assert_eq!(s.user, "reader");
    assert_eq!(s.password, "a=b;c");
    assert_eq!(s.database, "wells");
    assert_eq!(s.prefix, "dbo");
    assert_eq!(s.table, "Production");
    assert_eq!(s.elastic_host, "http://localhost:9200");
    assert_eq!(s.elastic_index, "production");
    assert_eq!(s.rows_at_once, "1000");
    assert_eq!(s.threads, 4);
    assert_eq!(s.date_style, 23);
    assert_eq!(s.auth.username, "");
    assert_eq!(s.auth.password, "");
    assert!(!s.index_created);
    assert_eq!(s.last_row, None);
}

#[test]
fn optional_settings_are_read() {
    let file = format!(
        "{}ELASTIC_USER=elastic\nELASTIC_PASS=changeme\nES_INDEX_CREATED=yes\nLAST_ROW=-17\n",
        FILE
    );
    let s = load(&file);
    assert_eq!(s.auth.username, "elastic");
    assert_eq!(s.auth.password, "changeme");
    assert!(s.index_created);
    assert_eq!(s.last_row, Some(-17));
    assert!(!load(&format!("{}ES_INDEX_CREATED=no\n", FILE)).index_created);
    assert!(!load(&format!("{}ES_INDEX_CREATED=YES\n", FILE)).index_created);
}

#[test]
fn first_value_of_a_key_counts() {
    let file = format!("{}# a comment\n\nLAST_ROW=5\nLAST_ROW=6", FILE);
    assert_eq!(load(&file).last_row, Some(5));
}

#[test]
fn byte_order_mark_is_skipped() {
    assert_eq!(load(&format!("\u{feff}{}", FILE)).host, "db.example.org");
}

#[test]
fn every_required_key_is_asked_for() {
    for key in [
        "SQL_HOST", "SQL_PORT", "SQL_USER", "SQL_PASS", "SQL_DB", "SQL_PREFIX", "SQL_TABLE",
        "ELASTIC_HOST", "ELASTIC_INDEX", "ROWS_AT_ONCE", "THREADS", "DATE_FORMAT",
    ] {
        let file = FILE.replace(&format!("\n{}=", key), "\nOTHER=");
        match error(&file) {
            SettingsError::Missing(missing) => assert_eq!(missing, key),
            _ => panic!("{} is not missed", key),
        }
    }
}

#[test]
fn first_missing_key_is_reported() {
    let file = FILE.replace("SQL_USER", "X").replace("SQL_TABLE", "Y");
    assert!(matches!(error(&file), SettingsError::Missing(key) if key == "SQL_USER"));
    let ini = ini::Ini::load_from_str(&file).unwrap();
    let section = ini.section(Some("CONFIG")).unwrap();
    assert_eq!(config::validate_config(section), Err("SQL_USER".to_string()));
    let ini = ini::Ini::load_from_str(FILE).unwrap();
    let section = ini.section(Some("CONFIG")).unwrap();
    assert_eq!(config::validate_config(section), Ok(()));
}

#[test]
fn elastic_auth_defaults_to_empty() {
    let ini = ini::Ini::load_from_str("[CONFIG]\nELASTIC_USER=me\n").unwrap();
    let auth = config::get_elastic_auth(ini.section(Some("CONFIG")).unwrap());
    assert_eq!(auth.username, "me");
    assert_eq!(auth.password, "");
}

#[test]
fn malformed_values_are_reported() {
    let with = |key: &str, value: &str| {
        error(&format!("{}\n", FILE.replace(
            FILE.lines().find(|l| l.starts_with(key)).unwrap(),
            &format!("{}={}", key, value),
        )))
    };
    assert!(matches!(with("SQL_PORT", "65536"), SettingsError::Port));
    assert!(matches!(with("THREADS", "-1"), SettingsError::Threads));
    assert!(matches!(with("THREADS", "18446744073709551616"), SettingsError::Threads));
    assert!(matches!(with("THREADS", "many"), SettingsError::Threads));
    assert!(matches!(with("DATE_FORMAT", "0"), SettingsError::DateFormat));
    assert!(matches!(with("DATE_FORMAT", "131"), SettingsError::DateFormat));
    assert!(matches!(error(&format!("{}LAST_ROW=x\n", FILE)), SettingsError::LastRow));
    assert!(matches!(error(&format!("{}CATCHALL=a,b\n", FILE)), SettingsError::Catchall));
}

#[test]
fn date_styles_are_one_to_hundred_thirty() {
    assert_eq!(config::parse_date_style("1"), Some(1));
    assert_eq!(config::parse_date_style("23"), Some(23));
    assert_eq!(config::parse_date_style("130"), Some(130));
    assert_eq!(config::parse_date_style("0"), None);
    assert_eq!(config::parse_date_style("131"), None);
    assert_eq!(config::parse_date_style(""), None);
}

#[test]
fn file_without_section_has_no_settings() {
    assert!(matches!(config::load_settings("[OTHER]\nA=b\n"), Err(ConfigError::NoSection)));
    assert!(matches!(config::load_settings("A=b\n"), Err(ConfigError::NoSection)));
}

#[test]
fn file_that_is_no_ini_is_unreadable() {
    assert!(matches!(
        config::load_settings("[CONFIG]\nno equals sign"),
        Err(ConfigError::Unreadable(_))
    ));
}

#[test]
fn nothing_is_added_by_default() {
    let added = load(FILE).layout;
    assert!(added.geo.is_none());
    assert!(added.catchalls.is_empty());
    assert!(!added.adds("the_geom"));
    let added = load(&format!("{}ELASTIC_GEO_FIELD=\nSQL_LON_FIELD=x\nCATCHALL=\n", FILE)).layout;
    assert!(added.geo.is_none());
    assert!(added.catchalls.is_empty());
    assert!(load(&format!("{}SQL_LON_FIELD=x\nSQL_LAT_FIELD=y\n", FILE)).layout.geo.is_none());
}

#[test]
fn coordinates_have_usual_columns() {
    let added = load(&format!("{}ELASTIC_GEO_FIELD=the_geom\n", FILE)).layout;
    let geo = added.geo.as_ref().unwrap();
    assert_eq!(geo.name, "the_geom");
    assert_eq!(geo.longitude, "locLongWGS84_wh");
    assert_eq!(geo.latitude, "locLatWGS84_wh");
    assert!(added.adds("the_geom"));
}

#[test]
fn configured_layout() {
    let file = format!(
        "{}ELASTIC_GEO_FIELD=where\nSQL_LON_FIELD=x\nSQL_LAT_FIELD=y\nCATCHALL=all=a,b;other=c\n",
        FILE
    );
    let added = load(&file).layout;
    let geo = added.geo.as_ref().unwrap();
    assert_eq!(geo.name, "where");
    assert_eq!(geo.longitude, "x");
    assert_eq!(geo.latitude, "y");
    assert_eq!(added.catchalls.len(), 2);
    assert_eq!(added.catchalls[0].name, "all");
    assert_eq!(added.catchalls[0].members, vec!["a", "b"]);
    assert_eq!(added.catchalls[1].members, vec!["c"]);
    assert!(added.adds("where"));
    assert!(added.adds("other"));
    assert!(!added.adds("a"));
}

#[test]
fn combined_fields_are_listed() {
    let found = layout::parse_catchalls(
        "myCombinedField=fieldA,FieldB;MyOtherCombinedField=fieldC;FieldZ",
    )
    .unwrap();
    assert_eq!(found.len(), 2);
    assert_eq!(found[0].name, "myCombinedField");
    assert_eq!(found[0].members, vec!["fieldA", "FieldB"]);
    assert_eq!(found[0].separator, " ");
    assert_eq!(found[1].name, "MyOtherCombinedField");
    assert_eq!(found[1].members, vec!["fieldC", "FieldZ"]);
}

#[test]
fn combined_fields_at_the_edges() {
    assert_eq!(layout::parse_catchalls("").unwrap().len(), 0);
    assert_eq!(layout::parse_catchalls(";;").unwrap().len(), 0);
    assert!(layout::parse_catchalls("a,b").is_none());
    assert!(layout::parse_catchalls("a;b=c").is_none());
    let found = layout::parse_catchalls("id_catchall=a=b,c;").unwrap();
    assert_eq!(found.len(), 1);
    assert_eq!(found[0].members, vec!["a=b", "c"]);
    assert_eq!(found[0].separator, ",");
}

#[test]
fn simple_lines_are_read_as_they_are() {
    let file = FILE
        .replace("SQL_HOST=db.example.org", "; HOST=no\n#SQL_HOST=no\n\nSQL_HOST=a b:c=d#e;f'g\"")
        .replace("SQL_USER=reader", "SQL_USER=")
        .replace("SQL_DB=wells", "SQL_DB==x\nSQL_DB=y");
    let s = load(&file);
    assert_eq!(s.host, "a b:c=d#e;f'g\"");
    assert_eq!(s.user, "");
    assert_eq!(s.database, "=x");
}

#[test]
fn threads_are_any_number() {
    for n in [0usize, 1, 65536, usize::MAX] {
        let file = FILE.replace("THREADS=4", &format!("THREADS={}", n));
        assert_eq!(load(&file).threads, n);
    }
}

#[test]
fn white_space_around_keys_and_values_does_not_count() {
    let file = FILE
        .replace("SQL_HOST=db.example.org", "  SQL_HOST = db.example.org\t")
        .replace("SQL_USER=reader", "SQL_USER: reader one")
        .replace("SQL_DB=wells", "\u{a0}SQL_DB\u{3000}=\u{2003}\u{fc}ber\u{85}")
        .replace("SQL_TABLE=Production", " \t\nSQL_TABLE = a:b=c ");
    let s = load(&file);
    assert_eq!(s.host, "db.example.org");
    assert_eq!(s.user, "reader one");
    assert_eq!(s.database, "\u{fc}ber");
    assert_eq!(s.table, "a:b=c");
}

#[test]
fn lines_before_the_section_do_not_count() {
    let s = load(&format!("# settings\n; of the import\n \t\n\nSQL_HOST=none\n{}", FILE));
    assert_eq!(s.host, "db.example.org");
}

#[test]
fn carriage_returns_do_not_count() {
    let s = load(&FILE.replace("\n", "\r\n").replace("SQL_USER=reader", "SQL_USER='a' "));
    assert_eq!(s.host, "db.example.org");
    assert_eq!(s.user, "a");
    assert_eq!(s.date_style, 23);
}

#[test]
fn quotes_and_escapes_are_resolved() {
    let with = |value: &str| load(&FILE.replace("reader", value)).user;
    assert_eq!(with("\"a b\""), "a b");
    assert_eq!(with("'a \"b'"), "a \"b");
    assert_eq!(with("  \" a \" b "), "a  b");
    assert_eq!(with("\"a\"b"), "ab");
    assert_eq!(with("''"), "");
    assert_eq!(with("a\"b\""), "a\"b\"");
    assert_eq!(with("\"a\\\"b\""), "a\"b");
    assert_eq!(with("a\\\\b"), "a\\b");
    assert_eq!(with("a\\tb\\n\\rc\\0"), "a\tb\n\rc\0");
    assert_eq!(with("\\a\\b\\c\\=\\\"d"), "\u{7}\u{8}c=\"d");
    assert_eq!(with("a\\t"), "a");
    let escaped = FILE.replace("SQL_USER=reader", "SQL\\_USER\\ = reader\nA\\=B=c");
    assert_eq!(load(&escaped).user, "reader");
}

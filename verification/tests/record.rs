use production_importer::config;
use production_importer::record;

fn lines(file: &str) -> Vec<String> {
    file.lines().map(|l| l.to_string()).collect()
}

const FILE: &str = "[CONFIG]\nSQL_HOST=h\nSQL_PORT=1\nSQL_USER=u\nSQL_PASS=p\nSQL_DB=d\n\
SQL_PREFIX=s\nSQL_TABLE=t\nELASTIC_HOST=e\nELASTIC_INDEX=i\nROWS_AT_ONCE=10\nTHREADS=1\n\
DATE_FORMAT=23\n";

#[test]
fn last_row_is_replaced() {
    assert_eq!(
        record::update_last_row(&lines("[CONFIG]\nLAST_ROW=5\nA=b"), 42),
        "[CONFIG]\nLAST_ROW=42\nA=b"
    );
}

#[test]
fn last_row_is_appended_where_there_is_none() {
    assert_eq!(record::update_last_row(&lines("[CONFIG]\nA=b\n"), -3), "[CONFIG]\nA=b\nLAST_ROW=-3");
    assert_eq!(record::update_last_row(&Vec::new(), 0), "LAST_ROW=0");
}

#[test]
fn every_line_with_the_key_is_replaced() {
    assert_eq!(
        record::update_last_row(&lines("# LAST_ROW below\nOLD_LAST_ROW=1\nLAST_ROW=2"), 3),
        "LAST_ROW=3\nLAST_ROW=3\nLAST_ROW=3"
    );
}

#[test]
fn index_is_marked_as_created() {
    assert_eq!(
        record::mark_index_created(&lines("[CONFIG]\nES_INDEX_CREATED=no\nA=b")),
        "[CONFIG]\nES_INDEX_CREATED=yes\nA=b"
    );
    assert_eq!(
        record::mark_index_created(&lines("[CONFIG]\nA=b")),
        "[CONFIG]\nA=b\nES_INDEX_CREATED=yes"
    );
}

#[test]
fn later_record_wins() {
    let start = lines("[CONFIG]\nA=b");
    let twice = record::update_last_row(&lines(&record::update_last_row(&start, 1)), 2);
    assert_eq!(twice, record::update_last_row(&start, 2));
}

#[test]
fn import_resumes_at_the_record() {
    let file = record::update_last_row(&lines(FILE), 77);
    let file = record::mark_index_created(&lines(&file));
    let file = record::update_last_row(&lines(&file), -78);
    match config::load_settings(&file) {
        Ok(settings) => {
            assert_eq!(settings.last_row, Some(-78));
            assert!(settings.index_created);
            assert_eq!(settings.host, "h");
            assert_eq!(settings.table, "t");
        }
        Err(_) => panic!("no settings"),
    }
}

fn load(file: &str) -> config::Settings {
    match config::load_settings(file) {
        Ok(settings) => settings,
        Err(_) => panic!("no settings"),
    }
}

#[test]
fn record_counts_whatever_the_file_held() {
    for held in [
        "LAST_ROW=5\nLAST_ROW=6",
        "  LAST_ROW : 5  ",
        "# LAST_ROW=5",
        "OLD_LAST_ROW=5",
        "note=about LAST_ROW\nLAST_ROW=7",
        "",
    ] {
        let settings = load(&record::update_last_row(&lines(&format!("{}{}", FILE, held)), 42));
        assert_eq!(settings.last_row, Some(42), "{}", held);
        assert_eq!(settings.host, "h");
        assert_eq!(settings.date_style, 23);
    }
    for held in ["ES_INDEX_CREATED=no", "ES_INDEX_CREATED = no\nES_INDEX_CREATED=maybe", ""] {
        let settings = load(&record::mark_index_created(&lines(&format!("{}{}", FILE, held))));
        assert!(settings.index_created, "{}", held);
        assert_eq!(settings.table, "t");
    }
}

#[test]
fn other_keys_keep_their_first_value() {
    let file = FILE.replace("SQL_HOST=h", "SQL_HOST = db:1 \nSQL_HOST=LAST_ROW");
    let settings = load(&record::update_last_row(&lines(&file), 1));
    assert_eq!(settings.host, "db:1");
    assert_eq!(settings.last_row, Some(1));
}

#[test]
fn key_whose_first_line_mentions_the_record_loses_it() {
    let file = FILE.replace("SQL_HOST=h", "SQL_HOST=LAST_ROW\nSQL_HOST=second");
    let settings = load(&record::update_last_row(&lines(&file), 1));
    assert_eq!(settings.host, "second");
    assert_eq!(settings.last_row, Some(1));
}

#[test]
fn record_is_read_back_beside_quotes_escapes_and_comments() {
    let file = format!(
        "; settings\n\n{}LAST_ROW=\"5\"\nNOTE=C:\\\\temp",
        FILE.replace("SQL_HOST=h", "SQL_HOST='h \\'i\\''")
    );
    let settings = load(&record::update_last_row(&lines(&file), 42));
    assert_eq!(settings.last_row, Some(42));
    assert_eq!(settings.host, "h 'i'");
}

#[test]
fn record_before_the_section_needs_one_in_it() {
    let file = format!("# LAST_ROW\n{}LAST_ROW=5\n", FILE);
    assert_eq!(load(&record::update_last_row(&lines(&file), 42)).last_row, Some(42));
    let file = format!("# LAST_ROW\n{}", FILE);
    assert_eq!(load(&record::update_last_row(&lines(&file), 42)).last_row, None);
}

#[test]
fn escaped_key_hides_a_record() {
    let file = format!("{}LAST\\_ROW=5\n", FILE);
    assert_eq!(load(&record::update_last_row(&lines(&file), 42)).last_row, Some(5));
    let file = format!("{}LAST_ROW=4\nLAST\\_ROW=5\n", FILE);
    assert_eq!(load(&record::update_last_row(&lines(&file), 42)).last_row, Some(42));
}

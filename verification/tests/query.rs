use production_importer::config::{self, Settings};
use production_importer::mapping::{Lookup, LookupError};
use production_importer::query;

fn settings() -> Settings {
    match config::load_settings(
        "[CONFIG]\nSQL_HOST=h\nSQL_PORT=1\nSQL_USER=u\nSQL_PASS=p\nSQL_DB=wells\n\
SQL_PREFIX=dbo\nSQL_TABLE=Production\nELASTIC_HOST=e\nELASTIC_INDEX=i\nROWS_AT_ONCE=10\n\
THREADS=1\nDATE_FORMAT=23\n",
    ) {
        Ok(settings) => settings,
        Err(_) => panic!("no settings"),
    }
}

#[test]
fn query_for_primary_key() {
    assert_eq!(
        query::primary_key_query(&settings()),
        "SELECT COLUMN_NAME FROM INFORMATION_SCHEMA.KEY_COLUMN_USAGE WHERE OBJECTPROPERTY(OBJECT_ID(CONSTRAINT_SCHEMA + '.' + QUOTENAME(CONSTRAINT_NAME)), 'IsPrimaryKey') = 1 AND TABLE_SCHEMA ='dbo' AND TABLE_CATALOG = 'wells' AND TABLE_NAME ='Production'"
    );
}

#[test]
fn query_for_columns() {
    assert_eq!(
        query::mapping_query(&settings()),
        "SELECT DATA_TYPE , COLUMN_NAME FROM INFORMATION_SCHEMA.COLUMNS WHERE TABLE_SCHEMA ='dbo' AND TABLE_CATALOG = 'wells' AND TABLE_NAME ='Production'"
    );
}

#[test]
fn query_for_number_of_rows() {
    assert_eq!(
        query::total_rows_query(&settings(), "ID", 12),
        "SELECT count(*) as  total from wells.dbo.Production where ID > 12"
    );
}

#[test]
fn query_for_batch() {
    let select = vec!["A".to_string(), "convert(varchar, D, 23) as D".to_string()];
    assert_eq!(
        query::batch_query(&settings(), "1000", &select, "ID", -1),
        "SELECT TOP 1000 A,convert(varchar, D, 23) as D from wells.dbo.Production where ID > -1  ORDER BY ID asc"
    );
}

#[test]
fn primary_key_must_be_there() {
    assert!(matches!(query::get_primary_key(&Lookup::Text("ID".to_string())), Ok(key) if key == "ID"));
    match query::get_primary_key(&Lookup::Null) {
        Err(LookupError::UnexpectedNull) => {}
        _ => panic!("null is no key"),
    }
    match query::get_primary_key(&Lookup::Failed("bad".to_string())) {
        Err(error) => assert_eq!(error.message(), "bad"),
        Ok(_) => panic!("no key"),
    }
    assert_eq!(LookupError::UnexpectedNull.message(), "Unexpected null");
}

use production_importer::config::{self, Settings};
use production_importer::import::{self, Action, Connecting, Event, Import, Outcome, Stage};

fn settings() -> Settings {
    match config::load_settings(
        "[CONFIG]\nSQL_HOST=h\nSQL_PORT=1433\nSQL_USER=u\nSQL_PASS=p\nSQL_DB=d\nSQL_PREFIX=s\n\
SQL_TABLE=t\nELASTIC_HOST=e\nELASTIC_INDEX=i\nROWS_AT_ONCE=10\nTHREADS=1\nDATE_FORMAT=23\n",
    ) {
        Ok(settings) => settings,
        Err(_) => panic!("no settings"),
    }
}

#[test]
fn first_connection_goes_to_the_settings() {
    let target = import::first_target(&settings());
    assert_eq!(target.host, "h");
    assert_eq!(target.port, 1433);
    assert_eq!(target.database, "d");
    assert_eq!(target.user, "u");
    assert_eq!(target.password, "p");
    assert!(target.trust_cert);
}

#[test]
fn one_redirection_is_followed() {
    let routed = || Outcome::Routed { host: "other".to_string(), port: 99 };
    match import::after_attempt(&settings(), false, routed()) {
        Connecting::Retry(target) => {
            assert_eq!(target.host, "other");
            assert_eq!(target.port, 99);
            assert_eq!(target.database, "d");
            assert_eq!(target.user, "u");
            assert_eq!(target.password, "p");
            assert!(!target.trust_cert);
        }
        _ => panic!("not followed"),
    }
    assert!(matches!(import::after_attempt(&settings(), true, routed()), Connecting::HandOn));
}

#[test]
fn other_ends_of_an_attempt() {
    let s = settings();
    assert!(matches!(import::after_attempt(&s, false, Outcome::Connected), Connecting::Done));
    assert!(matches!(import::after_attempt(&s, true, Outcome::Connected), Connecting::Done));
    assert!(matches!(import::after_attempt(&s, false, Outcome::Failed), Connecting::Stop));
    assert!(matches!(import::after_attempt(&s, true, Outcome::Failed), Connecting::HandOn));
}

#[test]
fn import_without_record_starts_at_zero() {
    let (state, action) = import::begin(None);
    assert_eq!(action, Action::Store { last_row: 0 });
    let (state, action) = import::step(state, Event::Stored);
    assert_eq!(action, Action::Fetch { after: 0 });
    assert_eq!(state, Import { last_row: 0, stage: Stage::Fetching });
}

#[test]
fn batches_follow_each_other() {
    let (state, action) = import::begin(Some(10));
    assert_eq!(action, Action::Fetch { after: 10 });
    let (state, action) = import::step(state, Event::Fetched { last_entry: 20 });
    assert_eq!(action, Action::Insert);
    assert_eq!(state.last_row, 10);
    let (state, action) = import::step(state, Event::Inserted);
    assert_eq!(action, Action::Store { last_row: 20 });
    let (state, action) = import::step(state, Event::Stored);
    assert_eq!(action, Action::Fetch { after: 20 });
    let (state, action) = import::step(state, Event::Exhausted);
    assert_eq!(action, Action::Finish);
    assert_eq!(state, Import { last_row: 20, stage: Stage::Finished });
}

#[test]
fn refused_batch_leaves_the_last_row() {
    let (state, _) = import::begin(Some(10));
    let (state, _) = import::step(state, Event::Fetched { last_entry: 20 });
    let (state, action) = import::step(state, Event::Refused);
    assert_eq!(action, Action::Abort);
    assert_eq!(state, Import { last_row: 10, stage: Stage::Failed });
}

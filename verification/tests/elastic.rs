use production_importer::elastic::{self, BulkFailure, Reply, Verdict};

fn judged(status: &str, body: &str) -> Verdict {
    match elastic::judge_bulk(status, body) {
        Reply::Judged(verdict) => verdict,
        _ => panic!("no verdict"),
    }
}

#[test]
fn addresses() {
    assert_eq!(elastic::index_url("http://h:9200", "i"), "http://h:9200/i");
    assert_eq!(elastic::bulk_url("http://h:9200"), "http://h:9200/_bulk?wait_for_active_shards=0");
}

#[test]
fn only_ok_is_success() {
    assert!(elastic::is_success("200 OK"));
    assert!(!elastic::is_success("201 Created"));
    assert!(!elastic::is_success("200"));
}

#[test]
fn accepted_batch() {
    let verdict = judged("200 OK", r#"{"took":3,"errors":false,"items":[]}"#);
    assert!(verdict.rejected.is_none());
    assert!(verdict.failure.is_none());
    let verdict = judged("200 OK", "[1]");
    assert!(verdict.rejected.is_none());
    assert!(verdict.failure.is_none());
}

#[test]
fn read_only_index_fails_whatever_the_rest_says() {
    let verdict = judged("200 OK", "not json: FORBIDDEN/12/index read-only / allow delete");
    assert!(verdict.rejected.is_none());
    match verdict.failure {
        Some(BulkFailure::ReadOnly) => {}
        _ => panic!("not read only"),
    }
    assert_eq!(
        BulkFailure::ReadOnly.message(),
        "ElasticSearch Index is READ ONLY, Stopping Import"
    );
}

#[test]
fn unknown_status_fails() {
    let verdict = judged("413 Payload Too Large", "{}");
    assert_eq!(
        verdict.failure.unwrap().message(),
        "ElasticSearch responded with an unknown status: 413 Payload Too Large"
    );
    assert_eq!(BulkFailure::Request("timeout".to_string()).message(), "Request Error timeout");
}

#[test]
fn rejected_item_is_kept() {
    let verdict = judged(
        "200 OK",
        r#"{"errors": true, "items": [{"index": {"status": 400, "_id": "x"}}, {"index": {"status": 200}}]}"#,
    );
    assert_eq!(verdict.rejected.as_deref(), Some(r#"{"index":{"_id":"x","status":400}}"#));
    assert!(verdict.failure.is_none());
}

#[test]
fn first_item_decides() {
    for body in [
        r#"{"errors": true, "items": [{"index": {"status": 201}}, {"index": {"status": 400}}]}"#,
        r#"{"errors": true, "items": [{"index": {"status": 400.0}}]}"#,
        r#"{"errors": true, "items": [{"index": {"status": "400"}}]}"#,
        r#"{"errors": true, "items": [null]}"#,
        r#"{"errors": true, "items": {}}"#,
        r#"{"errors": true}"#,
        r#"{"errors": "true", "items": [{"index": {"status": 400}}]}"#,
        r#"{"errors": false, "items": [{"index": {"status": 400}}]}"#,
    ] {
        let verdict = judged("200 OK", body);
        assert!(verdict.rejected.is_none(), "{}", body);
        assert!(verdict.failure.is_none(), "{}", body);
    }
}

#[test]
fn rejected_item_and_unknown_status() {
    let verdict =
        judged("400 Bad Request", r#"{"errors": true, "items": [{"index": {"status": 400}}]}"#);
    assert!(verdict.rejected.is_some());
    assert!(matches!(verdict.failure, Some(BulkFailure::UnknownStatus(s)) if s == "400 Bad Request"));
}

#[test]
fn reply_that_cannot_be_judged() {
    assert!(matches!(elastic::judge_bulk("200 OK", "<html>"), Reply::NotJson(_)));
    assert!(matches!(elastic::judge_bulk("200 OK", ""), Reply::NotJson(_)));
    assert!(matches!(
        elastic::judge_bulk("200 OK", r#"{"errors": true, "items": []}"#),
        Reply::NoItems
    ));
}

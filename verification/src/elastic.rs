//! Requests to ElasticSearch, and what its replies mean.

use crate::json::{self, Json};
use crate::text;
use serde_json::Value;
use vstd::prelude::*;
use vstd::string::*;

verus! {

/// The address of an index.
pub fn index_url(host: &str, index: &str) -> (r: String)
    ensures
        r@ == host@ + "/"@ + index@,
{
    let mut out = host.to_owned();
    out.append("/");
    out.append(index);
    out
}

/// The address that takes bulk requests.
pub fn bulk_url(host: &str) -> (r: String)
    ensures
        r@ == host@ + "/_bulk?wait_for_active_shards=0"@,
{
    let mut out = host.to_owned();
    out.append("/_bulk?wait_for_active_shards=0");
    out
}

/// Whether a reply of that status says that the request was carried out.
pub fn is_success(status: &str) -> (r: bool)
    ensures
        r == (status@ == "200 OK"@),
{
    text::same_text(status, "200 OK")
}

/// Why a batch did not go into the index.
pub enum BulkFailure {
    /// The index takes no documents.
    ReadOnly,
    /// ElasticSearch answered with that status.
    UnknownStatus(String),
    /// The request failed for that reason.
    Request(String),
}

/// A `BulkFailure` as mathematics sees it.
pub enum FailureModel {
    ReadOnly,
    UnknownStatus(Seq<char>),
    Request(Seq<char>),
}

impl View for BulkFailure {
    type V = FailureModel;

    open spec fn view(&self) -> FailureModel {
        match *self {
            BulkFailure::ReadOnly => FailureModel::ReadOnly,
            BulkFailure::UnknownStatus(status) => FailureModel::UnknownStatus(status@),
            BulkFailure::Request(reason) => FailureModel::Request(reason@),
        }
    }
}

impl BulkFailure {
    /// What the failure says to a reader.
    pub fn message(&self) -> (r: String)
        ensures
            r@ == (match self@ {
                FailureModel::ReadOnly => "ElasticSearch Index is READ ONLY, Stopping Import"@,
                FailureModel::UnknownStatus(status) => {
                    "ElasticSearch responded with an unknown status: "@ + status
                },
                FailureModel::Request(reason) => "Request Error "@ + reason,
            }),
    {
        match self {
            BulkFailure::ReadOnly => {
                String::from_str("ElasticSearch Index is READ ONLY, Stopping Import")
            },
            BulkFailure::UnknownStatus(status) => {
                String::from_str("ElasticSearch responded with an unknown status: ").concat(
                    status.as_str(),
                )
            },
            BulkFailure::Request(reason) => {
                String::from_str("Request Error ").concat(reason.as_str())
            },
        }
    }
}

/// What the reply to a bulk request means.
pub struct Verdict {
    /// The item that was not taken, as JSON text.
    pub rejected: Option<String>,
    /// Why the batch did not go into the index, where it did not.
    pub failure: Option<BulkFailure>,
}

/// The reply says that some items were not taken.
pub open spec fn has_errors(reply: Json) -> bool {
    json::member_of(reply, "errors"@) == Json::Bool(true)
}

/// The reply says that some items were not taken, and lists no item.
pub open spec fn lists_nothing(reply: Json) -> bool {
    has_errors(reply) && (json::member_of(reply, "items"@) matches Json::Array(items)
        && items.len() == 0)
}

/// The first item of a reply with errors, where it was refused as malformed.
pub open spec fn rejected_item(reply: Json) -> Option<Json> {
    match json::member_of(reply, "items"@) {
        Json::Array(items) => {
            let status = json::member_of(json::member_of(items[0], "index"@), "status"@);
            if has_errors(reply) && items.len() > 0 && status == Json::Int(400) {
                Some(items[0])
            } else {
                None
            }
        },
        _ => None,
    }
}

/// Whether the verdict on a reply of that status is what the reply means.
pub open spec fn is_verdict(verdict: Verdict, status: Seq<char>, reply: Json) -> bool {
    &&& match verdict.rejected {
        Some(item) => rejected_item(reply) is Some && item@ == json::json_text(
            rejected_item(reply)->0,
        ),
        None => rejected_item(reply) is None,
    }
    &&& match verdict.failure {
        Some(failure) => status != "200 OK"@ && failure@ == FailureModel::UnknownStatus(status),
        None => status == "200 OK"@,
    }
}

/// Judges the reply to a bulk request by its status and its document. Of the items that a reply
/// with errors lists, the first one is looked at. `None` where such a reply lists no item.
pub fn judge_reply(status: &str, reply: &Value) -> (r: Option<Verdict>)
    ensures
        match r {
            Some(verdict) => !lists_nothing(json::json_of(*reply)) && is_verdict(
                verdict,
                status@,
                json::json_of(*reply),
            ),
            None => lists_nothing(json::json_of(*reply)),
        },
        r is None <==> json::member_of(json::json_of(*reply), "errors"@) == Json::Bool(true)
            && json::member_of(json::json_of(*reply), "items"@) is Array && json::member_of(
            json::json_of(*reply),
            "items"@,
        )->Array_0.len() == 0,
        r matches Some(verdict) ==> ({
            let items = json::member_of(json::json_of(*reply), "items"@);
            let refused = json::member_of(json::json_of(*reply), "errors"@) == Json::Bool(true) && items is Array
                && items->Array_0.len() > 0 && json::member_of(
                json::member_of(items->Array_0[0], "index"@),
                "status"@,
            ) == Json::Int(400);
            &&& verdict.failure is None <==> status@ == "200 OK"@
            &&& verdict.failure is Some ==> verdict.failure->0 is UnknownStatus
                && verdict.failure->0->UnknownStatus_0@ == status@
            &&& verdict.rejected is Some <==> refused
            &&& verdict.rejected is Some ==> verdict.rejected->0@ == json::json_text(
                items->Array_0[0],
            )
        }),
{
    let errors: bool = match json::as_bool(json::member(reply, "errors")) {
        Some(b) => b,
        None => false,
    };
    let mut rejected: Option<String> = None;
    if errors {
        if let Some(items) = json::as_array(json::member(reply, "items")) {
            if items.len() == 0 {
                assert(json::jsons_of(items@).len() == 0);
                return None;
            }
            let first = &items[0];
            assert(json::jsons_of(items@)[0] == json::json_of(*first));
            if json::equals_integer(json::member(json::member(first, "index"), "status"), 400) {
                rejected = Some(json::text(first));
            }
        }
    }
    let failure = if is_success(status) {
        None
    } else {
        Some(BulkFailure::UnknownStatus(status.to_owned()))
    };
    Some(Verdict { rejected, failure })
}

/// The reply to a bulk request.
pub enum Reply {
    /// The reply means this.
    Judged(Verdict),
    /// The reply is not JSON.
    NotJson(serde_json::Error),
    /// The reply says that some items were not taken, and lists no item.
    NoItems,
}

/// The text says that the index takes no documents.
pub open spec fn says_read_only(body: Seq<char>) -> bool {
    text::occurs(body, "FORBIDDEN/12/index read-only"@)
}

/// Judges the reply to a bulk request by its status and its text.
pub fn judge_bulk(status: &str, body: &str) -> (r: Reply)
    ensures
        match r {
            Reply::Judged(verdict) => if says_read_only(body@) {
                verdict.rejected is None && verdict.failure matches Some(BulkFailure::ReadOnly)
            } else {
                json::json_read(body@) matches Some(reply) && !lists_nothing(reply) && is_verdict(
                    verdict,
                    status@,
                    reply,
                )
            },
            Reply::NotJson(_) => !says_read_only(body@) && json::json_read(body@) is None,
            Reply::NoItems => !says_read_only(body@) && (json::json_read(body@) matches Some(reply)
                && lists_nothing(reply)),
        },
        text::occurs(body@, "FORBIDDEN/12/index read-only"@) <==> (r is Judged
            && r->Judged_0.failure is Some && r->Judged_0.failure->0 is ReadOnly),
        text::occurs(body@, "FORBIDDEN/12/index read-only"@) ==> r->Judged_0.rejected is None,
        !text::occurs(body@, "FORBIDDEN/12/index read-only"@) ==> (r is NotJson <==> json::json_read(
            body@,
        ) is None),
        r matches Reply::Judged(verdict) ==> !text::occurs(body@, "FORBIDDEN/12/index read-only"@)
            ==> ({
            let items = json::member_of(json::json_read(body@)->0, "items"@);
            let refused = json::member_of(json::json_read(body@)->0, "errors"@) == Json::Bool(true) && items is Array
                && items->Array_0.len() > 0 && json::member_of(
                json::member_of(items->Array_0[0], "index"@),
                "status"@,
            ) == Json::Int(400);
            &&& verdict.failure is None <==> status@ == "200 OK"@
            &&& verdict.failure is Some ==> verdict.failure->0 is UnknownStatus
                && verdict.failure->0->UnknownStatus_0@ == status@
            &&& verdict.rejected is Some <==> refused
            &&& verdict.rejected is Some ==> verdict.rejected->0@ == json::json_text(
                items->Array_0[0],
            )
        }),
{
    if text::contains(body, "FORBIDDEN/12/index read-only") {
        return Reply::Judged(
            Verdict { rejected: None, failure: Some(BulkFailure::ReadOnly) },
        );
    }
    match json::parse(body) {
        Ok(reply) => match judge_reply(status, &reply) {
            Some(verdict) => Reply::Judged(verdict),
            None => Reply::NoItems,
        },
        Err(error) => Reply::NotJson(error),
    }
}

/// What mathematics sees of a failure is what it holds.
pub proof fn law_failure_is_seen(failure: BulkFailure)
    ensures
        failure is ReadOnly <==> failure@ is ReadOnly,
        failure matches BulkFailure::UnknownStatus(status) ==> failure@
            == FailureModel::UnknownStatus(status@),
        failure matches BulkFailure::Request(reason) ==> failure@ == FailureModel::Request(
            reason@,
        ),
{
}

/// The item that a reply rejects is the first one that it lists, and it is rejected where the reply
/// reports errors and the item has the status of a malformed request.
pub proof fn law_first_item_is_judged(reply: Json, items: Seq<Json>)
    requires
        json::member_of(reply, "items"@) == Json::Array(items),
    ensures
        items.len() > 0 ==> (rejected_item(reply) is Some <==> json::member_of(reply, "errors"@)
            == Json::Bool(true) && json::member_of(
            json::member_of(items[0], "index"@),
            "status"@,
        ) == Json::Int(400)),
        rejected_item(reply) is Some ==> rejected_item(reply)->0 == items[0],
        items.len() == 0 ==> rejected_item(reply) is None,
        lists_nothing(reply) <==> items.len() == 0 && json::member_of(reply, "errors"@)
            == Json::Bool(true),
{
}

/// A batch is in the index where the status of the reply is that of success, and fails with that
/// status otherwise, whatever the reply says of its items.
pub proof fn law_status_decides(verdict: Verdict, status: Seq<char>, reply: Json)
    requires
        is_verdict(verdict, status, reply),
    ensures
        verdict.failure is None <==> status == "200 OK"@,
        verdict.failure is Some ==> verdict.failure->0@ == FailureModel::UnknownStatus(status),
        verdict.rejected is Some <==> rejected_item(reply) is Some,
        verdict.rejected is Some ==> verdict.rejected->0@ == json::json_text(
            rejected_item(reply)->0,
        ),
{
}

} // verus!

//! Publishing an issue through the idempotency gateway.
use vstd::prelude::*;
use vstd::string::{StringExecFns, StringSliceAdditionalSpecFns, StrSliceExecFns};
use crate::idempotency::{GatewayError, HeaderPair, ResponseView, SavedResponse};
use crate::store::{
    BeginOutcome, Datastore, IssueRow, IssueView, NextAction, StoreView, TxView, begin_outcome,
    begin_store, claim_at, complete_store, fan_out, has_issue, lemma_claim_index, lemma_fan_out,
    lemma_fan_out_distinct,
    store_wf,
};

verus! {

/// The fields of a publish request.
pub struct FormData {
    pub title: String,
    pub text_content: String,
    pub html_content: String,
    pub idempotency_key: String,
}

pub ghost struct FormView {
    pub title: Seq<char>,
    pub text_content: Seq<char>,
    pub html_content: Seq<char>,
    pub idempotency_key: Seq<char>,
}

impl View for FormData {
    type V = FormView;

    open spec fn view(&self) -> FormView {
        FormView {
            title: self.title@,
            text_content: self.text_content@,
            html_content: self.html_content@,
            idempotency_key: self.idempotency_key@,
        }
    }
}

/// Where an accepted publish request sends the browser.
pub const NEWSLETTER_PAGE: &'static str = "/admin/newsletters";

/// The notice shown once an issue is queued.
pub const ACCEPTED_NOTICE: &'static str = "The newsletter issue has been accepted -emails will go out shortly!";

pub const SEE_OTHER: u16 = 303;

/// The response to an accepted issue: a redirect to the newsletter page
/// whose body is the notice.
pub open spec fn accepted_response() -> ResponseView {
    ResponseView {
        status_code: SEE_OTHER,
        headers: seq![("location"@, NEWSLETTER_PAGE.spec_bytes())],
        body: ACCEPTED_NOTICE.spec_bytes(),
    }
}

pub fn accepted_response_exec() -> (r: SavedResponse)
    ensures
        r@ == accepted_response(),
{
    let mut headers: Vec<HeaderPair> = Vec::new();
    headers.push(
        HeaderPair { name: String::from_str("location"), value: NEWSLETTER_PAGE.as_bytes_vec() },
    );
    let r = SavedResponse {
        status_code: SEE_OTHER,
        headers,
        body: ACCEPTED_NOTICE.as_bytes_vec(),
    };
    proof {
        assert(r@.headers =~= accepted_response().headers);
    }
    r
}

pub open spec fn issue_of(id: u128, form: FormView) -> IssueView {
    IssueView {
        id,
        title: form.title,
        text_body: form.text_content,
        html_body: form.html_content,
    }
}

/// The writes of a publish command: the issue and one task per confirmed
/// subscriber.
pub open spec fn publish_tx(s: StoreView, p: u128, form: FormView, id: u128, now: u64) -> TxView {
    TxView {
        principal: p,
        key: form.idempotency_key,
        issue: Some(issue_of(id, form)),
        tasks: fan_out(s.subscribers, id, now),
    }
}

/// The store after a publish request with issue id `id`: only a request that
/// starts the command writes, and then the issue, its tasks and the response
/// land together.
pub open spec fn publish_store(s: StoreView, p: u128, form: FormView, id: u128, now: u64) -> StoreView {
    let k = form.idempotency_key;
    if begin_outcome(s, p, k) is Start {
        complete_store(begin_store(s, p, k, now), publish_tx(s, p, form, id, now), accepted_response())
    } else {
        s
    }
}

/// The answer to a publish request with issue id `id`.
pub open spec fn publish_result(s: StoreView, p: u128, form: FormView, id: u128) -> Result<
    ResponseView,
    GatewayError,
> {
    match begin_outcome(s, p, form.idempotency_key) {
        BeginOutcome::Refused => Err(GatewayError::InvalidKey),
        BeginOutcome::InFlight => Err(GatewayError::ConcurrentClaimTimeout),
        BeginOutcome::Replay(r) => Ok(r),
        BeginOutcome::Start => if has_issue(s.issues, id) {
            Err(GatewayError::PersistenceError)
        } else {
            Ok(accepted_response())
        },
    }
}

pub open spec fn result_view(r: Result<SavedResponse, GatewayError>) -> Result<ResponseView, GatewayError> {
    match r {
        Ok(resp) => Ok(resp@),
        Err(e) => Err(e),
    }
}

/// Publishes an issue under the request's idempotency key: the first request
/// for (principal, key) stores the issue with id `issue_id`, queues one
/// delivery per confirmed subscriber and saves the accepted response; every
/// later one gets that response back and changes nothing. A claim held by a
/// request still running is reported as `ConcurrentClaimTimeout`.
pub fn publish_newsletter_with_id(
    store: &mut Datastore,
    principal: u128,
    form: &FormData,
    issue_id: u128,
    now: u64,
) -> (r: Result<SavedResponse, GatewayError>)
    requires
        store_wf(old(store)@),
    ensures
        store_wf(final(store)@),
        final(store)@ == publish_store(old(store)@, principal, form@, issue_id, now),
        result_view(r) == publish_result(old(store)@, principal, form@, issue_id),
{
    let ghost s = store@;
    match store.begin_or_replay(principal, form.idempotency_key.as_str(), now) {
        Err(e) => Err(e),
        Ok(NextAction::InFlight) => Err(GatewayError::ConcurrentClaimTimeout),
        Ok(NextAction::ReturnSaved(resp)) => Ok(resp),
        Ok(NextAction::StartProcessing(mut tx)) => {
            tx.insert_issue(
                IssueRow {
                    id: issue_id,
                    title: form.title.clone(),
                    text_body: form.text_content.clone(),
                    html_body: form.html_content.clone(),
                },
            );
            tx.enqueue_delivery_tasks(store, now);
            proof {
                assert(tx@.tasks =~= fan_out(s.subscribers, issue_id, now));
                assert(tx@ == publish_tx(s, principal, form@, issue_id, now));
                let s1 = begin_store(s, principal, form@.idempotency_key, now);
                assert(claim_at(s1.claims, principal, form@.idempotency_key, s.claims.len() as int));
                lemma_claim_index(s1, principal, form@.idempotency_key, s.claims.len() as int);
                lemma_fan_out(s.subscribers, issue_id, now);
                lemma_fan_out_distinct(s.subscribers, issue_id, now);
            }
            store.complete(tx, accepted_response_exec())
        },
    }
}

/// Relies on uuid::Uuid::new_v4 and Uuid::as_u128: a random id whose version
/// bits read 4 and whose variant bits read 10.
#[verifier::external_body]
fn new_issue_id() -> (r: u128)
    ensures
        r & 0xF000_C000_0000_0000_0000 == 0x4000_8000_0000_0000_0000,
{
    uuid::Uuid::new_v4().as_u128()
}

/// `publish_newsletter_with_id` under a fresh random (version 4) issue id.
pub fn publish_newsletter(store: &mut Datastore, principal: u128, form: &FormData, now: u64) -> (r:
    Result<SavedResponse, GatewayError>)
    requires
        store_wf(old(store)@),
    ensures
        store_wf(final(store)@),
        exists|id: u128|
            id & 0xF000_C000_0000_0000_0000 == 0x4000_8000_0000_0000_0000 && final(store)@
                == publish_store(old(store)@, principal, form@, id, now) && result_view(r)
                == publish_result(old(store)@, principal, form@, id),
{
    let id = new_issue_id();
    publish_newsletter_with_id(store, principal, form, id, now)
}

} // verus!

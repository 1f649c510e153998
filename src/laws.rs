//! Properties of the gateway and the worker over several requests and steps.
use vstd::prelude::*;
use crate::domain::is_valid_email;
use crate::idempotency::{GatewayError, ResponseView, is_valid_key};
use crate::newsletter::{FormView, accepted_response, publish_result, publish_store, publish_tx};
use crate::store::{
    StoreView, begin_outcome, begin_store, claim_at, claim_index, commit_allowed, complete_store,
    fan_out, has_claim, has_issue, lemma_begin_keeps_wf, lemma_claim_index, lemma_commit_keeps_wf,
    lemma_fan_out, lemma_fan_out_distinct, rollback_store, store_wf,
};
use crate::worker::{claim_store, execute_store, lemma_oldest_unlocked, oldest_unlocked};

verus! {

/// After `publish` the claim on (p, k) holds `publish`'s answer, where that
/// answer was a success.
proof fn lemma_publish_saves(s: StoreView, p: u128, f: FormView, id: u128, now: u64)
    requires
        store_wf(s),
        publish_result(s, p, f, id) is Ok,
    ensures
        has_claim(publish_store(s, p, f, id, now).claims, p, f.idempotency_key),
        publish_store(s, p, f, id, now).claims[claim_index(
            publish_store(s, p, f, id, now).claims,
            p,
            f.idempotency_key,
        )].response == Some(publish_result(s, p, f, id)->Ok_0),
        store_wf(publish_store(s, p, f, id, now)),
{
    let k = f.idempotency_key;
    if begin_outcome(s, p, k) is Start {
        let s1 = begin_store(s, p, k, now);
        let n = s.claims.len() as int;
        lemma_begin_keeps_wf(s, p, k, now);
        lemma_fan_out(s.subscribers, id, now);
        lemma_fan_out_distinct(s.subscribers, id, now);
        let tx = publish_tx(s, p, f, id, now);
        assert(commit_allowed(s1, tx));
        lemma_commit_keeps_wf(s1, tx, accepted_response());
        let s2 = publish_store(s, p, f, id, now);
        assert(claim_at(s2.claims, p, k, n));
        lemma_claim_index(s2, p, k, n);
    } else {
        let i = claim_index(s.claims, p, k);
        lemma_claim_index(s, p, k, i);
    }
}

/// Replay fidelity: once (p, k) holds a saved response, every later publish
/// request with that key, whatever its payload and issue id, is answered with
/// that response and writes nothing.
pub proof fn lemma_replay_fidelity(
    s: StoreView,
    p: u128,
    f: FormView,
    id: u128,
    now: u64,
    saved: ResponseView,
)
    requires
        store_wf(s),
        has_claim(s.claims, p, f.idempotency_key),
        s.claims[claim_index(s.claims, p, f.idempotency_key)].response == Some(saved),
    ensures
        publish_store(s, p, f, id, now) == s,
        publish_result(s, p, f, id) == Ok::<ResponseView, GatewayError>(saved),
{
    assert(is_valid_key(s.claims[claim_index(s.claims, p, f.idempotency_key)].key));
}

/// At most one execution: after a publish request succeeds, a second one
/// with the same principal and key, with any payload and issue id, writes no
/// issue, no task and no response, and is answered with the very same
/// response. By induction this holds of every later duplicate.
pub proof fn lemma_at_most_one_execution(
    s: StoreView,
    p: u128,
    first: FormView,
    id1: u128,
    now1: u64,
    second: FormView,
    id2: u128,
    now2: u64,
)
    requires
        store_wf(s),
        second.idempotency_key == first.idempotency_key,
        publish_result(s, p, first, id1) is Ok,
    ensures
        publish_store(publish_store(s, p, first, id1, now1), p, second, id2, now2) == publish_store(
            s,
            p,
            first,
            id1,
            now1,
        ),
        publish_result(publish_store(s, p, first, id1, now1), p, second, id2) == publish_result(
            s,
            p,
            first,
            id1,
        ),
{
    lemma_publish_saves(s, p, first, id1, now1);
    lemma_replay_fidelity(
        publish_store(s, p, first, id1, now1),
        p,
        second,
        id2,
        now2,
        publish_result(s, p, first, id1)->Ok_0,
    );
}

/// The store after the publish requests `forms` of principal `p`, in order,
/// the i-th drawing issue id `ids[i]`.
pub open spec fn publish_many(
    s: StoreView,
    p: u128,
    forms: Seq<FormView>,
    ids: Seq<u128>,
    now: u64,
) -> StoreView
    decreases forms.len(),
{
    if forms.len() == 0 {
        s
    } else {
        publish_store(
            publish_many(s, p, forms.drop_last(), ids, now),
            p,
            forms.last(),
            ids[forms.len() - 1],
            now,
        )
    }
}

/// At most one execution over N requests: when N publish requests of one
/// principal carry the same key and the first succeeds, the store after all
/// of them is the store after the first alone, and every one of them is
/// answered with the first one's response.
pub proof fn lemma_n_requests_execute_once(
    s: StoreView,
    p: u128,
    forms: Seq<FormView>,
    ids: Seq<u128>,
    now: u64,
)
    requires
        store_wf(s),
        forms.len() >= 1,
        ids.len() >= forms.len(),
        forall|i: int| 0 <= i < forms.len() ==> (#[trigger] forms[i]).idempotency_key
            == forms[0].idempotency_key,
        publish_result(s, p, forms[0], ids[0]) is Ok,
    ensures
        publish_many(s, p, forms, ids, now) == publish_store(s, p, forms[0], ids[0], now),
        forall|i: int|
            0 <= i < forms.len() ==> publish_result(
                publish_many(s, p, forms.subrange(0, i), ids, now),
                p,
                #[trigger] forms[i],
                ids[i],
            ) == publish_result(s, p, forms[0], ids[0]),
    decreases forms.len(),
{
    let s1 = publish_store(s, p, forms[0], ids[0], now);
    lemma_publish_saves(s, p, forms[0], ids[0], now);
    if forms.len() == 1 {
        assert(forms.drop_last() =~= Seq::<FormView>::empty());
        assert(forms.subrange(0, 0) =~= Seq::<FormView>::empty());
        assert(forms.last() == forms[0]);
        assert(publish_many(s, p, forms.drop_last(), ids, now) == s);
    } else {
        let d = forms.drop_last();
        assert(d[0] == forms[0]);
        assert(forms.last() == forms[forms.len() - 1]);
        assert(forms.last().idempotency_key == forms[0].idempotency_key);
        assert forall|i: int| 0 <= i < d.len() implies (#[trigger] d[i]).idempotency_key
            == d[0].idempotency_key by {
            assert(d[i] == forms[i]);
        }
        lemma_n_requests_execute_once(s, p, d, ids, now);
        lemma_replay_fidelity(
            s1,
            p,
            forms.last(),
            ids[forms.len() - 1],
            now,
            publish_result(s, p, forms[0], ids[0])->Ok_0,
        );
        assert forall|i: int|
            0 <= i < forms.len() implies publish_result(
            publish_many(s, p, forms.subrange(0, i), ids, now),
            p,
            #[trigger] forms[i],
            ids[i],
        ) == publish_result(s, p, forms[0], ids[0]) by {
            if i < d.len() {
                assert(forms.subrange(0, i) =~= d.subrange(0, i));
                assert(d[i] == forms[i]);
            } else {
                assert(forms.subrange(0, i) =~= d);
                assert(d.subrange(0, d.len() as int) =~= d);
                if d.len() == 1 {
                    assert(d.drop_last() =~= Seq::<FormView>::empty());
                }
                lemma_replay_fidelity(
                    s1,
                    p,
                    forms[i],
                    ids[i],
                    now,
                    publish_result(s, p, forms[0], ids[0])->Ok_0,
                );
            }
        }
    }
}

/// The first successful publish for a key writes exactly one issue and one
/// task per confirmed subscriber.
pub proof fn lemma_single_execution_writes(s: StoreView, p: u128, f: FormView, id: u128, now: u64)
    requires
        store_wf(s),
        begin_outcome(s, p, f.idempotency_key) is Start,
        !has_issue(s.issues, id),
    ensures
        publish_store(s, p, f, id, now).issues == s.issues.push(crate::newsletter::issue_of(id, f)),
        publish_store(s, p, f, id, now).queue == s.queue + fan_out(s.subscribers, id, now),
        publish_result(s, p, f, id) == Ok::<ResponseView, GatewayError>(accepted_response()),
{
    let k = f.idempotency_key;
    lemma_begin_keeps_wf(s, p, k, now);
    lemma_fan_out(s.subscribers, id, now);
    lemma_fan_out_distinct(s.subscribers, id, now);
}

/// Two concurrent duplicates: request A places its claim and is still
/// running when request B, with the same principal and key, looks. B changes
/// nothing; A then commits one issue with its tasks; B, retrying, writes
/// nothing more and is answered with A's response.
pub proof fn lemma_concurrent_duplicate(
    s: StoreView,
    p: u128,
    a: FormView,
    id_a: u128,
    b: FormView,
    id_b: u128,
    now: u64,
)
    requires
        store_wf(s),
        b.idempotency_key == a.idempotency_key,
        begin_outcome(s, p, a.idempotency_key) is Start,
        !has_issue(s.issues, id_a),
    ensures
        begin_outcome(begin_store(s, p, a.idempotency_key, now), p, b.idempotency_key) is InFlight,
        begin_store(begin_store(s, p, a.idempotency_key, now), p, b.idempotency_key, now)
            == begin_store(s, p, a.idempotency_key, now),
        complete_store(begin_store(s, p, a.idempotency_key, now), publish_tx(s, p, a, id_a, now), accepted_response())
            == publish_store(s, p, a, id_a, now),
        publish_store(s, p, a, id_a, now).issues == s.issues.push(crate::newsletter::issue_of(id_a, a)),
        publish_store(s, p, a, id_a, now).queue == s.queue + fan_out(s.subscribers, id_a, now),
        publish_store(publish_store(s, p, a, id_a, now), p, b, id_b, now) == publish_store(s, p, a, id_a, now),
        publish_result(publish_store(s, p, a, id_a, now), p, b, id_b) == Ok::<ResponseView, GatewayError>(
            accepted_response(),
        ),
{
    let k = a.idempotency_key;
    lemma_begin_keeps_wf(s, p, k, now);
    lemma_single_execution_writes(s, p, a, id_a, now);
    lemma_at_most_one_execution(s, p, a, id_a, now, b, id_b, now);
}

/// While another request holds the claim on (p, k), a duplicate request
/// writes nothing and is refused with `ConcurrentClaimTimeout`; it never runs
/// the command a second time.
pub proof fn lemma_in_flight_duplicate_writes_nothing(
    s: StoreView,
    p: u128,
    f: FormView,
    id: u128,
    now: u64,
)
    requires
        store_wf(s),
        has_claim(s.claims, p, f.idempotency_key),
        s.claims[claim_index(s.claims, p, f.idempotency_key)].response is None,
    ensures
        publish_store(s, p, f, id, now) == s,
        publish_result(s, p, f, id) == Err::<ResponseView, GatewayError>(
            GatewayError::ConcurrentClaimTimeout,
        ),
{
    assert(is_valid_key(s.claims[claim_index(s.claims, p, f.idempotency_key)].key));
}

/// Claim and commit are atomic: a command that placed its claim and was then
/// rolled back leaves the store exactly as before it started, with no issue,
/// task or response of it, and a retry with the same key starts afresh.
pub proof fn lemma_rollback_restores(
    s: StoreView,
    p: u128,
    k: Seq<char>,
    now: u64,
    retry: FormView,
    id: u128,
)
    requires
        store_wf(s),
        begin_outcome(s, p, k) is Start,
        retry.idempotency_key == k,
        !has_issue(s.issues, id),
    ensures
        rollback_store(begin_store(s, p, k, now), p, k) == s,
        begin_outcome(rollback_store(begin_store(s, p, k, now), p, k), p, k) is Start,
        publish_result(rollback_store(begin_store(s, p, k, now), p, k), p, retry, id) == Ok::<
            ResponseView,
            GatewayError,
        >(accepted_response()),
{
    let s1 = begin_store(s, p, k, now);
    let n = s.claims.len() as int;
    lemma_begin_keeps_wf(s, p, k, now);
    assert(s1.claims.remove(n) =~= s.claims);
}

/// The store after a single worker makes one step per transport answer in
/// `sends`, in order.
pub open spec fn drain_store(s: StoreView, sends: Seq<bool>) -> StoreView
    decreases sends.len(),
{
    if sends.len() == 0 {
        s
    } else {
        execute_store(drain_store(s, sends.drop_last()), sends.last())
    }
}

pub open spec fn none_locked(s: StoreView) -> bool {
    forall|j: int| 0 <= j < s.queue.len() ==> !(#[trigger] s.queue[j]).locked
}

/// One worker step removes exactly one row when the send succeeds and none
/// when it fails, for a task with a valid address; the rest of the store is
/// untouched.
pub proof fn lemma_step_removes_per_send(s: StoreView)
    requires
        oldest_unlocked(s.queue) >= 0,
        is_valid_email(s.queue[oldest_unlocked(s.queue)].recipient),
    ensures
        execute_store(s, true).queue == s.queue.remove(oldest_unlocked(s.queue)),
        execute_store(s, true).queue.len() == s.queue.len() - 1,
        execute_store(s, false) == s,
{
    lemma_oldest_unlocked(s.queue);
}

/// A malformed address is terminal: its task leaves the queue after one step,
/// whatever the transport would have answered.
pub proof fn lemma_malformed_is_terminal(s: StoreView, sent: bool)
    requires
        oldest_unlocked(s.queue) >= 0,
        !is_valid_email(s.queue[oldest_unlocked(s.queue)].recipient),
    ensures
        execute_store(s, sent) == (StoreView { queue: s.queue.remove(oldest_unlocked(s.queue)), ..s }),
        execute_store(s, sent).queue.len() == s.queue.len() - 1,
{
    lemma_oldest_unlocked(s.queue);
}

proof fn lemma_step_keeps_unlocked(s: StoreView, sent: bool)
    requires
        none_locked(s),
    ensures
        none_locked(execute_store(s, sent)),
        execute_store(s, sent).queue.len() <= s.queue.len(),
        s.queue.len() > 0 && sent ==> execute_store(s, sent).queue.len() == s.queue.len() - 1,
{
    lemma_oldest_unlocked(s.queue);
    let i = oldest_unlocked(s.queue);
    if s.queue.len() > 0 {
        assert(!s.queue[0].locked);
    }
    if i >= 0 {
        let q = s.queue.remove(i);
        assert forall|j: int| 0 <= j < q.len() implies !(#[trigger] q[j]).locked by {
            if j < i {
                assert(q[j] == s.queue[j]);
            } else {
                assert(q[j] == s.queue[j + 1]);
            }
        }
    }
}

proof fn lemma_drain_bound(s: StoreView, sends: Seq<bool>)
    requires
        none_locked(s),
    ensures
        none_locked(drain_store(s, sends)),
        drain_store(s, sends).queue.len() <= s.queue.len(),
    decreases sends.len(),
{
    if sends.len() > 0 {
        lemma_drain_bound(s, sends.drop_last());
        lemma_step_keeps_unlocked(drain_store(s, sends.drop_last()), sends.last());
    }
}

proof fn lemma_successes_empty(s: StoreView, sends: Seq<bool>, rest: Seq<bool>)
    requires
        none_locked(s),
        rest.len() >= drain_store(s, sends).queue.len(),
        forall|j: int| 0 <= j < rest.len() ==> #[trigger] rest[j],
    ensures
        drain_store(s, sends + rest).queue.len() == 0,
    decreases rest.len(),
{
    lemma_drain_bound(s, sends);
    if rest.len() == 0 {
        assert(sends + rest =~= sends);
    } else {
        let sends2 = sends.push(rest[0]);
        let rest2 = rest.subrange(1, rest.len() as int);
        assert(sends2 + rest2 =~= sends + rest);
        assert(sends2.drop_last() =~= sends);
        lemma_step_keeps_unlocked(drain_store(s, sends), rest[0]);
        if drain_store(s, sends).queue.len() == 0 {
            lemma_oldest_unlocked(drain_store(s, sends).queue);
        }
        lemma_successes_empty(s, sends2, rest2);
    }
}

/// Draining eventually empties the queue: whatever transient failures come
/// first, a run of successful sends at least as long as the queue leaves no
/// task behind (no task being held by another worker).
pub proof fn lemma_drain_empties(s: StoreView, failures: Seq<bool>, successes: Seq<bool>)
    requires
        none_locked(s),
        successes.len() >= s.queue.len(),
        forall|j: int| 0 <= j < successes.len() ==> #[trigger] successes[j],
    ensures
        drain_store(s, failures + successes).queue.len() == 0,
{
    lemma_drain_bound(s, failures);
    lemma_successes_empty(s, failures, successes);
}

/// Mutual exclusion of workers: a row that one worker claimed is not the row
/// that the next claim hands out.
pub proof fn lemma_claimed_row_is_skipped(s: StoreView)
    requires
        oldest_unlocked(s.queue) >= 0,
    ensures
        oldest_unlocked(claim_store(s).queue) != oldest_unlocked(s.queue),
        claim_store(s).queue.len() == s.queue.len(),
{
    lemma_oldest_unlocked(s.queue);
    lemma_oldest_unlocked(claim_store(s).queue);
}

} // verus!

//! The tables behind the gateway and the queue (claims, issues, delivery
//! tasks, subscribers) with their invariants, and the operations on them:
//! claim-or-replay, complete, roll back, and the worker's row claims.
//! Writes of a command are staged in a `Transaction` and land together.
use vstd::prelude::*;
use crate::idempotency::{GatewayError, ResponseView, SavedResponse, is_valid_key};
use crate::domain::is_valid_email;
use crate::worker::{
    DeliveryJob, DeliveryPlan, Disposition, ExecutionOutcome, MailTransport, claim_store, execute_outcome,
    execute_store, finish_store, job_index, job_of, lemma_oldest_unlocked,
    lemma_job_index_prefix, oldest_unlocked, plan_delivery,
};

verus! {

/// A claim on (principal, key): a placeholder while the command runs, then
/// the response it produced.
pub struct ClaimRow {
    pub principal: u128,
    pub key: String,
    pub response: Option<SavedResponse>,
    pub created_at: u64,
}

pub ghost struct ClaimView {
    pub principal: u128,
    pub key: Seq<char>,
    pub response: Option<ResponseView>,
    pub created_at: u64,
}

pub open spec fn claim_view(c: ClaimRow) -> ClaimView {
    ClaimView {
        principal: c.principal,
        key: c.key@,
        response: match c.response {
            Some(r) => Some(r@),
            None => None,
        },
        created_at: c.created_at,
    }
}

/// A newsletter issue as published.
pub struct IssueRow {
    pub id: u128,
    pub title: String,
    pub text_body: String,
    pub html_body: String,
}

pub ghost struct IssueView {
    pub id: u128,
    pub title: Seq<char>,
    pub text_body: Seq<char>,
    pub html_body: Seq<char>,
}

pub open spec fn issue_view(i: IssueRow) -> IssueView {
    IssueView { id: i.id, title: i.title@, text_body: i.text_body@, html_body: i.html_body@ }
}

/// One pending delivery of an issue to one recipient. `locked` is set while a
/// worker holds the row.
pub struct TaskRow {
    pub issue_id: u128,
    pub recipient: String,
    pub enqueued_at: u64,
    pub locked: bool,
}

pub ghost struct TaskView {
    pub issue_id: u128,
    pub recipient: Seq<char>,
    pub enqueued_at: u64,
    pub locked: bool,
}

pub open spec fn task_view(t: TaskRow) -> TaskView {
    TaskView {
        issue_id: t.issue_id,
        recipient: t.recipient@,
        enqueued_at: t.enqueued_at,
        locked: t.locked,
    }
}

/// A subscriber's stored address and whether the subscription was confirmed.
pub struct SubscriberRow {
    pub email: String,
    pub confirmed: bool,
}

pub ghost struct SubscriberView {
    pub email: Seq<char>,
    pub confirmed: bool,
}

pub open spec fn subscriber_view(s: SubscriberRow) -> SubscriberView {
    SubscriberView { email: s.email@, confirmed: s.confirmed }
}

/// The committed tables: claims, issues, the delivery queue and subscribers.
pub struct Datastore {
    claims: Vec<ClaimRow>,
    issues: Vec<IssueRow>,
    queue: Vec<TaskRow>,
    subscribers: Vec<SubscriberRow>,
}

pub ghost struct StoreView {
    pub claims: Seq<ClaimView>,
    pub issues: Seq<IssueView>,
    pub queue: Seq<TaskView>,
    pub subscribers: Seq<SubscriberView>,
}

impl View for Datastore {
    type V = StoreView;

    closed spec fn view(&self) -> StoreView {
        StoreView {
            claims: self.claims@.map_values(|c: ClaimRow| claim_view(c)),
            issues: self.issues@.map_values(|i: IssueRow| issue_view(i)),
            queue: self.queue@.map_values(|t: TaskRow| task_view(t)),
            subscribers: self.subscribers@.map_values(|s: SubscriberRow| subscriber_view(s)),
        }
    }
}

pub open spec fn claim_at(claims: Seq<ClaimView>, p: u128, k: Seq<char>, i: int) -> bool {
    0 <= i < claims.len() && claims[i].principal == p && claims[i].key == k
}

pub open spec fn has_claim(claims: Seq<ClaimView>, p: u128, k: Seq<char>) -> bool {
    exists|i: int| claim_at(claims, p, k, i)
}

/// The row of the claim on (p, k); meaningful where `has_claim` holds.
pub open spec fn claim_index(claims: Seq<ClaimView>, p: u128, k: Seq<char>) -> int {
    choose|i: int| claim_at(claims, p, k, i)
}

pub open spec fn issue_at(issues: Seq<IssueView>, id: u128, i: int) -> bool {
    0 <= i < issues.len() && issues[i].id == id
}

pub open spec fn has_issue(issues: Seq<IssueView>, id: u128) -> bool {
    exists|i: int| issue_at(issues, id, i)
}

pub open spec fn issue_index(issues: Seq<IssueView>, id: u128) -> int {
    choose|i: int| issue_at(issues, id, i)
}

/// Two tasks deliver the same issue to the same recipient.
pub open spec fn same_delivery(a: TaskView, b: TaskView) -> bool {
    a.issue_id == b.issue_id && a.recipient == b.recipient
}

/// No (issue, recipient) pair is queued twice.
pub open spec fn distinct_deliveries(q: Seq<TaskView>) -> bool {
    forall|a: int, b: int| #![trigger q[a], q[b]] 0 <= a < b < q.len() ==> !same_delivery(q[a], q[b])
}

/// No address belongs to two subscribers.
pub open spec fn distinct_emails(subs: Seq<SubscriberView>) -> bool {
    forall|a: int, b: int| #![trigger subs[a], subs[b]] 0 <= a < b < subs.len() ==> subs[a].email != subs[b].email
}

pub open spec fn has_subscriber(subs: Seq<SubscriberView>, email: Seq<char>) -> bool {
    exists|j: int| 0 <= j < subs.len() && (#[trigger] subs[j]).email == email
}

/// The store's invariants: one claim per (principal, key), every claim under
/// a valid key, one issue per id, no queued task without its issue, no
/// (issue, recipient) pair queued twice, and one subscriber per address.
pub open spec fn store_wf(s: StoreView) -> bool {
    &&& forall|i: int, j: int|
        0 <= i < s.claims.len() && claim_at(s.claims, s.claims[i].principal, s.claims[i].key, j)
            ==> i == j
    &&& forall|i: int, j: int|
        0 <= i < s.issues.len() && #[trigger] issue_at(s.issues, s.issues[i].id, j) ==> i == j
    &&& forall|t: int| 0 <= t < s.queue.len() ==> has_issue(s.issues, #[trigger] s.queue[t].issue_id)
    &&& distinct_deliveries(s.queue)
    &&& distinct_emails(s.subscribers)
    &&& forall|i: int| 0 <= i < s.claims.len() ==> is_valid_key(#[trigger] s.claims[i].key)
}

pub proof fn lemma_claim_index(s: StoreView, p: u128, k: Seq<char>, i: int)
    requires
        store_wf(s),
        claim_at(s.claims, p, k, i),
    ensures
        has_claim(s.claims, p, k),
        claim_index(s.claims, p, k) == i,
{
    let j = claim_index(s.claims, p, k);
    assert(claim_at(s.claims, s.claims[j].principal, s.claims[j].key, i));
}

pub proof fn lemma_issue_index(s: StoreView, id: u128, i: int)
    requires
        store_wf(s),
        issue_at(s.issues, id, i),
    ensures
        has_issue(s.issues, id),
        issue_index(s.issues, id) == i,
{
    let j = issue_index(s.issues, id);
    assert(issue_at(s.issues, s.issues[j].id, i));
}

pub proof fn lemma_remove_claim_keeps_wf(s: StoreView, i: int)
    requires
        store_wf(s),
        0 <= i < s.claims.len(),
    ensures
        store_wf(StoreView { claims: s.claims.remove(i), ..s }),
{
    let c = s.claims.remove(i);
    assert forall|a: int, b: int|
        0 <= a < c.len() && claim_at(c, c[a].principal, c[a].key, b) implies a == b by {
        let oa = if a < i { a } else { a + 1 };
        let ob = if b < i { b } else { b + 1 };
        assert(c[a] == s.claims[oa]);
        assert(c[b] == s.claims[ob]);
        assert(claim_at(s.claims, s.claims[oa].principal, s.claims[oa].key, ob));
    }
}

/// What a look at the claim on (p, k) finds.
pub ghost enum BeginOutcome {
    Refused,
    Start,
    Replay(ResponseView),
    InFlight,
}

pub open spec fn begin_outcome(s: StoreView, p: u128, k: Seq<char>) -> BeginOutcome {
    if !is_valid_key(k) {
        BeginOutcome::Refused
    } else if !has_claim(s.claims, p, k) {
        BeginOutcome::Start
    } else {
        match s.claims[claim_index(s.claims, p, k)].response {
            Some(r) => BeginOutcome::Replay(r),
            None => BeginOutcome::InFlight,
        }
    }
}

/// The store after a look at (p, k): a placeholder claim is added when none
/// existed, and nothing else changes.
pub open spec fn begin_store(s: StoreView, p: u128, k: Seq<char>, now: u64) -> StoreView {
    if begin_outcome(s, p, k) is Start {
        StoreView {
            claims: s.claims.push(ClaimView { principal: p, key: k, response: None, created_at: now }),
            ..s
        }
    } else {
        s
    }
}

/// The writes of one command, held until the claim is completed.
pub struct Transaction {
    principal: u128,
    key: String,
    issue: Option<IssueRow>,
    tasks: Vec<TaskRow>,
}

pub ghost struct TxView {
    pub principal: u128,
    pub key: Seq<char>,
    pub issue: Option<IssueView>,
    pub tasks: Seq<TaskView>,
}

impl View for Transaction {
    type V = TxView;

    closed spec fn view(&self) -> TxView {
        TxView {
            principal: self.principal,
            key: self.key@,
            issue: match self.issue {
                Some(i) => Some(issue_view(i)),
                None => None,
            },
            tasks: self.tasks@.map_values(|t: TaskRow| task_view(t)),
        }
    }
}

/// One task per confirmed subscriber, in subscriber order.
pub open spec fn fan_out(subs: Seq<SubscriberView>, id: u128, now: u64) -> Seq<TaskView>
    decreases subs.len(),
{
    if subs.len() == 0 {
        Seq::empty()
    } else {
        let rest = fan_out(subs.drop_last(), id, now);
        if subs.last().confirmed {
            rest.push(
                TaskView { issue_id: id, recipient: subs.last().email, enqueued_at: now, locked: false },
            )
        } else {
            rest
        }
    }
}

/// Every task of a fan-out is an unlocked task of the given issue.
pub proof fn lemma_fan_out(subs: Seq<SubscriberView>, id: u128, now: u64)
    ensures
        fan_out(subs, id, now).len() <= subs.len(),
        forall|t: int|
            0 <= t < fan_out(subs, id, now).len() ==> (#[trigger] fan_out(subs, id, now)[t]).issue_id
                == id && !fan_out(subs, id, now)[t].locked && fan_out(subs, id, now)[t].enqueued_at == now,
    decreases subs.len(),
{
    if subs.len() > 0 {
        lemma_fan_out(subs.drop_last(), id, now);
    }
}

/// The recipients of a fan-out are subscriber addresses, and with one
/// subscriber per address no recipient is queued twice.
pub proof fn lemma_fan_out_distinct(subs: Seq<SubscriberView>, id: u128, now: u64)
    requires
        distinct_emails(subs),
    ensures
        distinct_deliveries(fan_out(subs, id, now)),
        forall|t: int|
            0 <= t < fan_out(subs, id, now).len() ==> has_subscriber(
                subs,
                (#[trigger] fan_out(subs, id, now)[t]).recipient,
            ),
    decreases subs.len(),
{
    if subs.len() > 0 {
        let d = subs.drop_last();
        let last = subs.len() - 1;
        assert forall|a: int, b: int| #![trigger d[a], d[b]] 0 <= a < b < d.len() implies d[a].email
            != d[b].email by {
            assert(d[a] == subs[a] && d[b] == subs[b]);
        }
        lemma_fan_out_distinct(d, id, now);
        let f = fan_out(subs, id, now);
        let g = fan_out(d, id, now);
        assert forall|t: int| 0 <= t < g.len() implies has_subscriber(subs, (#[trigger] g[t]).recipient)
            && g[t].recipient != subs[last].email by {
            let j = choose|j: int| 0 <= j < d.len() && (#[trigger] d[j]).email == g[t].recipient;
            assert(subs[j] == d[j]);
            assert(subs[j].email != subs[last].email);
        }
        if subs.last().confirmed {
            assert forall|a: int, b: int| #![trigger f[a], f[b]] 0 <= a < b < f.len() implies !same_delivery(
                f[a],
                f[b],
            ) by {
                if b < g.len() {
                    assert(f[a] == g[a] && f[b] == g[b]);
                } else {
                    assert(f[a] == g[a]);
                    assert(f[b].recipient == subs[last].email);
                }
            }
            assert forall|t: int| 0 <= t < f.len() implies has_subscriber(subs, (#[trigger] f[t]).recipient) by {
                if t < g.len() {
                    assert(f[t] == g[t]);
                } else {
                    assert(subs[last].email == f[t].recipient);
                }
            }
        }
    }
}

/// A transaction commits when its claim is still a placeholder and its issue,
/// if any, is new, is the one that all its tasks refer to, and no recipient
/// appears twice among them.
pub open spec fn commit_allowed(s: StoreView, tx: TxView) -> bool {
    &&& has_claim(s.claims, tx.principal, tx.key)
    &&& s.claims[claim_index(s.claims, tx.principal, tx.key)].response is None
    &&& match tx.issue {
        None => tx.tasks.len() == 0,
        Some(i) => !has_issue(s.issues, i.id) && (forall|t: int|
            0 <= t < tx.tasks.len() ==> (#[trigger] tx.tasks[t]).issue_id == i.id)
            && distinct_deliveries(tx.tasks),
    }
}

/// Placing a claim where none existed keeps the invariants.
pub proof fn lemma_begin_keeps_wf(s: StoreView, p: u128, k: Seq<char>, now: u64)
    requires
        store_wf(s),
    ensures
        store_wf(begin_store(s, p, k, now)),
        begin_outcome(s, p, k) is Start ==> claim_at(begin_store(s, p, k, now).claims, p, k, s.claims.len() as int)
            && claim_index(begin_store(s, p, k, now).claims, p, k) == s.claims.len(),
{
    if begin_outcome(s, p, k) is Start {
        let s1 = begin_store(s, p, k, now);
        let n = s.claims.len() as int;
        assert forall|a: int, b: int|
            0 <= a < s1.claims.len() && claim_at(s1.claims, s1.claims[a].principal, s1.claims[a].key, b)
            implies a == b by {
            if a != b {
                if a < n && b < n {
                    assert(claim_at(s.claims, s.claims[a].principal, s.claims[a].key, b));
                } else if a < n {
                    assert(claim_at(s.claims, p, k, a));
                } else {
                    assert(claim_at(s.claims, p, k, b));
                }
            }
        }
        assert(claim_at(s1.claims, p, k, n));
        lemma_claim_index(s1, p, k, n);
    }
}

/// A commit that is allowed keeps the invariants.
pub proof fn lemma_commit_keeps_wf(s: StoreView, tx: TxView, resp: ResponseView)
    requires
        store_wf(s),
        commit_allowed(s, tx),
    ensures
        store_wf(complete_store(s, tx, resp)),
{
    let s2 = complete_store(s, tx, resp);
    let idx = claim_index(s.claims, tx.principal, tx.key);
    assert forall|a: int, b: int|
        0 <= a < s2.claims.len() && claim_at(s2.claims, s2.claims[a].principal, s2.claims[a].key, b)
        implies a == b by {
        assert(claim_at(s.claims, s.claims[a].principal, s.claims[a].key, b));
    }
    assert forall|a: int, b: int|
        0 <= a < s2.issues.len() && #[trigger] issue_at(s2.issues, s2.issues[a].id, b)
        implies a == b by {
        if a < s.issues.len() && b < s.issues.len() {
            assert(issue_at(s.issues, s.issues[a].id, b));
        } else if a < s.issues.len() {
            assert(issue_at(s.issues, tx.issue->Some_0.id, a));
        } else if b < s.issues.len() {
            assert(issue_at(s.issues, tx.issue->Some_0.id, b));
        }
    }
    assert forall|t: int| 0 <= t < s2.queue.len() implies has_issue(
        s2.issues,
        #[trigger] s2.queue[t].issue_id,
    ) by {
        if t < s.queue.len() {
            assert(s2.queue[t] == s.queue[t]);
            assert(has_issue(s.issues, s.queue[t].issue_id));
            let w = choose|w: int| issue_at(s.issues, s.queue[t].issue_id, w);
            assert(issue_at(s2.issues, s2.queue[t].issue_id, w));
        } else {
            assert(s2.queue[t] == tx.tasks[t - s.queue.len()]);
            assert(issue_at(s2.issues, s2.queue[t].issue_id, s.issues.len() as int));
        }
    }
    assert forall|a: int, b: int| #![trigger s2.queue[a], s2.queue[b]]
        0 <= a < b < s2.queue.len() implies !same_delivery(s2.queue[a], s2.queue[b]) by {
        let n = s.queue.len() as int;
        if b < n {
            assert(s2.queue[a] == s.queue[a] && s2.queue[b] == s.queue[b]);
        } else if a >= n {
            assert(s2.queue[a] == tx.tasks[a - n] && s2.queue[b] == tx.tasks[b - n]);
        } else {
            assert(s2.queue[a] == s.queue[a] && s2.queue[b] == tx.tasks[b - n]);
            assert(has_issue(s.issues, s.queue[a].issue_id));
        }
    }
}

/// The store after a rollback: a placeholder claim on (p, k) is removed.
pub open spec fn rollback_store(s: StoreView, p: u128, k: Seq<char>) -> StoreView {
    if has_claim(s.claims, p, k) && s.claims[claim_index(s.claims, p, k)].response is None {
        StoreView { claims: s.claims.remove(claim_index(s.claims, p, k)), ..s }
    } else {
        s
    }
}

/// The store after completing `tx` with `resp`: the response, the issue and
/// the tasks land together, or, where the commit is refused, none of them
/// and the placeholder is gone.
pub open spec fn complete_store(s: StoreView, tx: TxView, resp: ResponseView) -> StoreView {
    if commit_allowed(s, tx) {
        let idx = claim_index(s.claims, tx.principal, tx.key);
        StoreView {
            claims: s.claims.update(idx, ClaimView { response: Some(resp), ..s.claims[idx] }),
            issues: match tx.issue {
                Some(i) => s.issues.push(i),
                None => s.issues,
            },
            queue: s.queue + tx.tasks,
            subscribers: s.subscribers,
        }
    } else {
        rollback_store(s, tx.principal, tx.key)
    }
}

/// What `begin_or_replay` hands back for a valid key.
pub enum NextAction {
    /// No claim existed: one was placed, and the command runs in this transaction.
    StartProcessing(Transaction),
    /// The command ran before: its response.
    ReturnSaved(SavedResponse),
    /// Another request holds the claim and has not completed it yet.
    InFlight,
}

pub open spec fn outcome_of(r: Result<NextAction, GatewayError>) -> BeginOutcome {
    match r {
        Err(_) => BeginOutcome::Refused,
        Ok(NextAction::StartProcessing(_)) => BeginOutcome::Start,
        Ok(NextAction::ReturnSaved(resp)) => BeginOutcome::Replay(resp@),
        Ok(NextAction::InFlight) => BeginOutcome::InFlight,
    }
}

impl Transaction {
    /// Stages the issue row of the command.
    pub fn insert_issue(&mut self, issue: IssueRow)
        ensures
            final(self)@ == (TxView { issue: Some(issue_view(issue)), ..old(self)@ }),
    {
        self.issue = Some(issue);
    }

    /// Stages one task for each confirmed subscriber of `store`, for the
    /// staged issue.
    pub fn enqueue_delivery_tasks(&mut self, store: &Datastore, now: u64)
        requires
            old(self)@.issue is Some,
        ensures
            final(self)@ == (TxView {
                tasks: old(self)@.tasks + fan_out(
                    store@.subscribers,
                    old(self)@.issue->Some_0.id,
                    now,
                ),
                ..old(self)@
            }),
    {
        let id = match &self.issue {
            Some(i) => i.id,
            None => 0,
        };
        let ghost start = self@.tasks;
        let ghost subs = store@.subscribers;
        let mut i: usize = 0;
        while i < store.subscribers.len()
            invariant
                i <= store.subscribers@.len(),
                subs == store@.subscribers,
                subs.len() == store.subscribers@.len(),
                forall|j: int|
                    0 <= j < subs.len() ==> #[trigger] subs[j] == subscriber_view(
                        store.subscribers@[j],
                    ),
                self@ == (TxView { tasks: start + fan_out(subs.subrange(0, i as int), id, now), ..old(self)@ }),
            decreases store.subscribers.len() - i,
        {
            let row = &store.subscribers[i];
            proof {
                assert(subs.subrange(0, i + 1).drop_last() =~= subs.subrange(0, i as int));
            }
            if row.confirmed {
                let t = TaskRow {
                    issue_id: id,
                    recipient: row.email.clone(),
                    enqueued_at: now,
                    locked: false,
                };
                let ghost prev = self@.tasks;
                let ghost tv = task_view(t);
                self.tasks.push(t);
                proof {
                    assert(subs.subrange(0, i + 1).last() == subs[i as int]);
                    assert(tv == TaskView {
                        issue_id: id,
                        recipient: subs[i as int].email,
                        enqueued_at: now,
                        locked: false,
                    });
                    assert(fan_out(subs.subrange(0, i + 1), id, now) == fan_out(
                        subs.subrange(0, i as int),
                        id,
                        now,
                    ).push(tv));
                    assert(self@.tasks =~= prev.push(tv));
                    assert(self@.tasks =~= start + fan_out(subs.subrange(0, i + 1), id, now));
                }
            }
            i = i + 1;
        }
        proof {
            assert(subs.subrange(0, subs.len() as int) =~= subs);
        }
    }
}

/// Whether no two of `tasks` share a recipient.
fn distinct_recipients(tasks: &Vec<TaskRow>) -> (r: bool)
    ensures
        r <==> forall|a: int, b: int|
            0 <= a < b < tasks@.len() ==> (#[trigger] tasks@[a]).recipient@ != (#[trigger] tasks@[b]).recipient@,
{
    let mut b: usize = 0;
    while b < tasks.len()
        invariant
            b <= tasks@.len(),
            forall|x: int, y: int|
                0 <= x < y < b ==> (#[trigger] tasks@[x]).recipient@ != (#[trigger] tasks@[y]).recipient@,
        decreases tasks.len() - b,
    {
        let mut a: usize = 0;
        while a < b
            invariant
                a <= b < tasks@.len(),
                forall|x: int, y: int|
                    0 <= x < y < b ==> (#[trigger] tasks@[x]).recipient@ != (#[trigger] tasks@[y]).recipient@,
                forall|x: int| 0 <= x < a ==> (#[trigger] tasks@[x]).recipient@ != tasks@[b as int].recipient@,
            decreases b - a,
        {
            if tasks[a].recipient == tasks[b].recipient {
                return false;
            }
            a = a + 1;
        }
        b = b + 1;
    }
    true
}

impl Datastore {
    pub fn new() -> (r: Datastore)
        ensures
            r@.claims.len() == 0,
            r@.issues.len() == 0,
            r@.queue.len() == 0,
            r@.subscribers.len() == 0,
            store_wf(r@),
    {
        let r = Datastore {
            claims: Vec::new(),
            issues: Vec::new(),
            queue: Vec::new(),
            subscribers: Vec::new(),
        };
        proof {
            assert(r@.claims =~= Seq::<ClaimView>::empty());
            assert(r@.issues =~= Seq::<IssueView>::empty());
            assert(r@.queue =~= Seq::<TaskView>::empty());
        }
        r
    }

    /// Records a subscriber with a stored address, confirmed or not. An
    /// address that already belongs to a subscriber is refused (false) and
    /// nothing changes.
    pub fn add_subscriber(&mut self, email: String, confirmed: bool) -> (r: bool)
        requires
            store_wf(old(self)@),
        ensures
            store_wf(final(self)@),
            r == !has_subscriber(old(self)@.subscribers, email@),
            r ==> final(self)@ == (StoreView {
                subscribers: old(self)@.subscribers.push(
                    SubscriberView { email: email@, confirmed },
                ),
                ..old(self)@
            }),
            !r ==> final(self)@ == old(self)@,
    {
        let ghost subs = self@.subscribers;
        let mut i: usize = 0;
        while i < self.subscribers.len()
            invariant
                i <= self.subscribers@.len(),
                subs == self@.subscribers,
                self@ == old(self)@,
                store_wf(self@),
                subs.len() == self.subscribers@.len(),
                forall|j: int| 0 <= j < subs.len() ==> #[trigger] subs[j] == subscriber_view(
                    self.subscribers@[j],
                ),
                forall|j: int| 0 <= j < i ==> (#[trigger] subs[j]).email != email@,
            decreases self.subscribers.len() - i,
        {
            proof {
                assert(subs[i as int] == subscriber_view(self.subscribers@[i as int]));
            }
            if self.subscribers[i].email == email {
                return false;
            }
            i = i + 1;
        }
        let ghost before = self@;
        self.subscribers.push(SubscriberRow { email, confirmed });
        proof {
            let added = SubscriberView { email: email@, confirmed };
            assert(self@.subscribers =~= before.subscribers.push(added));
            assert(self@.claims == before.claims);
            assert(self@.issues == before.issues);
            assert(self@.queue == before.queue);
            let s = self@.subscribers;
            assert forall|a: int, b: int| #![trigger s[a], s[b]] 0 <= a < b < s.len() implies s[a].email
                != s[b].email by {
                if b < before.subscribers.len() {
                    assert(s[a] == before.subscribers[a] && s[b] == before.subscribers[b]);
                } else {
                    assert(s[a] == before.subscribers[a]);
                }
            }
        }
        true
    }

    /// The row of the claim on (p, k), if there is one.
    fn find_claim(&self, p: u128, k: &String) -> (r: Option<usize>)
        requires
            store_wf(self@),
        ensures
            r is None ==> !has_claim(self@.claims, p, k@),
            r is Some ==> claim_at(self@.claims, p, k@, r->Some_0 as int) && claim_index(
                self@.claims,
                p,
                k@,
            ) == r->Some_0,
    {
        let mut i: usize = 0;
        while i < self.claims.len()
            invariant
                i <= self.claims@.len(),
                store_wf(self@),
                forall|j: int| 0 <= j < i ==> !claim_at(self@.claims, p, k@, j),
            decreases self.claims.len() - i,
        {
            let c = &self.claims[i];
            if c.principal == p && c.key == *k {
                proof {
                    assert(self@.claims[i as int] == claim_view(self.claims@[i as int]));
                    lemma_claim_index(self@, p, k@, i as int);
                }
                return Some(i);
            }
            proof {
                assert(self@.claims[i as int] == claim_view(self.claims@[i as int]));
            }
            i = i + 1;
        }
        None
    }

    /// The row of the issue `id`, if there is one.
    fn find_issue(&self, id: u128) -> (r: Option<usize>)
        requires
            store_wf(self@),
        ensures
            r is None ==> !has_issue(self@.issues, id),
            r is Some ==> issue_at(self@.issues, id, r->Some_0 as int) && issue_index(
                self@.issues,
                id,
            ) == r->Some_0,
    {
        let mut i: usize = 0;
        while i < self.issues.len()
            invariant
                i <= self.issues@.len(),
                store_wf(self@),
                forall|j: int| 0 <= j < i ==> !issue_at(self@.issues, id, j),
            decreases self.issues.len() - i,
        {
            if self.issues[i].id == id {
                proof {
                    assert(self@.issues[i as int] == issue_view(self.issues@[i as int]));
                    lemma_issue_index(self@, id, i as int);
                }
                return Some(i);
            }
            proof {
                assert(self@.issues[i as int] == issue_view(self.issues@[i as int]));
            }
            i = i + 1;
        }
        None
    }

    /// Looks at the claim on (principal, key): places a claim and starts the
    /// command where there was none, hands back the saved response where the
    /// command completed, and reports a claim still held by another request.
    pub fn begin_or_replay(&mut self, principal: u128, key: &str, now: u64) -> (r: Result<
        NextAction,
        GatewayError,
    >)
        requires
            store_wf(old(self)@),
        ensures
            store_wf(final(self)@),
            final(self)@ == begin_store(old(self)@, principal, key@, now),
            outcome_of(r) == begin_outcome(old(self)@, principal, key@),
            !is_valid_key(key@) ==> r == Err::<NextAction, GatewayError>(GatewayError::InvalidKey),
            r matches Ok(NextAction::StartProcessing(tx)) ==> tx@ == (TxView {
                principal,
                key: key@,
                issue: None,
                tasks: Seq::empty(),
            }),
    {
        let n = key.unicode_len();
        if n == 0 || n > crate::idempotency::MAX_KEY_LENGTH {
            return Err(GatewayError::InvalidKey);
        }
        let k = key.to_owned();
        match self.find_claim(principal, &k) {
            Some(i) => {
                proof {
                    assert(self@.claims[i as int] == claim_view(self.claims@[i as int]));
                }
                match &self.claims[i].response {
                    Some(resp) => Ok(NextAction::ReturnSaved(resp.duplicate())),
                    None => Ok(NextAction::InFlight),
                }
            },
            None => {
                let ghost old_view = self@;
                self.claims.push(
                    ClaimRow { principal, key: k.clone(), response: None, created_at: now },
                );
                let tx = Transaction { principal, key: k, issue: None, tasks: Vec::new() };
                proof {
                    let placeholder = ClaimView {
                        principal,
                        key: key@,
                        response: None,
                        created_at: now,
                    };
                    assert(self@.claims =~= old_view.claims.push(placeholder));
                    assert(self@.issues == old_view.issues);
                    assert(self@.queue == old_view.queue);
                    assert(self@.subscribers == old_view.subscribers);
                    assert(tx@.tasks =~= Seq::<TaskView>::empty());
                    lemma_begin_keeps_wf(old_view, principal, key@, now);
                }
                Ok(NextAction::StartProcessing(tx))
            },
        }
    }
    /// Drops a transaction that will not complete: its placeholder claim is
    /// removed and none of its writes are kept, so a later request with the
    /// same key starts afresh.
    pub fn rollback(&mut self, tx: Transaction)
        requires
            store_wf(old(self)@),
        ensures
            store_wf(final(self)@),
            final(self)@ == rollback_store(old(self)@, tx@.principal, tx@.key),
    {
        self.release_claim(tx.principal, &tx.key);
    }

    fn release_claim(&mut self, p: u128, k: &String)
        requires
            store_wf(old(self)@),
        ensures
            store_wf(final(self)@),
            final(self)@ == rollback_store(old(self)@, p, k@),
    {
        match self.find_claim(p, k) {
            None => {},
            Some(i) => {
                proof {
                    assert(self@.claims[i as int] == claim_view(self.claims@[i as int]));
                }
                if self.claims[i].response.is_none() {
                    let ghost before = self@;
                    self.claims.remove(i);
                    proof {
                        assert(self@.claims =~= before.claims.remove(i as int));
                        assert(self@ == (StoreView { claims: before.claims.remove(i as int), ..before }));
                        lemma_remove_claim_keeps_wf(before, i as int);
                    }
                }
            },
        }
    }

    /// Completes the command of `tx`: its issue, its tasks and `response` are
    /// kept in one step and the response is handed back. Where the commit is
    /// refused (`commit_allowed`) nothing of it is kept, the placeholder claim
    /// is removed, and the error is `PersistenceError`.
    pub fn complete(&mut self, tx: Transaction, response: SavedResponse) -> (r: Result<
        SavedResponse,
        GatewayError,
    >)
        requires
            store_wf(old(self)@),
        ensures
            store_wf(final(self)@),
            final(self)@ == complete_store(old(self)@, tx@, response@),
            commit_allowed(old(self)@, tx@) ==> r is Ok && r->Ok_0@ == response@,
            !commit_allowed(old(self)@, tx@) ==> r == Err::<SavedResponse, GatewayError>(
                GatewayError::PersistenceError,
            ),
    {
        let ghost txv = tx@;
        let ghost before = self@;
        let Transaction { principal, key, issue, mut tasks } = tx;
        let idx = match self.find_claim(principal, &key) {
            None => {
                return Err(GatewayError::PersistenceError);
            },
            Some(i) => i,
        };
        proof {
            assert(self@.claims[idx as int] == claim_view(self.claims@[idx as int]));
        }
        if self.claims[idx].response.is_some() {
            return Err(GatewayError::PersistenceError);
        }
        let mut allowed = true;
        match &issue {
            None => {
                if tasks.len() > 0 {
                    allowed = false;
                }
            },
            Some(iss) => {
                if self.find_issue(iss.id).is_some() {
                    allowed = false;
                } else {
                    let mut j: usize = 0;
                    while j < tasks.len()
                        invariant
                            j <= tasks@.len(),
                            txv.tasks == tasks@.map_values(|t: TaskRow| task_view(t)),
                            allowed ==> forall|m: int| 0 <= m < j ==> (#[trigger] txv.tasks[m]).issue_id == iss.id,
                            !allowed ==> exists|m: int| 0 <= m < j && (#[trigger] txv.tasks[m]).issue_id != iss.id,
                        decreases tasks.len() - j,
                    {
                        if tasks[j].issue_id != iss.id {
                            proof {
                                assert(txv.tasks[j as int] == task_view(tasks@[j as int]));
                            }
                            allowed = false;
                        } else {
                            proof {
                                assert(txv.tasks[j as int] == task_view(tasks@[j as int]));
                            }
                        }
                        j = j + 1;
                    }
                    if allowed {
                        allowed = distinct_recipients(&tasks);
                        proof {
                            if !allowed {
                                let (a, b) = choose|a: int, b: int|
                                    0 <= a < b < tasks@.len() && (#[trigger] tasks@[a]).recipient@
                                        == (#[trigger] tasks@[b]).recipient@;
                                assert(txv.tasks[a] == task_view(tasks@[a]));
                                assert(txv.tasks[b] == task_view(tasks@[b]));
                                assert(txv.tasks[a].issue_id == iss.id);
                                assert(txv.tasks[b].issue_id == iss.id);
                                assert(same_delivery(txv.tasks[a], txv.tasks[b]));
                            } else {
                                assert forall|a: int, b: int| #![trigger txv.tasks[a], txv.tasks[b]]
                                    0 <= a < b < txv.tasks.len() implies !same_delivery(
                                    txv.tasks[a],
                                    txv.tasks[b],
                                ) by {
                                    assert(txv.tasks[a] == task_view(tasks@[a]));
                                    assert(txv.tasks[b] == task_view(tasks@[b]));
                                }
                            }
                        }
                    }
                }
            },
        }
        if !allowed {
            self.release_claim(principal, &key);
            return Err(GatewayError::PersistenceError);
        }
        let saved = response.duplicate();
        self.claims[idx].response = Some(response);
        proof {
            let c = before.claims.update(
                idx as int,
                ClaimView { response: Some(saved@), ..before.claims[idx as int] },
            );
            assert(self@.claims =~= c);
        }
        match issue {
            Some(iss) => {
                self.issues.push(iss);
            },
            None => {},
        }
        let ghost mid = self@;
        self.queue.append(&mut tasks);
        proof {
            let s = self@;
            assert(s.claims == mid.claims);
            assert(s.issues == mid.issues);
            assert(s.queue =~= before.queue + txv.tasks);
            assert(s.subscribers =~= before.subscribers);
            assert(s.issues =~= match txv.issue {
                Some(i) => before.issues.push(i),
                None => before.issues,
            });
            lemma_commit_keeps_wf(before, txv, response@);
        }
        Ok(saved)
    }
    /// The row of issue `id`, which must exist.
    fn issue_position(&self, id: u128) -> (r: usize)
        requires
            store_wf(self@),
            has_issue(self@.issues, id),
        ensures
            issue_at(self@.issues, id, r as int),
            issue_index(self@.issues, id) == r,
    {
        match self.find_issue(id) {
            Some(i) => i,
            None => {
                proof {
                    assert(false);
                }
                0
            },
        }
    }

    fn oldest_unlocked_index(&self) -> (r: Option<usize>)
        ensures
            r is None ==> oldest_unlocked(self@.queue) == -1,
            r is Some ==> oldest_unlocked(self@.queue) == r->Some_0 as int,
    {
        let ghost q = self@.queue;
        let mut best: Option<usize> = None;
        let mut i: usize = 0;
        while i < self.queue.len()
            invariant
                i <= self.queue@.len(),
                q == self@.queue,
                q.len() == self.queue@.len(),
                forall|j: int| 0 <= j < q.len() ==> #[trigger] q[j] == task_view(self.queue@[j]),
                best is None ==> oldest_unlocked(q.subrange(0, i as int)) == -1,
                best is Some ==> oldest_unlocked(q.subrange(0, i as int)) == best->Some_0 as int,
                best is Some ==> best->Some_0 < i,
            decreases self.queue.len() - i,
        {
            proof {
                let sub = q.subrange(0, i + 1);
                assert(sub.drop_last() =~= q.subrange(0, i as int));
                assert(sub[i as int] == q[i as int]);
                if best is Some {
                    assert(sub[best->Some_0 as int] == q[best->Some_0 as int]);
                }
            }
            let t = &self.queue[i];
            if !t.locked {
                match best {
                    None => {
                        best = Some(i);
                    },
                    Some(b) => {
                        if t.enqueued_at < self.queue[b].enqueued_at {
                            best = Some(i);
                        }
                    },
                }
            }
            i = i + 1;
        }
        proof {
            assert(q.subrange(0, q.len() as int) =~= q);
        }
        best
    }

    /// The job of task `i`: its recipient and its issue's content.
    fn job_at(&self, i: usize) -> (r: DeliveryJob)
        requires
            store_wf(self@),
            i < self@.queue.len(),
        ensures
            r@ == job_of(self@, i as int),
    {
        proof {
            assert(self@.queue[i as int] == task_view(self.queue@[i as int]));
        }
        proof {
            assert(has_issue(self@.issues, self@.queue[i as int].issue_id));
        }
        let t = &self.queue[i];
        let k = self.issue_position(t.issue_id);
        proof {
            assert(self@.issues[k as int] == issue_view(self.issues@[k as int]));
        }
        let iss = &self.issues[k];
        DeliveryJob {
            issue_id: t.issue_id,
            recipient: t.recipient.clone(),
            enqueued_at: t.enqueued_at,
            title: iss.title.clone(),
            text_body: iss.text_body.clone(),
            html_body: iss.html_body.clone(),
        }
    }

    /// Removes task `i`.
    fn delete_task(&mut self, i: usize)
        requires
            store_wf(old(self)@),
            i < old(self)@.queue.len(),
        ensures
            store_wf(final(self)@),
            final(self)@ == (StoreView { queue: old(self)@.queue.remove(i as int), ..old(self)@ }),
    {
        let ghost before = self@;
        self.queue.remove(i);
        proof {
            assert(self@.queue =~= before.queue.remove(i as int));
            assert forall|t: int| 0 <= t < self@.queue.len() implies has_issue(
                self@.issues,
                #[trigger] self@.queue[t].issue_id,
            ) by {
                let o = if t < i { t } else { t + 1 };
                assert(self@.queue[t] == before.queue[o]);
            }
        }
    }

    /// Sets the lock of task `i`.
    fn set_task_lock(&mut self, i: usize, locked: bool)
        requires
            store_wf(old(self)@),
            i < old(self)@.queue.len(),
        ensures
            store_wf(final(self)@),
            final(self)@ == (StoreView {
                queue: old(self)@.queue.update(i as int, TaskView { locked, ..old(self)@.queue[i as int] }),
                ..old(self)@
            }),
    {
        let ghost before = self@;
        proof {
            assert(before.queue[i as int] == task_view(self.queue@[i as int]));
        }
        self.queue[i].locked = locked;
        proof {
            assert(self@.queue =~= before.queue.update(
                i as int,
                TaskView { locked, ..before.queue[i as int] },
            ));
            assert forall|t: int| 0 <= t < self@.queue.len() implies has_issue(
                self@.issues,
                #[trigger] self@.queue[t].issue_id,
            ) by {
                assert(self@.queue[t].issue_id == before.queue[t].issue_id);
            }
        }
    }

    /// Takes the oldest unlocked task for one worker: the row is locked, so
    /// that other workers pass over it, and its job is handed back. None where
    /// no unlocked task is left.
    pub fn claim_next_task(&mut self) -> (r: Option<DeliveryJob>)
        requires
            store_wf(old(self)@),
        ensures
            store_wf(final(self)@),
            final(self)@ == claim_store(old(self)@),
            r is None <==> oldest_unlocked(old(self)@.queue) < 0,
            r is Some ==> r->Some_0@ == job_of(old(self)@, oldest_unlocked(old(self)@.queue)),
    {
        match self.oldest_unlocked_index() {
            None => None,
            Some(i) => {
                proof {
                    lemma_oldest_unlocked(self@.queue);
                }
                let job = self.job_at(i);
                self.set_task_lock(i, true);
                Some(job)
            },
        }
    }

    /// Lets go of a claimed job: its row is deleted, or unlocked for a later
    /// pass.
    pub fn finish_task(&mut self, job: &DeliveryJob, d: Disposition)
        requires
            store_wf(old(self)@),
        ensures
            store_wf(final(self)@),
            final(self)@ == finish_store(old(self)@, job@, d),
    {
        let ghost q = self@.queue;
        let mut i: usize = 0;
        while i < self.queue.len()
            invariant
                i <= self.queue@.len(),
                q == self@.queue,
                self@ == old(self)@,
                q.len() == self.queue@.len(),
                store_wf(self@),
                forall|j: int| 0 <= j < q.len() ==> #[trigger] q[j] == task_view(self.queue@[j]),
                job_index(q.subrange(0, i as int), job@) == -1,
            decreases self.queue.len() - i,
        {
            proof {
                let sub = q.subrange(0, i + 1);
                assert(sub.drop_last() =~= q.subrange(0, i as int));
                assert(sub[i as int] == q[i as int]);
                assert(q[i as int] == task_view(self.queue@[i as int]));
            }
            let t = &self.queue[i];
            if t.locked && t.issue_id == job.issue_id && t.recipient == job.recipient
                && t.enqueued_at == job.enqueued_at {
                proof {
                    lemma_job_index_prefix(q, job@, i as int);
                }
                match d {
                    Disposition::Delete => self.delete_task(i),
                    Disposition::Release => self.set_task_lock(i, false),
                }
                return;
            }
            i = i + 1;
        }
        proof {
            assert(q.subrange(0, q.len() as int) =~= q);
        }
    }

    /// Settles the oldest unlocked task, whose address is valid, after its
    /// send: deleted where the transport answered success, kept otherwise.
    pub fn settle_after_send(&mut self, i: usize, sent: bool)
        requires
            store_wf(old(self)@),
            0 <= oldest_unlocked(old(self)@.queue),
            i as int == oldest_unlocked(old(self)@.queue),
            is_valid_email(old(self)@.queue[i as int].recipient),
        ensures
            store_wf(final(self)@),
            final(self)@ == execute_store(old(self)@, sent),
    {
        proof {
            lemma_oldest_unlocked(self@.queue);
        }
        if sent {
            self.delete_task(i);
        }
    }

    /// One worker step. The oldest unlocked task is taken; where its
    /// address is malformed it is deleted and nothing is sent. Otherwise its
    /// job is sent once through `transport`: the task is deleted when the
    /// transport answers success and stays for a later pass when it answers
    /// failure. `EmptyQueue`, with nothing sent, where no task was there.
    pub fn try_execute_task<T: MailTransport>(&mut self, transport: &mut T) -> (r: ExecutionOutcome)
        requires
            store_wf(old(self)@),
        ensures
            store_wf(final(self)@),
            r == execute_outcome(old(self)@),
            oldest_unlocked(old(self)@.queue) < 0 ==> final(self)@ == old(self)@
                && final(transport).sent() == old(transport).sent()
                && final(transport).answers() == old(transport).answers(),
            oldest_unlocked(old(self)@.queue) >= 0 && !is_valid_email(
                old(self)@.queue[oldest_unlocked(old(self)@.queue)].recipient,
            ) ==> final(self)@ == execute_store(old(self)@, false) && final(transport).sent()
                == old(transport).sent() && final(transport).answers() == old(transport).answers(),
            oldest_unlocked(old(self)@.queue) >= 0 && is_valid_email(
                old(self)@.queue[oldest_unlocked(old(self)@.queue)].recipient,
            ) ==> final(transport).sent() == old(transport).sent().push(
                job_of(old(self)@, oldest_unlocked(old(self)@.queue)),
            ) && final(transport).answers() == old(transport).answers().push(
                final(transport).answers().last(),
            ) && final(self)@ == execute_store(old(self)@, final(transport).answers().last()),
    {
        let i = match self.oldest_unlocked_index() {
            None => {
                return ExecutionOutcome::EmptyQueue;
            },
            Some(i) => i,
        };
        proof {
            lemma_oldest_unlocked(self@.queue);
        }
        let job = self.job_at(i);
        match plan_delivery(job.recipient.as_str()) {
            DeliveryPlan::Discard => {
                self.delete_task(i);
            },
            DeliveryPlan::Send => {
                let sent = transport.send(&job);
                self.settle_after_send(i, sent);
            },
        }
        ExecutionOutcome::TaskCompleted
    }
    pub fn queue_len(&self) -> (r: usize)
        ensures
            r == self@.queue.len(),
    {
        self.queue.len()
    }

    pub fn issue_count(&self) -> (r: usize)
        ensures
            r == self@.issues.len(),
    {
        self.issues.len()
    }

    pub fn claim_count(&self) -> (r: usize)
        ensures
            r == self@.claims.len(),
    {
        self.claims.len()
    }

    /// The id of issue row `i`.
    pub fn issue_id_at(&self, i: usize) -> (r: u128)
        requires
            i < self@.issues.len(),
        ensures
            r == self@.issues[i as int].id,
    {
        proof {
            assert(self@.issues[i as int] == issue_view(self.issues@[i as int]));
        }
        self.issues[i].id
    }

    /// Issue id, recipient and lock of task row `i`.
    pub fn task_at(&self, i: usize) -> (r: (u128, String, bool))
        requires
            i < self@.queue.len(),
        ensures
            r.0 == self@.queue[i as int].issue_id,
            r.1@ == self@.queue[i as int].recipient,
            r.2 == self@.queue[i as int].locked,
    {
        proof {
            assert(self@.queue[i as int] == task_view(self.queue@[i as int]));
        }
        let t = &self.queue[i];
        (t.issue_id, t.recipient.clone(), t.locked)
    }

    /// The response saved for (principal, key): None where no claim exists or
    /// the claim is still a placeholder.
    pub fn saved_response(&self, principal: u128, key: &str) -> (r: Option<SavedResponse>)
        requires
            store_wf(self@),
        ensures
            !has_claim(self@.claims, principal, key@) ==> r is None,
            has_claim(self@.claims, principal, key@) ==> match self@.claims[claim_index(
                self@.claims,
                principal,
                key@,
            )].response {
                Some(v) => r is Some && r->Some_0@ == v,
                None => r is None,
            },
    {
        let k = key.to_owned();
        match self.find_claim(principal, &k) {
            None => None,
            Some(i) => {
                proof {
                    assert(self@.claims[i as int] == claim_view(self.claims@[i as int]));
                }
                match &self.claims[i].response {
                    Some(resp) => Some(resp.duplicate()),
                    None => None,
                }
            },
        }
    }
}

} // verus!

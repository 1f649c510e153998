//! How a delivery worker takes, sends, drops or keeps queued tasks.
use vstd::prelude::*;
use crate::domain::{is_valid_email, is_valid_email_address};
use crate::store::{StoreView, TaskView, issue_index};

verus! {

/// The unlocked task enqueued first (the first such row among equals), or -1
/// where every task is locked or the queue is empty.
pub open spec fn oldest_unlocked(q: Seq<TaskView>) -> int
    decreases q.len(),
{
    if q.len() == 0 {
        -1
    } else {
        let best = oldest_unlocked(q.drop_last());
        let last = q.len() - 1;
        if !q[last].locked && (best == -1 || q[last].enqueued_at < q[best].enqueued_at) {
            last
        } else {
            best
        }
    }
}

/// `oldest_unlocked` picks an unlocked task no younger than any other
/// unlocked task, and finds none only where all are locked.
pub proof fn lemma_oldest_unlocked(q: Seq<TaskView>)
    ensures
        -1 <= oldest_unlocked(q) < q.len(),
        oldest_unlocked(q) == -1 <==> forall|j: int| 0 <= j < q.len() ==> (#[trigger] q[j]).locked,
        oldest_unlocked(q) >= 0 ==> !q[oldest_unlocked(q)].locked && forall|j: int|
            0 <= j < q.len() && !(#[trigger] q[j]).locked ==> q[oldest_unlocked(q)].enqueued_at
                <= q[j].enqueued_at,
    decreases q.len(),
{
    if q.len() > 0 {
        let p = q.drop_last();
        lemma_oldest_unlocked(p);
        assert forall|j: int| 0 <= j < p.len() implies p[j] == q[j] by {}
    }
}

/// How a claimed task leaves the worker's hands.
#[derive(PartialEq, Eq, Structural, Debug, Clone, Copy)]
pub enum Disposition {
    /// Sent, or permanently undeliverable: the row goes.
    Delete,
    /// The transport failed: the row stays for a later pass.
    Release,
}

/// What a worker does with a claimed task before any transport call.
#[derive(PartialEq, Eq, Structural, Debug, Clone, Copy)]
pub enum DeliveryPlan {
    Send,
    /// The stored address is malformed: drop the task, never retry it.
    Discard,
}

/// A task whose recipient is not a valid address is discarded; any other is
/// sent.
pub fn plan_delivery(recipient: &str) -> (r: DeliveryPlan)
    ensures
        is_valid_email(recipient@) ==> r == DeliveryPlan::Send,
        !is_valid_email(recipient@) ==> r == DeliveryPlan::Discard,
{
    if is_valid_email_address(recipient) {
        DeliveryPlan::Send
    } else {
        DeliveryPlan::Discard
    }
}

/// A sent task is deleted; one whose send failed is left for the next pass.
pub fn disposition_after_send(sent: bool) -> (r: Disposition)
    ensures
        sent ==> r == Disposition::Delete,
        !sent ==> r == Disposition::Release,
{
    if sent {
        Disposition::Delete
    } else {
        Disposition::Release
    }
}

/// Result of one worker step.
#[derive(PartialEq, Eq, Structural, Debug, Clone, Copy)]
pub enum ExecutionOutcome {
    TaskCompleted,
    EmptyQueue,
}

/// Pause of the worker loop after finding no task.
pub const EMPTY_QUEUE_DELAY_MS: u64 = 10000;

/// Milliseconds to wait before the next step: none after a task, a fixed
/// pause after an empty queue.
pub fn delay_after(outcome: ExecutionOutcome) -> (r: u64)
    ensures
        outcome == ExecutionOutcome::TaskCompleted ==> r == 0,
        outcome == ExecutionOutcome::EmptyQueue ==> r == EMPTY_QUEUE_DELAY_MS,
{
    match outcome {
        ExecutionOutcome::TaskCompleted => 0,
        ExecutionOutcome::EmptyQueue => EMPTY_QUEUE_DELAY_MS,
    }
}

/// A claimed task, with the issue content to send.
pub struct DeliveryJob {
    pub issue_id: u128,
    pub recipient: String,
    pub enqueued_at: u64,
    pub title: String,
    pub text_body: String,
    pub html_body: String,
}

pub ghost struct JobView {
    pub issue_id: u128,
    pub recipient: Seq<char>,
    pub enqueued_at: u64,
    pub title: Seq<char>,
    pub text_body: Seq<char>,
    pub html_body: Seq<char>,
}

impl View for DeliveryJob {
    type V = JobView;

    open spec fn view(&self) -> JobView {
        JobView {
            issue_id: self.issue_id,
            recipient: self.recipient@,
            enqueued_at: self.enqueued_at,
            title: self.title@,
            text_body: self.text_body@,
            html_body: self.html_body@,
        }
    }
}

impl DeliveryJob {
    pub fn duplicate(&self) -> (r: DeliveryJob)
        ensures
            r@ == self@,
    {
        DeliveryJob {
            issue_id: self.issue_id,
            recipient: self.recipient.clone(),
            enqueued_at: self.enqueued_at,
            title: self.title.clone(),
            text_body: self.text_body.clone(),
            html_body: self.html_body.clone(),
        }
    }
}

/// The mail transport that a worker step sends through. `sent` is what it
/// has been asked to send so far and `answers` what it answered, in order;
/// each send adds its job and its answer, which tells whether the mail went
/// out.
pub trait MailTransport {
    spec fn sent(&self) -> Seq<JobView>;

    spec fn answers(&self) -> Seq<bool>;

    fn send(&mut self, job: &DeliveryJob) -> (r: bool)
        ensures
            final(self).sent() == old(self).sent().push(job@),
            final(self).answers() == old(self).answers().push(r),
    ;
}

/// A transport that answers from a script, one answer per send in order and
/// success once the script is spent, and keeps every job it was given.
pub struct ScriptedTransport {
    answers: Vec<bool>,
    next: usize,
    log: Vec<DeliveryJob>,
    replies: Vec<bool>,
}

impl ScriptedTransport {
    pub fn new(answers: Vec<bool>) -> (r: ScriptedTransport)
        ensures
            r.sent() == Seq::<JobView>::empty(),
            r.answers() == Seq::<bool>::empty(),
    {
        let r = ScriptedTransport { answers, next: 0, log: Vec::new(), replies: Vec::new() };
        proof {
            assert(r.log@.map_values(|j: DeliveryJob| j@) =~= Seq::<JobView>::empty());
        }
        r
    }

    /// How many sends were asked for.
    pub fn sent_count(&self) -> (r: usize)
        ensures
            r == self.sent().len(),
    {
        self.log.len()
    }

    /// The job of send `i`.
    pub fn sent_job(&self, i: usize) -> (r: &DeliveryJob)
        requires
            i < self.sent().len(),
        ensures
            r@ == self.sent()[i as int],
    {
        &self.log[i]
    }
}

impl MailTransport for ScriptedTransport {
    closed spec fn sent(&self) -> Seq<JobView> {
        self.log@.map_values(|j: DeliveryJob| j@)
    }

    closed spec fn answers(&self) -> Seq<bool> {
        self.replies@
    }

    fn send(&mut self, job: &DeliveryJob) -> (r: bool) {
        let answer = if self.next < self.answers.len() {
            self.answers[self.next]
        } else {
            true
        };
        if self.next < self.answers.len() {
            self.next = self.next + 1;
        }
        let ghost before = self.log@;
        self.log.push(job.duplicate());
        self.replies.push(answer);
        proof {
            assert(self.log@.map_values(|j: DeliveryJob| j@) =~= before.map_values(
                |j: DeliveryJob| j@,
            ).push(job@));
        }
        answer
    }
}

/// The job for task `i`: its recipient and its issue's content.
pub open spec fn job_of(s: StoreView, i: int) -> JobView {
    let t = s.queue[i];
    let iss = s.issues[issue_index(s.issues, t.issue_id)];
    JobView {
        issue_id: t.issue_id,
        recipient: t.recipient,
        enqueued_at: t.enqueued_at,
        title: iss.title,
        text_body: iss.text_body,
        html_body: iss.html_body,
    }
}

/// The store after a claim: the oldest unlocked task is locked.
pub open spec fn claim_store(s: StoreView) -> StoreView {
    let i = oldest_unlocked(s.queue);
    if i < 0 {
        s
    } else {
        StoreView { queue: s.queue.update(i, TaskView { locked: true, ..s.queue[i] }), ..s }
    }
}

/// Whether task `i` is a locked row of `job`.
pub open spec fn holds_job(q: Seq<TaskView>, job: JobView, i: int) -> bool {
    &&& 0 <= i < q.len()
    &&& q[i].locked
    &&& q[i].issue_id == job.issue_id
    &&& q[i].recipient == job.recipient
    &&& q[i].enqueued_at == job.enqueued_at
}

/// The first locked row of `job`, or -1.
pub open spec fn job_index(q: Seq<TaskView>, job: JobView) -> int
    decreases q.len(),
{
    if q.len() == 0 {
        -1
    } else {
        let before = job_index(q.drop_last(), job);
        if before >= 0 {
            before
        } else if holds_job(q, job, q.len() - 1) {
            q.len() - 1
        } else {
            -1
        }
    }
}

/// Where no earlier row holds `job` and row `i` does, `job_index` is `i`.
pub proof fn lemma_job_index_prefix(q: Seq<TaskView>, job: JobView, i: int)
    requires
        0 <= i < q.len(),
        job_index(q.subrange(0, i), job) == -1,
        holds_job(q, job, i),
    ensures
        job_index(q, job) == i,
    decreases q.len() - i,
{
    lemma_job_index_extends(q.subrange(0, i + 1), q, job);
    let sub = q.subrange(0, i + 1);
    assert(sub.drop_last() =~= q.subrange(0, i));
    assert(holds_job(sub, job, i));
}

/// A found row of a prefix is the found row of the whole.
pub proof fn lemma_job_index_extends(p: Seq<TaskView>, q: Seq<TaskView>, job: JobView)
    requires
        p.len() <= q.len(),
        p =~= q.subrange(0, p.len() as int),
        job_index(p, job) >= 0,
    ensures
        job_index(q, job) == job_index(p, job),
    decreases q.len(),
{
    lemma_job_index_range(p, job);
    if q.len() > p.len() {
        let d = q.drop_last();
        assert(p =~= d.subrange(0, p.len() as int));
        lemma_job_index_extends(p, d, job);
    } else {
        assert(p =~= q);
    }
}

pub proof fn lemma_job_index_range(q: Seq<TaskView>, job: JobView)
    ensures
        -1 <= job_index(q, job) < q.len(),
        job_index(q, job) >= 0 ==> holds_job(q, job, job_index(q, job)),
    decreases q.len(),
{
    if q.len() > 0 {
        lemma_job_index_range(q.drop_last(), job);
    }
}

/// The store after a worker lets go of `job`: its row is deleted or unlocked.
pub open spec fn finish_store(s: StoreView, job: JobView, d: Disposition) -> StoreView {
    let i = job_index(s.queue, job);
    if i < 0 {
        s
    } else if d == Disposition::Delete {
        StoreView { queue: s.queue.remove(i), ..s }
    } else {
        StoreView { queue: s.queue.update(i, TaskView { locked: false, ..s.queue[i] }), ..s }
    }
}

/// The store after one worker step in which the transport reported `sent`:
/// the oldest unlocked task goes when its address is malformed or the send
/// succeeded, and stays otherwise.
pub open spec fn execute_store(s: StoreView, sent: bool) -> StoreView {
    let i = oldest_unlocked(s.queue);
    if i < 0 {
        s
    } else if !is_valid_email(s.queue[i].recipient) || sent {
        StoreView { queue: s.queue.remove(i), ..s }
    } else {
        s
    }
}

pub open spec fn execute_outcome(s: StoreView) -> ExecutionOutcome {
    if oldest_unlocked(s.queue) < 0 {
        ExecutionOutcome::EmptyQueue
    } else {
        ExecutionOutcome::TaskCompleted
    }
}

} // verus!

//! The delivery worker's decisions: from what it is waiting for and what just
//! happened, to what it waits for next and what it does now. The process that
//! runs the worker performs each action and reports the result as an event.
use vstd::prelude::*;
use crate::domain::{valid_email, valid_name};
use crate::mail::OutboundEmail;
use crate::queue::{
    DeliveryTask, RowView, TaskKey, claim_result, finalize_result, has_key, held_at, keys_unique,
    lemma_drain_hands_out_each_task_once,
};
use crate::subscriber::{ConfirmedSubscriber, SubscriberError};

verus! {

/// Seconds to sleep when the queue had no task to claim.
pub const IDLE_INTERVAL_SECS: u64 = 10;

/// Seconds to sleep after a store failure.
pub const FAULT_INTERVAL_SECS: u64 = 1;

/// How one pass of the worker ended, where it ended normally.
pub enum ExecutionOutcome {
    TaskCompleted,
    EmptyQueue,
}

/// The content of a newsletter issue.
pub struct NewsletterIssue {
    pub title: String,
    pub text_content: String,
    pub html_content: String,
}

/// The sleep intervals of the worker.
pub struct WorkerConfig {
    pub idle_secs: u64,
    pub fault_secs: u64,
}

impl WorkerConfig {
    pub fn new() -> (r: WorkerConfig)
        ensures
            r.idle_secs == IDLE_INTERVAL_SECS,
            r.fault_secs == FAULT_INTERVAL_SECS,
    {
        WorkerConfig { idle_secs: IDLE_INTERVAL_SECS, fault_secs: FAULT_INTERVAL_SECS }
    }
}

/// What the worker is waiting for.
pub enum WorkerState {
    /// The end of a sleep.
    Idle,
    /// The result of a claim.
    Claiming,
    /// The stored contact details of the claimed task's recipient.
    LookingUpSubscriber { task: DeliveryTask },
    /// The content of the claimed task's issue.
    LookingUpIssue { task: DeliveryTask, subscriber: ConfirmedSubscriber },
    /// The answer of the email provider.
    Dispatching { task: DeliveryTask },
    /// The deletion of the task and the commit of its claim.
    Finalizing { task: DeliveryTask },
}

/// What happened to the last action.
pub enum WorkerEvent {
    Woke,
    Claimed(Option<DeliveryTask>),
    ClaimFailed,
    SubscriberFound { email: String, name: String },
    SubscriberLookupFailed,
    IssueFound(NewsletterIssue),
    IssueLookupFailed,
    Delivered,
    DeliveryFailed,
    Finalized,
    FinalizeFailed,
}

/// What the worker does next.
pub enum WorkerAction {
    /// Claim one task in a new transaction.
    Claim,
    /// Read the stored contact details under this address.
    LookUpSubscriber { recipient: String },
    /// Read the content of this issue.
    LookUpIssue { issue_id: u128 },
    /// Send this email, once.
    Send(OutboundEmail),
    /// Delete the claimed row, ending its claim for good.
    Finalize(DeliveryTask),
    /// Abandon any open claim, then sleep.
    Sleep { secs: u64 },
}

/// A fact worth recording about a pass.
pub enum Diagnostic {
    StoreUnavailable,
    SubscriberLookupFailed,
    InvalidSubscriberData(SubscriberError),
    DispatchFailure,
    UnexpectedEvent,
}

/// The result of one decision.
pub struct Step {
    pub state: WorkerState,
    pub action: WorkerAction,
    pub outcome: Option<ExecutionOutcome>,
    pub diagnostic: Option<Diagnostic>,
}

/// `r` abandons the pass and sleeps `secs`.
pub open spec fn sleeps(r: Step, secs: u64) -> bool {
    &&& r.state is Idle
    &&& r.action == (WorkerAction::Sleep { secs })
    &&& r.outcome is None
}

/// `r` claims a new task.
pub open spec fn claims(r: Step) -> bool {
    &&& r.state is Claiming
    &&& r.action is Claim
}

/// `r` deletes the task `t` and waits for that to be committed.
pub open spec fn finalizes(r: Step, t: TaskKey) -> bool {
    &&& r.state matches WorkerState::Finalizing { task } && task@ == t
    &&& r.action matches WorkerAction::Finalize(a) && a@ == t
    &&& r.outcome is None
}

/// `r` sends one email to `s` with the content of `issue`, for the task `t`.
pub open spec fn sends(r: Step, t: TaskKey, s: ConfirmedSubscriber, issue: NewsletterIssue) -> bool {
    &&& r.state matches WorkerState::Dispatching { task } && task@ == t
    &&& r.action matches WorkerAction::Send(m) && {
        &&& m.recipient@ == s.email@
        &&& m.recipient_name@ == s.name@
        &&& m.subject@ == issue.title@
        &&& m.html_content@ == issue.html_content@
        &&& m.text_content@ == issue.text_content@
    }
    &&& r.outcome is None
    &&& r.diagnostic is None
}

/// `r` answers an event that the state does not wait for.
pub open spec fn rejects(config: WorkerConfig, r: Step) -> bool {
    sleeps(r, config.fault_secs) && r.diagnostic == Some(Diagnostic::UnexpectedEvent)
}

/// The worker's decision table.
pub open spec fn is_transition(
    config: WorkerConfig,
    state: WorkerState,
    event: WorkerEvent,
    r: Step,
) -> bool {
    match state {
        WorkerState::Idle => match event {
            WorkerEvent::Woke => claims(r) && r.outcome is None && r.diagnostic is None,
            _ => rejects(config, r),
        },
        WorkerState::Claiming => match event {
            WorkerEvent::Claimed(None) => {
                &&& r.state is Idle
                &&& r.action == (WorkerAction::Sleep { secs: config.idle_secs })
                &&& r.outcome == Some(ExecutionOutcome::EmptyQueue)
                &&& r.diagnostic is None
            },
            WorkerEvent::Claimed(Some(t)) => {
                &&& r.state matches WorkerState::LookingUpSubscriber { task } && task@ == t@
                &&& r.action matches WorkerAction::LookUpSubscriber { recipient } && recipient@
                    == t.recipient@
                &&& r.outcome is None
                &&& r.diagnostic is None
            },
            WorkerEvent::ClaimFailed => sleeps(r, config.fault_secs) && r.diagnostic == Some(
                Diagnostic::StoreUnavailable,
            ),
            _ => rejects(config, r),
        },
        WorkerState::LookingUpSubscriber { task } => match event {
            WorkerEvent::SubscriberFound { email, name } => if valid_email(email@) && valid_name(
                name@,
            ) {
                &&& r.state matches WorkerState::LookingUpIssue { task: t2, subscriber } && t2@
                    == task@ && subscriber.email@ == email@ && subscriber.name@ == name@
                &&& r.action == (WorkerAction::LookUpIssue { issue_id: task.issue_id })
                &&& r.outcome is None
                &&& r.diagnostic is None
            } else {
                &&& finalizes(r, task@)
                &&& r.diagnostic matches Some(Diagnostic::InvalidSubscriberData(_))
            },
            WorkerEvent::SubscriberLookupFailed => finalizes(r, task@) && r.diagnostic == Some(
                Diagnostic::SubscriberLookupFailed,
            ),
            _ => rejects(config, r),
        },
        WorkerState::LookingUpIssue { task, subscriber } => match event {
            WorkerEvent::IssueFound(issue) => sends(r, task@, subscriber, issue),
            WorkerEvent::IssueLookupFailed => sleeps(r, config.fault_secs) && r.diagnostic == Some(
                Diagnostic::StoreUnavailable,
            ),
            _ => rejects(config, r),
        },
        WorkerState::Dispatching { task } => match event {
            WorkerEvent::Delivered => finalizes(r, task@) && r.diagnostic is None,
            WorkerEvent::DeliveryFailed => finalizes(r, task@) && r.diagnostic == Some(
                Diagnostic::DispatchFailure,
            ),
            _ => rejects(config, r),
        },
        WorkerState::Finalizing { task } => match event {
            WorkerEvent::Finalized => {
                &&& claims(r)
                &&& r.outcome == Some(ExecutionOutcome::TaskCompleted)
                &&& r.diagnostic is None
            },
            WorkerEvent::FinalizeFailed => sleeps(r, config.fault_secs) && r.diagnostic == Some(
                Diagnostic::StoreUnavailable,
            ),
            _ => rejects(config, r),
        },
    }
}

fn sleep_step(secs: u64, outcome: Option<ExecutionOutcome>, diagnostic: Option<Diagnostic>) -> (r:
    Step)
    ensures
        r.state is Idle,
        r.action == (WorkerAction::Sleep { secs }),
        r.outcome == outcome,
        r.diagnostic == diagnostic,
{
    Step { state: WorkerState::Idle, action: WorkerAction::Sleep { secs }, outcome, diagnostic }
}

fn finalize_step(task: DeliveryTask, diagnostic: Option<Diagnostic>) -> (r: Step)
    ensures
        finalizes(r, task@),
        r.diagnostic == diagnostic,
{
    let action = WorkerAction::Finalize(task.duplicate());
    Step { state: WorkerState::Finalizing { task }, action, outcome: None, diagnostic }
}

fn unexpected(config: &WorkerConfig) -> (r: Step)
    ensures
        rejects(*config, r),
{
    sleep_step(config.fault_secs, None, Some(Diagnostic::UnexpectedEvent))
}

/// Decides what the worker does after `event`, in `state`.
pub fn step(config: &WorkerConfig, state: WorkerState, event: WorkerEvent) -> (r: Step)
    ensures
        is_transition(*config, state, event, r),
{
    match state {
        WorkerState::Idle => match event {
            WorkerEvent::Woke => Step {
                state: WorkerState::Claiming,
                action: WorkerAction::Claim,
                outcome: None,
                diagnostic: None,
            },
            _ => unexpected(config),
        },
        WorkerState::Claiming => match event {
            WorkerEvent::Claimed(None) => sleep_step(
                config.idle_secs,
                Some(ExecutionOutcome::EmptyQueue),
                None,
            ),
            WorkerEvent::Claimed(Some(task)) => {
                let recipient = task.recipient.clone();
                Step {
                    state: WorkerState::LookingUpSubscriber { task },
                    action: WorkerAction::LookUpSubscriber { recipient },
                    outcome: None,
                    diagnostic: None,
                }
            },
            WorkerEvent::ClaimFailed => sleep_step(
                config.fault_secs,
                None,
                Some(Diagnostic::StoreUnavailable),
            ),
            _ => unexpected(config),
        },
        WorkerState::LookingUpSubscriber { task } => match event {
            WorkerEvent::SubscriberFound { email, name } => match ConfirmedSubscriber::parse(
                email,
                name,
            ) {
                Ok(subscriber) => {
                    let issue_id = task.issue_id;
                    Step {
                        state: WorkerState::LookingUpIssue { task, subscriber },
                        action: WorkerAction::LookUpIssue { issue_id },
                        outcome: None,
                        diagnostic: None,
                    }
                },
                Err(e) => finalize_step(task, Some(Diagnostic::InvalidSubscriberData(e))),
            },
            WorkerEvent::SubscriberLookupFailed => finalize_step(
                task,
                Some(Diagnostic::SubscriberLookupFailed),
            ),
            _ => unexpected(config),
        },
        WorkerState::LookingUpIssue { task, subscriber } => match event {
            WorkerEvent::IssueFound(issue) => {
                let email = OutboundEmail {
                    recipient: subscriber.email,
                    recipient_name: subscriber.name,
                    subject: issue.title,
                    html_content: issue.html_content,
                    text_content: issue.text_content,
                };
                Step {
                    state: WorkerState::Dispatching { task },
                    action: WorkerAction::Send(email),
                    outcome: None,
                    diagnostic: None,
                }
            },
            WorkerEvent::IssueLookupFailed => sleep_step(
                config.fault_secs,
                None,
                Some(Diagnostic::StoreUnavailable),
            ),
            _ => unexpected(config),
        },
        WorkerState::Dispatching { task } => match event {
            WorkerEvent::Delivered => finalize_step(task, None),
            WorkerEvent::DeliveryFailed => finalize_step(task, Some(Diagnostic::DispatchFailure)),
            _ => unexpected(config),
        },
        WorkerState::Finalizing { task } => match event {
            WorkerEvent::Finalized => Step {
                state: WorkerState::Claiming,
                action: WorkerAction::Claim,
                outcome: Some(ExecutionOutcome::TaskCompleted),
                diagnostic: None,
            },
            WorkerEvent::FinalizeFailed => sleep_step(
                config.fault_secs,
                None,
                Some(Diagnostic::StoreUnavailable),
            ),
            _ => unexpected(config),
        },
    }
}

/// On an empty queue a claim hands out no task and leaves the queue as it was;
/// the worker then sleeps the idle interval, and its next action consults
/// neither store nor the dispatcher.
pub proof fn lemma_empty_backlog_sleeps(
    config: WorkerConfig,
    q0: Seq<RowView>,
    q1: Seq<RowView>,
    worker: u64,
    claimed: Option<TaskKey>,
    r: Step,
)
    requires
        q0.len() == 0,
        claim_result(q0, q1, worker, claimed),
        is_transition(config, WorkerState::Claiming, WorkerEvent::Claimed(None), r),
    ensures
        claimed is None,
        q1 == q0,
        r.state is Idle,
        r.action == (WorkerAction::Sleep { secs: config.idle_secs }),
        r.outcome == Some(ExecutionOutcome::EmptyQueue),
{
}

/// Whatever the dispatcher answers, the worker's next action finalizes the
/// task it was delivering.
pub proof fn lemma_dispatch_outcome_finalizes(
    config: WorkerConfig,
    task: DeliveryTask,
    event: WorkerEvent,
    r: Step,
)
    requires
        event is Delivered || event is DeliveryFailed,
        is_transition(config, WorkerState::Dispatching { task }, event, r),
    ensures
        finalizes(r, task@),
{
}

/// Where the recipient's stored contact details cannot be read or are invalid,
/// the worker sends nothing and finalizes the task.
pub proof fn lemma_rejected_subscriber_finalizes(
    config: WorkerConfig,
    task: DeliveryTask,
    event: WorkerEvent,
    r: Step,
)
    requires
        event is SubscriberLookupFailed || (event matches WorkerEvent::SubscriberFound {
            email,
            name,
        } && !(valid_email(email@) && valid_name(name@))),
        is_transition(config, WorkerState::LookingUpSubscriber { task }, event, r),
    ensures
        finalizes(r, task@),
        !(r.action is Send),
        event is SubscriberFound ==> r.diagnostic matches Some(
            Diagnostic::InvalidSubscriberData(_),
        ),
{
}

/// A failed delivery still deletes the task: the worker finalizes it, and the
/// queue, where the worker holds the task, deletes its row.
pub proof fn lemma_failed_delivery_is_finalized(
    config: WorkerConfig,
    task: DeliveryTask,
    r: Step,
    q0: Seq<RowView>,
    q1: Seq<RowView>,
    worker: u64,
    deleted: bool,
)
    requires
        keys_unique(q0),
        exists|i: int| held_at(q0, task@, worker, i),
        is_transition(config, WorkerState::Dispatching { task }, WorkerEvent::DeliveryFailed, r),
        r.action matches WorkerAction::Finalize(t) && finalize_result(q0, q1, worker, t@, deleted),
    ensures
        r.diagnostic == Some(Diagnostic::DispatchFailure),
        deleted,
        q1.len() == q0.len() - 1,
{
}

/// A pass over a task whose recipient's stored data is valid, with a dispatcher
/// that accepts the email, looks up the recipient and the issue, sends exactly
/// one email, to that recipient with the issue's content, and then finalizes
/// the task.
pub proof fn lemma_valid_pass_delivers_once(
    config: WorkerConfig,
    task: DeliveryTask,
    email: String,
    name: String,
    issue: NewsletterIssue,
    r1: Step,
    r2: Step,
    r3: Step,
    r4: Step,
)
    requires
        valid_email(email@),
        valid_name(name@),
        is_transition(config, WorkerState::Claiming, WorkerEvent::Claimed(Some(task)), r1),
        is_transition(config, r1.state, WorkerEvent::SubscriberFound { email, name }, r2),
        is_transition(config, r2.state, WorkerEvent::IssueFound(issue), r3),
        is_transition(config, r3.state, WorkerEvent::Delivered, r4),
    ensures
        r1.action matches WorkerAction::LookUpSubscriber { recipient } && recipient@
            == task.recipient@,
        r2.action == (WorkerAction::LookUpIssue { issue_id: task.issue_id }),
        r3.action matches WorkerAction::Send(m) && {
            &&& m.recipient@ == email@
            &&& m.recipient_name@ == name@
            &&& m.subject@ == issue.title@
            &&& m.html_content@ == issue.html_content@
            &&& m.text_content@ == issue.text_content@
        },
        finalizes(r4, task@),
        r4.diagnostic is None,
{
}

/// One pass of `worker` in which the queue went `q0 -> q1 -> q2`: it claimed
/// `task`, found the recipient stored under the task's address with the valid
/// data `(email, name)`, found `issue`, had the email accepted, and finalized.
pub open spec fn delivering_pass(
    config: WorkerConfig,
    worker: u64,
    q0: Seq<RowView>,
    q1: Seq<RowView>,
    q2: Seq<RowView>,
    task: DeliveryTask,
    email: String,
    name: String,
    issue: NewsletterIssue,
    steps: Seq<Step>,
    deleted: bool,
) -> bool {
    &&& valid_email(email@)
    &&& valid_name(name@)
    &&& email@ == task.recipient@
    &&& steps.len() == 4
    &&& claim_result(q0, q1, worker, Some(task@))
    &&& is_transition(config, WorkerState::Claiming, WorkerEvent::Claimed(Some(task)), steps[0])
    &&& is_transition(config, steps[0].state, WorkerEvent::SubscriberFound { email, name }, steps[1])
    &&& is_transition(config, steps[1].state, WorkerEvent::IssueFound(issue), steps[2])
    &&& is_transition(config, steps[2].state, WorkerEvent::Delivered, steps[3])
    &&& steps[3].action matches WorkerAction::Finalize(t) && finalize_result(
        q1,
        q2,
        worker,
        t@,
        deleted,
    )
}

/// Delivering a backlog: when a worker runs pass after pass over the queue,
/// each recipient's stored data being valid and the dispatcher accepting every
/// email, then pass `k` sends exactly one email, to the recipient of the task
/// it claimed and with the issue's content, and deletes that task; no two
/// passes claim the same task; and once the queue is empty, every task that it
/// held at the start has had its one email.
pub proof fn lemma_backlog_delivered_once_each(
    config: WorkerConfig,
    worker: u64,
    qs: Seq<Seq<RowView>>,
    tasks: Seq<DeliveryTask>,
    emails: Seq<String>,
    names: Seq<String>,
    issues: Seq<NewsletterIssue>,
    steps: Seq<Seq<Step>>,
    deleted: Seq<bool>,
)
    requires
        qs.len() == 2 * tasks.len() + 1,
        emails.len() == tasks.len(),
        names.len() == tasks.len(),
        issues.len() == tasks.len(),
        steps.len() == tasks.len(),
        deleted.len() == tasks.len(),
        keys_unique(qs[0]),
        forall|k: int|
            0 <= k < tasks.len() ==> #[trigger] delivering_pass(
                config,
                worker,
                qs[2 * k],
                qs[2 * k + 1],
                qs[2 * k + 2],
                tasks[k],
                emails[k],
                names[k],
                issues[k],
                steps[k],
                deleted[k],
            ),
    ensures
        forall|k: int|
            0 <= k < tasks.len() ==> {
                &&& (#[trigger] steps[k])[2].action matches WorkerAction::Send(m) && {
                    &&& m.recipient@ == tasks[k].recipient@
                    &&& m.recipient_name@ == names[k]@
                    &&& m.subject@ == issues[k].title@
                    &&& m.html_content@ == issues[k].html_content@
                    &&& m.text_content@ == issues[k].text_content@
                }
                &&& !(steps[k][0].action is Send)
                &&& !(steps[k][1].action is Send)
                &&& !(steps[k][3].action is Send)
                &&& deleted[k]
            },
        forall|j: int, k: int| 0 <= j < k < tasks.len() ==> #[trigger] tasks[j]@ != #[trigger] tasks[k]@,
        qs.last().len() == qs[0].len() - tasks.len(),
        qs.last().len() == 0 ==> forall|x: TaskKey|
            #[trigger] has_key(qs[0], x) ==> exists|k: int| 0 <= k < tasks.len() && tasks[k]@ == x,
{
    let keys = tasks.map_values(|t: DeliveryTask| t@);
    assert forall|k: int| 0 <= k < tasks.len() implies {
        &&& claim_result(qs[2 * k], qs[2 * k + 1], worker, Some(keys[k]))
        &&& finalize_result(qs[2 * k + 1], qs[2 * k + 2], worker, keys[k], true)
        &&& deleted[k]
        &&& (#[trigger] steps[k])[2].action matches WorkerAction::Send(m) && {
            &&& m.recipient@ == tasks[k].recipient@
            &&& m.recipient_name@ == names[k]@
            &&& m.subject@ == issues[k].title@
            &&& m.html_content@ == issues[k].html_content@
            &&& m.text_content@ == issues[k].text_content@
        }
        &&& !(steps[k][0].action is Send)
        &&& !(steps[k][1].action is Send)
        &&& !(steps[k][3].action is Send)
    } by {
        assert(delivering_pass(
            config,
            worker,
            qs[2 * k],
            qs[2 * k + 1],
            qs[2 * k + 2],
            tasks[k],
            emails[k],
            names[k],
            issues[k],
            steps[k],
            deleted[k],
        ));
        let st = steps[k];
        lemma_valid_pass_delivers_once(
            config,
            tasks[k],
            emails[k],
            names[k],
            issues[k],
            st[0],
            st[1],
            st[2],
            st[3],
        );
        assert(keys[k] == tasks[k]@);
        let q0 = qs[2 * k];
        let q1 = qs[2 * k + 1];
        let i = choose|i: int|
            crate::queue::first_free(q0, i) && keys[k] == q0[i].0 && q1 == #[trigger] q0.update(
                i,
                (keys[k], Some(worker)),
            );
        assert(held_at(q1, keys[k], worker, i));
    }
    assert forall|k: int| 0 <= k < keys.len() implies claim_result(
        #[trigger] qs[2 * k],
        qs[2 * k + 1],
        worker,
        Some(keys[k]),
    ) && finalize_result(qs[2 * k + 1], qs[2 * k + 2], worker, keys[k], true) by {
        let _st = steps[k];
    }
    lemma_drain_hands_out_each_task_once(qs, keys, worker);
    assert forall|j: int, k: int| 0 <= j < k < tasks.len() implies #[trigger] tasks[j]@
        != #[trigger] tasks[k]@ by {
        assert(keys[j] == tasks[j]@ && keys[k] == tasks[k]@);
    }
    if qs.last().len() == 0 {
        assert forall|x: TaskKey| #[trigger] has_key(qs[0], x) implies exists|k: int|
            0 <= k < tasks.len() && tasks[k]@ == x by {
            assert(keys.contains(x));
            let k = choose|k: int| 0 <= k < keys.len() && keys[k] == x;
            assert(tasks[k]@ == x);
        }
    }
}

} // verus!

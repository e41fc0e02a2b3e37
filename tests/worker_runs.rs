use newsletter_delivery::queue::{DeliveryTask, WorkQueue};
use newsletter_delivery::worker::{
    step, Diagnostic, ExecutionOutcome, NewsletterIssue, WorkerAction, WorkerConfig, WorkerEvent,
    WorkerState,
};

struct Store {
    subscribers: Vec<(String, String)>,
    issues: Vec<(u128, String, String, String)>,
    dispatcher_accepts: bool,
}

#[derive(Default)]
struct Record {
    sent: Vec<(String, String, String, String, String)>,
    deleted: usize,
    diagnostics: Vec<String>,
    lookups: usize,
    sleeps: Vec<u64>,
    empty: bool,
}

fn perform(
    action: &WorkerAction,
    queue: &mut WorkQueue,
    worker: u64,
    store: &Store,
    record: &mut Record,
) -> WorkerEvent {
    match action {
        WorkerAction::Claim => WorkerEvent::Claimed(queue.claim(worker)),
        WorkerAction::LookUpSubscriber { recipient } => {
            record.lookups += 1;
            match store.subscribers.iter().find(|(e, _)| e == recipient) {
                Some((e, n)) => WorkerEvent::SubscriberFound { email: e.clone(), name: n.clone() },
                None => WorkerEvent::SubscriberLookupFailed,
            }
        }
        WorkerAction::LookUpIssue { issue_id } => {
            record.lookups += 1;
            match store.issues.iter().find(|i| i.0 == *issue_id) {
                Some((_, title, html, text)) => WorkerEvent::IssueFound(NewsletterIssue {
                    title: title.clone(),
                    text_content: text.clone(),
                    html_content: html.clone(),
                }),
                None => WorkerEvent::IssueLookupFailed,
            }
        }
        WorkerAction::Send(m) => {
            if store.dispatcher_accepts {
                record.sent.push((
                    m.recipient.as_str().to_string(),
                    m.recipient_name.as_str().to_string(),
                    m.subject.clone(),
                    m.html_content.clone(),
                    m.text_content.clone(),
                ));
                WorkerEvent::Delivered
            } else {
                WorkerEvent::DeliveryFailed
            }
        }
        WorkerAction::Finalize(t) => {
            if queue.finalize(worker, t) {
                record.deleted += 1;
                WorkerEvent::Finalized
            } else {
                WorkerEvent::FinalizeFailed
            }
        }
        WorkerAction::Sleep { secs } => {
            queue.release(worker);
            record.sleeps.push(*secs);
            WorkerEvent::Woke
        }
    }
}

fn note(record: &mut Record, d: &Option<Diagnostic>, o: &Option<ExecutionOutcome>) {
    match d {
        Some(Diagnostic::InvalidSubscriberData(_)) => record.diagnostics.push("invalid".into()),
        Some(Diagnostic::DispatchFailure) => record.diagnostics.push("dispatch".into()),
        Some(Diagnostic::StoreUnavailable) => record.diagnostics.push("store".into()),
        Some(Diagnostic::SubscriberLookupFailed) => record.diagnostics.push("lookup".into()),
        Some(Diagnostic::UnexpectedEvent) => record.diagnostics.push("unexpected".into()),
        None => {}
    }
    if matches!(o, Some(ExecutionOutcome::EmptyQueue)) {
        record.empty = true;
    }
}

/// Runs one worker until it finds the queue empty.
fn run_to_exhaustion(queue: &mut WorkQueue, store: &Store, record: &mut Record) {
    let config = WorkerConfig::new();
    let mut state = WorkerState::Claiming;
    let mut action = WorkerAction::Claim;
    for _ in 0..1000 {
        let event = perform(&action, queue, 1, store, record);
        let s = step(&config, state, event);
        note(record, &s.diagnostic, &s.outcome);
        state = s.state;
        action = s.action;
        if record.empty {
            perform(&action, queue, 1, store, record);
            return;
        }
    }
    panic!("the worker did not drain the queue");
}

fn issue_store(subscribers: Vec<(String, String)>, accepts: bool) -> Store {
    Store {
        subscribers,
        issues: vec![(1, "Hello".into(), "<p>Hi</p>".into(), "Hi".into())],
        dispatcher_accepts: accepts,
    }
}

fn queue_of(recipients: &[&str]) -> WorkQueue {
    let mut q = WorkQueue::new();
    for r in recipients {
        assert!(q.enqueue(DeliveryTask::new(1, r.to_string())));
    }
    q
}

#[test]
fn one_valid_subscriber_gets_one_email() {
    let store = issue_store(vec![("a@example.com".into(), "Alice".into())], true);
    let mut q = queue_of(&["a@example.com"]);
    let mut rec = Record::default();
    run_to_exhaustion(&mut q, &store, &mut rec);
    assert_eq!(q.len(), 0);
    assert_eq!(rec.sent.len(), 1);
    assert_eq!(rec.sent[0].0, "a@example.com");
    assert_eq!(rec.sent[0].1, "Alice");
    assert_eq!(rec.sent[0].2, "Hello");
    assert_eq!(rec.sent[0].3, "<p>Hi</p>");
    assert_eq!(rec.sent[0].4, "Hi");
    assert_eq!(rec.sleeps, vec![10]);
}

#[test]
fn invalid_stored_email_is_skipped_and_deleted() {
    let store = issue_store(vec![("not-an-email".into(), "Alice".into())], true);
    let mut q = queue_of(&["not-an-email"]);
    let mut rec = Record::default();
    run_to_exhaustion(&mut q, &store, &mut rec);
    assert_eq!(q.len(), 0);
    assert_eq!(rec.sent.len(), 0);
    assert_eq!(rec.deleted, 1);
    assert_eq!(rec.diagnostics, vec!["invalid".to_string()]);
}

#[test]
fn every_valid_subscriber_gets_exactly_one_email() {
    let names = ["a@example.com", "b@example.com", "c@example.com", "d@example.com"];
    let subs = names.iter().map(|e| (e.to_string(), format!("Name {e}"))).collect();
    let store = issue_store(subs, true);
    let mut q = queue_of(&names);
    let mut rec = Record::default();
    run_to_exhaustion(&mut q, &store, &mut rec);
    assert_eq!(q.len(), 0);
    assert_eq!(rec.sent.len(), names.len());
    for e in names {
        let got: Vec<_> = rec.sent.iter().filter(|s| s.0 == e).collect();
        assert_eq!(got.len(), 1);
        assert_eq!(got[0].1, format!("Name {e}"));
        assert_eq!(got[0].2, "Hello");
    }
}

#[test]
fn failed_dispatch_still_deletes_the_task() {
    let store = issue_store(vec![("a@example.com".into(), "Alice".into())], false);
    let mut q = queue_of(&["a@example.com"]);
    let mut rec = Record::default();
    run_to_exhaustion(&mut q, &store, &mut rec);
    assert_eq!(q.len(), 0);
    assert_eq!(rec.deleted, 1);
    assert_eq!(rec.sent.len(), 0);
    assert_eq!(rec.diagnostics, vec!["dispatch".to_string()]);
}

#[test]
fn empty_backlog_sleeps_without_lookups() {
    let store = issue_store(vec![], true);
    let mut q = WorkQueue::new();
    let mut rec = Record::default();
    run_to_exhaustion(&mut q, &store, &mut rec);
    assert_eq!(rec.lookups, 0);
    assert_eq!(rec.sent.len(), 0);
    assert_eq!(rec.sleeps, vec![10]);
}

#[test]
fn missing_issue_keeps_the_task_and_backs_off() {
    let mut store = issue_store(vec![("a@example.com".into(), "Alice".into())], true);
    store.issues.clear();
    let mut q = queue_of(&["a@example.com"]);
    let mut rec = Record::default();
    let config = WorkerConfig::new();
    let mut state = WorkerState::Claiming;
    let mut action = WorkerAction::Claim;
    for _ in 0..3 {
        let event = perform(&action, &mut q, 1, &store, &mut rec);
        let s = step(&config, state, event);
        note(&mut rec, &s.diagnostic, &s.outcome);
        state = s.state;
        action = s.action;
    }
    assert!(matches!(action, WorkerAction::Sleep { secs: 1 }));
    assert!(matches!(state, WorkerState::Idle));
    assert_eq!(rec.diagnostics, vec!["store".to_string()]);
    perform(&action, &mut q, 1, &store, &mut rec);
    assert_eq!(q.len(), 1);
    assert!(q.claim(2).is_some());
}

#[test]
fn two_workers_share_the_backlog() {
    let k = 12;
    let names: Vec<String> = (0..k).map(|i| format!("s{i}@example.com")).collect();
    let subs = names.iter().map(|e| (e.clone(), "Sub".to_string())).collect();
    let store = issue_store(subs, true);
    let mut q = WorkQueue::new();
    for n in &names {
        assert!(q.enqueue(DeliveryTask::new(1, n.clone())));
    }
    let config = WorkerConfig::new();
    let mut states = vec![WorkerState::Claiming, WorkerState::Claiming];
    let mut actions = vec![WorkerAction::Claim, WorkerAction::Claim];
    let mut recs = vec![Record::default(), Record::default()];
    let mut turn: usize = 0;
    for _ in 0..10_000 {
        if recs[0].empty && recs[1].empty {
            break;
        }
        let w = turn % 2;
        turn += 1;
        if recs[w].empty {
            continue;
        }
        let state = std::mem::replace(&mut states[w], WorkerState::Idle);
        let event = perform(&actions[w], &mut q, w as u64 + 1, &store, &mut recs[w]);
        let s = step(&config, state, event);
        note(&mut recs[w], &s.diagnostic, &s.outcome);
        states[w] = s.state;
        actions[w] = s.action;
    }
    let sent = recs[0].sent.len() + recs[1].sent.len();
    let deleted = recs[0].deleted + recs[1].deleted;
    assert!(sent <= k);
    assert_eq!(deleted, k);
    assert_eq!(q.len(), 0);
    assert!(recs[0].deleted > 0 && recs[1].deleted > 0);
    let mut all: Vec<String> = recs.iter().flat_map(|r| r.sent.iter().map(|s| s.0.clone())).collect();
    all.sort();
    all.dedup();
    assert_eq!(all.len(), sent);
}

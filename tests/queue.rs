use newsletter_delivery::queue::{DeliveryTask, WorkQueue};

fn task(r: &str) -> DeliveryTask {
    DeliveryTask::new(7, r.to_string())
}

#[test]
fn enqueue_refuses_a_duplicate() {
    let mut q = WorkQueue::new();
    assert!(q.enqueue(task("a@x.io")));
    assert!(!q.enqueue(task("a@x.io")));
    assert!(q.enqueue(DeliveryTask::new(8, "a@x.io".to_string())));
    assert_eq!(q.len(), 2);
}

#[test]
fn claims_skip_held_tasks() {
    let mut q = WorkQueue::new();
    q.enqueue(task("a@x.io"));
    q.enqueue(task("b@x.io"));
    let t1 = q.claim(1).unwrap();
    let t2 = q.claim(2).unwrap();
    assert_eq!(t1.recipient, "a@x.io");
    assert_eq!(t2.recipient, "b@x.io");
    assert!(q.claim(3).is_none());
    assert_eq!(q.len(), 2);
}

#[test]
fn only_the_holder_finalizes() {
    let mut q = WorkQueue::new();
    q.enqueue(task("a@x.io"));
    let t = q.claim(1).unwrap();
    assert!(!q.finalize(2, &t));
    assert_eq!(q.len(), 1);
    assert!(q.finalize(1, &t));
    assert_eq!(q.len(), 0);
    assert!(!q.finalize(1, &t));
}

#[test]
fn release_makes_a_task_claimable_again() {
    let mut q = WorkQueue::new();
    q.enqueue(task("a@x.io"));
    let t = q.claim(1).unwrap();
    assert!(q.claim(2).is_none());
    q.release(1);
    let again = q.claim(2).unwrap();
    assert!(again.same_key(&t));
    assert!(!q.finalize(1, &t));
    assert!(q.finalize(2, &t));
}

#[test]
fn claim_on_empty_queue_gives_nothing() {
    let mut q = WorkQueue::new();
    assert!(q.claim(1).is_none());
    assert_eq!(q.len(), 0);
}

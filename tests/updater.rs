use mailwatch::updater::{MailUpdater, MailUpdaterTask};
use mailwatch::watcher::FileWatcherEvent;
use std::cell::RefCell;

fn task(account: Option<&str>, mailbox: Option<&str>) -> MailUpdaterTask {
    MailUpdaterTask::new(account.map(|a| a.to_owned()), mailbox.map(|m| m.to_owned()))
}

fn scope(t: &MailUpdaterTask) -> (Option<String>, Option<String>) {
    (t.specific_account.clone(), t.specific_mailbox.clone())
}

#[test]
fn it_should_cover_tasks() {
    let queued_task = MailUpdaterTask::new(None, None);
    let task = MailUpdaterTask::new(None, None);
    assert!(queued_task.covers(&task));
    let queued_task = MailUpdaterTask::new(Some("account".to_owned()), None);
    let task = MailUpdaterTask::new(None, None);
    assert!(!queued_task.covers(&task));
    let queued_task = MailUpdaterTask::new(Some("account".to_owned()), None);
    let task = MailUpdaterTask::new(Some("account".to_owned()), None);
    assert!(queued_task.covers(&task));
    let queued_task = MailUpdaterTask::new(Some("account1".to_owned()), None);
    let task = MailUpdaterTask::new(Some("account2".to_owned()), None);
    assert!(!queued_task.covers(&task));
    let queued_task = MailUpdaterTask::new(Some("account".to_owned()), None);
    let task = MailUpdaterTask::new(Some("account".to_owned()), Some("mailbox".to_owned()));
    assert!(queued_task.covers(&task));
    let queued_task =
        MailUpdaterTask::new(Some("account".to_owned()), Some("mailbox1".to_owned()));
    let task = MailUpdaterTask::new(Some("account".to_owned()), Some("mailbox2".to_owned()));
    assert!(!queued_task.covers(&task));
    let queued_task =
        MailUpdaterTask::new(Some("account".to_owned()), Some("mailbox1".to_owned()));
    let task = MailUpdaterTask::new(Some("account".to_owned()), None);
    assert!(!queued_task.covers(&task));
    let queued_task =
        MailUpdaterTask::new(Some("account".to_owned()), Some("mailbox1".to_owned()));
    let task = MailUpdaterTask::new(Some("account".to_owned()), Some("mailbox1".to_owned()));
    assert!(queued_task.covers(&task));
}

#[test]
fn covers_is_reflexive_on_each_level() {
    for t in [task(None, None), task(Some("a"), None), task(Some("a"), Some("Inbox"))] {
        assert!(t.covers(&t));
    }
}

#[test]
fn covers_lattice_levels() {
    let all = task(None, None);
    let account = task(Some("a"), None);
    let mailbox = task(Some("a"), Some("Inbox"));
    assert!(all.covers(&account));
    assert!(all.covers(&mailbox));
    assert!(account.covers(&mailbox));
    assert!(!mailbox.covers(&account));
    assert!(!task(Some("a"), Some("Inbox")).covers(&task(Some("b"), Some("Inbox"))));
    assert!(!task(Some("a"), Some("Inbox")).covers(&task(Some("a"), Some("Sent"))));
}

#[test]
fn enqueue_of_covered_task_is_skipped() {
    let mut q = MailUpdater::new();
    q.queue_task(task(Some("a"), None));
    q.queue_task(task(Some("a"), Some("Inbox")));
    assert_eq!(q.len(), 1);
    q.queue_task(task(Some("a"), None));
    assert_eq!(q.len(), 1);
    assert_eq!(scope(&q.front().unwrap()), (Some("a".to_owned()), None));
}

#[test]
fn enqueue_of_broader_task_keeps_narrower() {
    let mut q = MailUpdater::new();
    q.queue_task(task(Some("a"), Some("Inbox")));
    q.queue_task(task(None, None));
    assert_eq!(q.len(), 2);
    assert_eq!(scope(&q.front().unwrap()), (Some("a".to_owned()), Some("Inbox".to_owned())));
    q.complete_front();
    assert_eq!(scope(&q.front().unwrap()), (None, None));
}

#[test]
fn tasks_leave_in_fifo_order() {
    let mut q = MailUpdater::new();
    q.queue_task(task(Some("a"), Some("Inbox")));
    q.queue_task(task(Some("b"), Some("Inbox")));
    assert_eq!(scope(&q.front().unwrap()), (Some("a".to_owned()), Some("Inbox".to_owned())));
    q.complete_front();
    assert_eq!(scope(&q.front().unwrap()), (Some("b".to_owned()), Some("Inbox".to_owned())));
    q.complete_front();
    assert!(q.front().is_none());
    assert!(q.is_empty());
    q.complete_front();
    assert!(q.is_empty());
}

#[test]
fn in_flight_head_still_covers() {
    let mut q = MailUpdater::new();
    q.queue_task(task(None, None));
    let head = q.front().unwrap();
    assert_eq!(scope(&head), (None, None));
    q.queue_task(task(Some("a"), Some("Inbox")));
    assert_eq!(q.len(), 1);
    q.complete_front();
    q.queue_task(task(Some("a"), Some("Inbox")));
    assert_eq!(q.len(), 1);
}

#[test]
fn end_to_end_queue_lengths() {
    let mut q = MailUpdater::new();
    q.queue_task(task(Some("a"), None));
    q.queue_task(task(Some("a"), Some("Inbox")));
    assert_eq!(q.len(), 1);
    let mut q = MailUpdater::new();
    q.queue_task(task(Some("a"), Some("Inbox")));
    q.queue_task(task(None, None));
    assert_eq!(q.len(), 2);
}

#[test]
fn process_queue_runs_each_task_in_order() {
    let mut q = MailUpdater::new();
    q.queue_task(task(Some("a"), Some("Inbox")));
    q.queue_task(task(Some("b"), None));
    q.queue_task(task(None, None));
    let seen = RefCell::new(Vec::new());
    let done = q.process_queue(|t: &MailUpdaterTask| {
        seen.borrow_mut().push(scope(t));
        seen.borrow().len()
    });
    assert!(q.is_empty());
    assert_eq!(done, vec![1, 2, 3]);
    assert_eq!(
        seen.into_inner(),
        vec![
            (Some("a".to_owned()), Some("Inbox".to_owned())),
            (Some("b".to_owned()), None),
            (None, None),
        ]
    );
}

#[test]
fn change_event_becomes_mailbox_task() {
    let t = MailUpdaterTask::for_change(FileWatcherEvent {
        account: "acc1".to_owned(),
        mailbox: "Später".to_owned(),
    });
    assert_eq!(scope(&t), (Some("acc1".to_owned()), Some("Später".to_owned())));
    let d = t.duplicate();
    assert_eq!(scope(&d), scope(&t));
}

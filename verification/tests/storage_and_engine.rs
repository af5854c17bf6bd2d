//! Tests of the in-memory storage, the task queue and the engine's control
//! decisions.

use mailstrom::delivery_result::DeliveryResult;
use mailstrom::message_status::{InternalMessageStatus, MessageStatus};
use mailstrom::prepared_email::PreparedEmail;
use mailstrom::recipient_status::{InternalRecipientStatus, RecipientStatus};
use mailstrom::storage::{MailstromStorage, MailstromStorageError, MemoryStorage, MemoryStorageError};
use mailstrom::task::{Task, TaskQueue, TaskType, task_eq};
use mailstrom::text::u8_to_decimal_string;
use mailstrom::worker::{Engine, Message, WorkerStatus, LOOP_DELAY};

fn sample_pair(id: &str, attempts_remaining: u8, result: DeliveryResult) -> (
    PreparedEmail,
    InternalMessageStatus,
) {
    let prepared = PreparedEmail {
        to: vec!["a@ex.test".to_string()],
        from: "me@my.test".to_string(),
        message_id: id.to_string(),
        message: b"Subject: hi\r\n\r\nbody".to_vec(),
    };
    let status = InternalMessageStatus {
        message_id: id.to_string(),
        recipients: vec![InternalRecipientStatus {
            email_addr: "a@ex.test".to_string(),
            smtp_email_addr: "a@ex.test".to_string(),
            domain: "ex.test".to_string(),
            mx_servers: None,
            current_mx: 0,
            result,
        }],
        attempts_remaining,
    };
    (prepared, status)
}

#[test]
fn store_and_retrieve_round_trip() {
    let mut storage = MemoryStorage::new();
    let (prepared, status) = sample_pair("one@id.test", 3, DeliveryResult::Queued);
    storage.store(prepared, status).unwrap();

    let (p, s) = storage.retrieve("one@id.test").unwrap();
    assert_eq!(p.message_id, "one@id.test");
    assert_eq!(p.to, vec!["a@ex.test".to_string()]);
    assert_eq!(s.message_id, "one@id.test");
    assert_eq!(s.attempts_remaining, 3);

    let s2 = storage.retrieve_status("one@id.test").unwrap();
    assert_eq!(s2.message_id, "one@id.test");
}

#[test]
fn retrieve_unknown_fails() {
    let storage = MemoryStorage::new();
    assert!(matches!(storage.retrieve("nope@id.test"), Err(MemoryStorageError::NotFound)));
    assert!(matches!(
        storage.retrieve_status("nope@id.test"),
        Err(MemoryStorageError::NotFound)
    ));
    let err = storage.retrieve("nope@id.test").unwrap_err();
    assert_eq!(err.description_string(), "Memory Storage Error: Email not found");
}

#[test]
fn update_status_unknown_fails() {
    let mut storage = MemoryStorage::new();
    let (_, status) = sample_pair("ghost@id.test", 3, DeliveryResult::Queued);
    assert!(matches!(storage.update_status(status), Err(MemoryStorageError::NotFound)));
}

#[test]
fn store_overwrites_by_message_id() {
    let mut storage = MemoryStorage::new();
    let (p1, s1) = sample_pair("same@id.test", 3, DeliveryResult::Queued);
    storage.store(p1, s1).unwrap();
    let (p2, mut s2) = sample_pair("same@id.test", 1, DeliveryResult::Queued);
    s2.recipients[0].email_addr = "b@ex.test".to_string();
    storage.store(p2, s2).unwrap();

    let all = storage.retrieve_all_incomplete().unwrap();
    assert_eq!(all.len(), 1);
    assert_eq!(all[0].attempts_remaining, 1);
    assert_eq!(all[0].recipients[0].email_addr, "b@ex.test");
}

#[test]
fn update_status_keeps_email() {
    let mut storage = MemoryStorage::new();
    let (p, s) = sample_pair("u@id.test", 3, DeliveryResult::Queued);
    storage.store(p, s).unwrap();

    let (_, mut s2) = sample_pair("u@id.test", 2, DeliveryResult::Deferred(1, "421".to_string()));
    s2.recipients[0].domain = "ex.test".to_string();
    storage.update_status(s2).unwrap();

    let (p3, s3) = storage.retrieve("u@id.test").unwrap();
    assert_eq!(p3.to, vec!["a@ex.test".to_string()]);
    assert_eq!(s3.attempts_remaining, 2);
}

#[test]
fn incomplete_excludes_finished() {
    let mut storage = MemoryStorage::new();
    let (p1, s1) = sample_pair("going@id.test", 2, DeliveryResult::Queued);
    let (p2, s2) = sample_pair(
        "done@id.test",
        0,
        DeliveryResult::Delivered("250 ok".to_string()),
    );
    storage.store(p1, s1).unwrap();
    storage.store(p2, s2).unwrap();

    let incomplete = storage.retrieve_all_incomplete().unwrap();
    assert_eq!(incomplete.len(), 1);
    assert_eq!(incomplete[0].message_id, "going@id.test");
}

#[test]
fn recent_reports_completed_once() {
    let mut storage = MemoryStorage::new();
    let (p1, s1) = sample_pair("going@id.test", 2, DeliveryResult::Queued);
    let (p2, s2) = sample_pair(
        "done@id.test",
        0,
        DeliveryResult::Delivered("250 ok".to_string()),
    );
    storage.store(p1, s1).unwrap();
    storage.store(p2, s2).unwrap();

    let first = storage.retrieve_all_recent().unwrap();
    let first_ids: Vec<&str> = first.iter().map(|s| s.message_id.as_str()).collect();
    assert!(first_ids.contains(&"going@id.test"));
    assert!(first_ids.contains(&"done@id.test"));

    let second = storage.retrieve_all_recent().unwrap();
    let second_ids: Vec<&str> = second.iter().map(|s| s.message_id.as_str()).collect();
    assert!(second_ids.contains(&"going@id.test"));
    assert!(!second_ids.contains(&"done@id.test"));
}

#[test]
fn task_queue_orders_by_time_with_stable_ties() {
    let mut q = TaskQueue::new();
    q.insert(Task { tasktype: TaskType::Resend, time: 50, message_id: "b".to_string() });
    q.insert(Task { tasktype: TaskType::Resend, time: 10, message_id: "a".to_string() });
    q.insert(Task { tasktype: TaskType::Resend, time: 50, message_id: "c".to_string() });
    assert_eq!(q.len(), 3);
    assert_eq!(q.get(0).message_id, "a");
    assert_eq!(q.get(1).message_id, "b");
    assert_eq!(q.get(2).message_id, "c");
}

#[test]
fn due_tasks_include_tasks_due_now() {
    let mut q = TaskQueue::new();
    q.insert(Task { tasktype: TaskType::Resend, time: 10, message_id: "a".to_string() });
    q.insert(Task { tasktype: TaskType::Resend, time: 20, message_id: "b".to_string() });
    q.insert(Task { tasktype: TaskType::Resend, time: 30, message_id: "c".to_string() });

    // A task due exactly now is due.
    let due = q.due_tasks(20);
    assert_eq!(due.len(), 2);
    assert_eq!(due[0].message_id, "a");
    assert_eq!(due[1].message_id, "b");

    let due = q.due_tasks(9);
    assert_eq!(due.len(), 0);

    let due = q.due_tasks(30);
    assert_eq!(due.len(), 3);
}

#[test]
fn remove_takes_first_structural_match() {
    let mut q = TaskQueue::new();
    let t = Task { tasktype: TaskType::Resend, time: 10, message_id: "a".to_string() };
    q.insert(t.clone());
    q.insert(Task { tasktype: TaskType::Resend, time: 10, message_id: "z".to_string() });
    assert!(task_eq(&t, q.get(0)));
    q.remove(&t);
    assert_eq!(q.len(), 1);
    assert_eq!(q.get(0).message_id, "z");
    // Removing a task that is not queued leaves the queue alone.
    q.remove(&t);
    assert_eq!(q.len(), 1);
}

#[test]
fn wait_computation() {
    let mut engine = Engine::new();
    assert!(engine.paused);
    // Paused: the fixed loop delay.
    assert_eq!(engine.compute_wait(0), LOOP_DELAY);
    let terminate = engine.handle_control(Message::Start, 0);
    assert!(!terminate);
    assert!(!engine.paused);
    // Running with nothing queued: the fixed loop delay.
    assert_eq!(engine.compute_wait(0), LOOP_DELAY);
    // A queued task: the time until it is due, zero when overdue.
    engine.handle_control(Message::SendEmail("m@id.test".to_string()), 40);
    assert_eq!(engine.compute_wait(25), 15);
    assert_eq!(engine.compute_wait(40), 0);
    assert_eq!(engine.compute_wait(90), 0);
}

#[test]
fn control_messages() {
    let mut engine = Engine::new();
    let terminate = engine.handle_control(Message::SendEmail("m@id.test".to_string()), 7);
    assert!(!terminate);
    assert!(engine.paused);
    assert_eq!(engine.tasks.len(), 1);
    assert_eq!(engine.tasks.get(0).message_id, "m@id.test");
    assert_eq!(engine.tasks.get(0).time, 7);
    assert_eq!(engine.tasks.get(0).tasktype, TaskType::Resend);
    let terminate = engine.handle_control(Message::Terminate, 8);
    assert!(terminate);
}

#[test]
fn load_incomplete_queues_one_task_per_message() {
    let (_, s1) = sample_pair("one@id.test", 2, DeliveryResult::Queued);
    let (_, s2) = sample_pair("two@id.test", 1, DeliveryResult::Queued);
    let mut engine = Engine::new();
    engine.load_incomplete(&vec![s1, s2], 5);
    assert_eq!(engine.tasks.len(), 2);
    assert_eq!(engine.tasks.get(0).message_id, "one@id.test");
    assert_eq!(engine.tasks.get(1).message_id, "two@id.test");
    assert_eq!(engine.tasks.get(0).time, 5);
}

#[test]
fn worker_status_byte_round_trip() {
    let all = [
        WorkerStatus::Healthy,
        WorkerStatus::Terminated,
        WorkerStatus::ChannelDisconnected,
        WorkerStatus::LockPoisoned,
        WorkerStatus::StorageWriteFailed,
        WorkerStatus::StorageReadFailed,
        WorkerStatus::ResolverCreationFailed,
        WorkerStatus::Unknown,
    ];
    for w in all {
        assert_eq!(WorkerStatus::from_u8(w.to_u8()), w);
    }
    assert_eq!(WorkerStatus::from_u8(42), WorkerStatus::Unknown);
}

#[test]
fn decimal_rendering() {
    assert_eq!(u8_to_decimal_string(0), "0");
    assert_eq!(u8_to_decimal_string(7), "7");
    assert_eq!(u8_to_decimal_string(42), "42");
    assert_eq!(u8_to_decimal_string(100), "100");
    assert_eq!(u8_to_decimal_string(255), "255");
}

#[test]
fn message_status_summaries() {
    let delivered = RecipientStatus {
        recipient: "a@ex.test".to_string(),
        result: DeliveryResult::Delivered("250".to_string()),
    };
    let failed = RecipientStatus {
        recipient: "b@ex.test".to_string(),
        result: DeliveryResult::Failed("550".to_string()),
    };
    let queued = RecipientStatus {
        recipient: "c@ex.test".to_string(),
        result: DeliveryResult::Queued,
    };

    let all_delivered = MessageStatus {
        message_id: "m1@id.test".to_string(),
        recipient_status: vec![delivered],
    };
    assert!(all_delivered.succeeded());
    assert!(all_delivered.completed());

    let mixed = MessageStatus {
        message_id: "m2@id.test".to_string(),
        recipient_status: vec![failed, queued],
    };
    assert!(!mixed.succeeded());
    assert!(!mixed.completed());

    assert!(!DeliveryResult::Queued.completed());
    assert!(!DeliveryResult::Deferred(1, "421".to_string()).completed());
    assert!(DeliveryResult::Delivered("250".to_string()).completed());
    assert!(DeliveryResult::Failed("550".to_string()).completed());
}

use zero2prod::authentication::UserId;
use zero2prod::delivery_queue::DeliveryQueue;
use zero2prod::delivery_queue::DeliveryTask;
use zero2prod::delivery_queue::DuplicateTask;
use zero2prod::domain::SubscriberEmail;
use zero2prod::issue_delivery_worker::abandon_delivery;
use zero2prod::issue_delivery_worker::complete_delivery;
use zero2prod::issue_delivery_worker::delivery_result;
use zero2prod::issue_delivery_worker::plan_delivery;
use zero2prod::issue_delivery_worker::retires_after;
use zero2prod::issue_delivery_worker::retires_task;
use zero2prod::issue_delivery_worker::task_result;
use zero2prod::issue_delivery_worker::try_execute_delivery;
use zero2prod::issue_delivery_worker::worker_loop_delay;
use zero2prod::issue_delivery_worker::DeliveryError;
use zero2prod::issue_delivery_worker::DeliveryResult;
use zero2prod::issue_delivery_worker::DeliveryStep;
use zero2prod::issue_delivery_worker::ExecutionOutcome;
use zero2prod::issue_delivery_worker::Iteration;
use zero2prod::issue_delivery_worker::OutgoingEmail;
use zero2prod::issue_delivery_worker::SendOutcome;
use zero2prod::issue_delivery_worker::WorkerConfig;
use zero2prod::routes::admin::submit_issue;
use zero2prod::routes::admin::IssueFormContent;
use zero2prod::store::Store;

fn subscriber(store: &mut Store, email: SubscriberEmail) {
    let address = email.to_string();
    assert!(store.insert_subscriber(&email));
    assert!(store.confirm_subscriber(&address));
}

fn store_with_issue(addresses: &[&str], issue_id: u128) -> Store {
    let mut store = Store::new();
    for address in addresses {
        subscriber(&mut store, SubscriberEmail::parse(address.to_string()).unwrap());
    }
    let form = IssueFormContent {
        title: "Newsletter title".to_string(),
        html_content: "<p>HTML body!</p>".to_string(),
        text_content: "Plain text body".to_string(),
        idempotency_key: format!("key-{}", issue_id),
    };
    assert!(submit_issue(&mut store, UserId(1), form, issue_id, 10).is_ok());
    store
}

fn emails(addresses: &[&str]) -> Vec<String> {
    addresses.iter().map(|address| address.to_string()).collect()
}

#[test]
fn an_empty_queue_is_reported_and_stays_empty() {
    let mut store = Store::new();
    assert!(matches!(try_execute_delivery(&mut store), Ok(DeliveryStep::EmptyQueue)));
    assert_eq!(store.counts(), (0, 0, 0));
}

#[test]
fn a_delivery_carries_the_issue_to_the_subscriber() {
    let mut store = store_with_issue(&["ursula_le_guin@gmail.com"], 4);
    match try_execute_delivery(&mut store).unwrap() {
        DeliveryStep::Send(task, email) => {
            assert_eq!(task.issue_id(), 4);
            assert_eq!(task.subscriber_email(), "ursula_le_guin@gmail.com");
            assert_eq!(
                email,
                OutgoingEmail {
                    recipient: SubscriberEmail::parse("ursula_le_guin@gmail.com".to_string())
                        .unwrap(),
                    subject: "Newsletter title".to_string(),
                    html_content: "<p>HTML body!</p>".to_string(),
                    text_content: "Plain text body".to_string(),
                }
            );
            // The task stays in the queue while the email is under way.
            assert_eq!(store.counts().2, 1);
            assert_eq!(
                complete_delivery(&mut store, task, SendOutcome::Delivered),
                ExecutionOutcome::TaskCompleted
            );
        }
        other => panic!("{:?}", other),
    }
    assert_eq!(store.counts().2, 0);
    assert!(matches!(try_execute_delivery(&mut store), Ok(DeliveryStep::EmptyQueue)));
}

#[test]
fn a_failed_sending_retires_the_task_all_the_same() {
    let mut store = store_with_issue(&["a@example.com", "b@example.com"], 4);
    match try_execute_delivery(&mut store).unwrap() {
        DeliveryStep::Send(task, _) => {
            assert_eq!(
                complete_delivery(&mut store, task, SendOutcome::TransportFailure),
                ExecutionOutcome::TaskCompleted
            );
        }
        other => panic!("{:?}", other),
    }
    assert_eq!(store.counts().2, 1);
    match try_execute_delivery(&mut store).unwrap() {
        DeliveryStep::Send(task, email) => {
            assert_eq!(email.recipient.as_ref(), "b@example.com");
            complete_delivery(&mut store, task, SendOutcome::Delivered);
        }
        other => panic!("{:?}", other),
    }
    assert_eq!(store.counts().2, 0);
    assert!(retires_after(DeliveryResult::Delivered));
    assert!(retires_after(DeliveryResult::SkippedInvalidAddress));
    assert!(retires_after(DeliveryResult::TransientFailure));
    assert_eq!(task_result(false, None), Some(DeliveryResult::SkippedInvalidAddress));
    assert_eq!(
        task_result(false, Some(SendOutcome::Delivered)),
        Some(DeliveryResult::SkippedInvalidAddress)
    );
    assert_eq!(task_result(true, None), None);
    assert_eq!(task_result(true, Some(SendOutcome::Delivered)), Some(DeliveryResult::Delivered));
    assert_eq!(
        task_result(true, Some(SendOutcome::TransportFailure)),
        Some(DeliveryResult::TransientFailure)
    );
    assert!(retires_task(SendOutcome::Delivered));
    assert!(retires_task(SendOutcome::TransportFailure));
    assert_eq!(delivery_result(SendOutcome::Delivered), DeliveryResult::Delivered);
    assert_eq!(
        delivery_result(SendOutcome::TransportFailure),
        DeliveryResult::TransientFailure
    );
}

#[test]
fn a_stored_address_that_is_no_email_address_is_skipped() {
    let mut store = Store::new();
    subscriber(&mut store, SubscriberEmail::from_validation("corrupt".to_string(), true).unwrap());
    subscriber(&mut store, SubscriberEmail::parse("b@example.com".to_string()).unwrap());
    let form = IssueFormContent {
        title: "T".to_string(),
        html_content: "h".to_string(),
        text_content: "t".to_string(),
        idempotency_key: "key".to_string(),
    };
    assert!(submit_issue(&mut store, UserId(1), form, 4, 10).is_ok());
    assert_eq!(store.counts().2, 2);
    match try_execute_delivery(&mut store).unwrap() {
        DeliveryStep::SkippedInvalidAddress(task) => {
            assert_eq!(
                task,
                DeliveryTask { issue_id: 4, subscriber_email: "corrupt".to_string() }
            );
        }
        other => panic!("{:?}", other),
    }
    // The skipped task is gone and does not block the one behind it.
    assert_eq!(store.counts().2, 1);
    match try_execute_delivery(&mut store).unwrap() {
        DeliveryStep::Send(task, email) => {
            assert_eq!(email.recipient.as_ref(), "b@example.com");
            complete_delivery(&mut store, task, SendOutcome::Delivered);
        }
        other => panic!("{:?}", other),
    }
    assert_eq!(store.counts().2, 0);
}

#[test]
fn two_workers_never_hold_the_same_task() {
    let mut store = store_with_issue(&["a@example.com", "b@example.com", "c@example.com"], 4);
    let first = store.dequeue_task().unwrap();
    let second = store.dequeue_task().unwrap();
    let third = store.dequeue_task().unwrap();
    assert!(store.dequeue_task().is_none());
    let mut held = vec![
        first.subscriber_email().clone(),
        second.subscriber_email().clone(),
        third.subscriber_email().clone(),
    ];
    assert_eq!(held, emails(&["a@example.com", "b@example.com", "c@example.com"]));
    held.dedup();
    assert_eq!(held.len(), 3);
    // Claimed tasks are still in the queue, and nobody else gets them.
    assert_eq!(store.counts().2, 3);
    assert!(matches!(try_execute_delivery(&mut store), Ok(DeliveryStep::EmptyQueue)));
    assert!(store.delete_task(second));
    assert!(store.delete_task(first));
    assert!(store.delete_task(third));
    assert_eq!(store.counts().2, 0);
}

#[test]
fn an_abandoned_task_is_delivered_by_the_next_worker() {
    let mut store = store_with_issue(&["a@example.com", "b@example.com"], 4);
    match try_execute_delivery(&mut store).unwrap() {
        DeliveryStep::Send(task, email) => {
            assert_eq!(email.recipient.as_ref(), "a@example.com");
            abandon_delivery(&mut store, task);
        }
        other => panic!("{:?}", other),
    }
    assert_eq!(store.counts().2, 2);
    match try_execute_delivery(&mut store).unwrap() {
        DeliveryStep::Send(task, email) => {
            assert_eq!(email.recipient.as_ref(), "a@example.com");
            complete_delivery(&mut store, task, SendOutcome::Delivered);
        }
        other => panic!("{:?}", other),
    }
    assert_eq!(store.counts().2, 1);
}

#[test]
fn a_task_of_another_store_changes_nothing() {
    let mut store = store_with_issue(&["a@example.com"], 4);
    let mut other = store_with_issue(&["b@example.com"], 5);
    let foreign = other.dequeue_task().unwrap();
    assert!(!store.delete_task(foreign));
    assert_eq!(store.counts().2, 1);
    let foreign = other.dequeue_task();
    assert!(foreign.is_none());

    // A task that nobody holds cannot be retired either.
    let mut twin = store_with_issue(&["a@example.com"], 4);
    let same = twin.dequeue_task().unwrap();
    assert!(!store.delete_task(same));
    assert_eq!(store.counts().2, 1);
    let same = twin.dequeue_task();
    assert!(same.is_none());
    let held = store.dequeue_task().unwrap();
    assert!(store.release_task(held));
    assert_eq!(store.counts().2, 1);
}

#[test]
fn a_task_whose_issue_is_missing_goes_back_to_its_queue() {
    let mut store = store_with_issue(&["a@example.com"], 4);
    let mut twin = store_with_issue(&["a@example.com"], 5);
    let held = store.dequeue_task().unwrap();
    let foreign = twin.dequeue_task().unwrap();
    drop(held);
    // The task of issue 5 is unknown to `store`, whose only issue is 4.
    let parsed = SubscriberEmail::parse("a@example.com".to_string());
    assert!(matches!(
        plan_delivery(&mut store, foreign, parsed),
        Err(DeliveryError::IssueNotFound(5))
    ));
    assert_eq!(store.counts().2, 1);
}

#[test]
fn the_verdict_on_the_address_decides_the_plan() {
    let mut store = store_with_issue(&["a@example.com"], 4);
    let task = store.dequeue_task().unwrap();
    let step = plan_delivery(&mut store, task, Err("Invalid email: a@example.com".to_string()));
    assert!(matches!(step, Ok(DeliveryStep::SkippedInvalidAddress(_))));
    assert_eq!(store.counts().2, 0);

    let mut store = store_with_issue(&["a@example.com"], 4);
    let task = store.dequeue_task().unwrap();
    let other = SubscriberEmail::parse("other@example.com".to_string());
    match plan_delivery(&mut store, task, other).unwrap() {
        DeliveryStep::Send(task, email) => {
            assert_eq!(task.subscriber_email(), "a@example.com");
            assert_eq!(email.recipient.as_ref(), "other@example.com");
            assert_eq!(email.subject, "Newsletter title");
        }
        other => panic!("{:?}", other),
    }
    assert_eq!(store.counts().2, 1);
}

#[test]
fn as_many_emails_are_sent_as_there_are_confirmed_subscribers() {
    let addresses: Vec<String> = (0..25).map(|i| format!("reader{}@example.com", i)).collect();
    let views: Vec<&str> = addresses.iter().map(|a| a.as_str()).collect();
    let mut store = store_with_issue(&views, 4);
    let mut sent = Vec::new();
    let mut iterations = 0;
    loop {
        iterations += 1;
        match try_execute_delivery(&mut store).unwrap() {
            DeliveryStep::EmptyQueue => break,
            DeliveryStep::SkippedInvalidAddress(task) => panic!("{:?}", task),
            DeliveryStep::Send(task, email) => {
                sent.push(email.recipient.to_string());
                complete_delivery(&mut store, task, SendOutcome::Delivered);
            }
        }
    }
    assert_eq!(iterations, 26);
    assert_eq!(sent, addresses);
    assert_eq!(store.counts().2, 0);
}

#[test]
fn the_worker_rests_after_an_empty_queue_and_after_a_failure() {
    let config = WorkerConfig::default();
    assert_eq!(config, WorkerConfig { idle_backoff: 10, error_backoff: 1 });
    assert_eq!(
        worker_loop_delay(&config, Iteration::Finished(ExecutionOutcome::TaskCompleted)),
        0
    );
    assert_eq!(
        worker_loop_delay(&config, Iteration::Finished(ExecutionOutcome::EmptyQueue)),
        10
    );
    assert_eq!(worker_loop_delay(&config, Iteration::Failed), 1);
    let other = WorkerConfig { idle_backoff: 3, error_backoff: 7 };
    assert_eq!(worker_loop_delay(&other, Iteration::Finished(ExecutionOutcome::EmptyQueue)), 3);
    assert_eq!(worker_loop_delay(&other, Iteration::Failed), 7);
}

#[test]
fn the_queue_takes_a_list_of_tasks_whole_or_not_at_all() {
    let mut queue = DeliveryQueue::new();
    assert_eq!(queue.len(), 0);
    assert_eq!(queue.enqueue_all(1, &emails(&["a", "b"])), Ok(()));
    assert_eq!(queue.len(), 2);
    assert!(queue.contains(1, &"a".to_string()));
    assert!(!queue.contains(2, &"a".to_string()));
    // The same address for another issue is another task.
    assert_eq!(queue.enqueue_all(2, &emails(&["a"])), Ok(()));
    assert_eq!(queue.len(), 3);
    // A task that is there already refuses the whole list.
    assert_eq!(queue.enqueue_all(2, &emails(&["c", "a", "d"])), Err(DuplicateTask));
    assert_eq!(queue.len(), 3);
    assert!(!queue.contains(2, &"c".to_string()));
    // So does an address that is listed twice.
    assert_eq!(queue.enqueue_all(3, &emails(&["x", "y", "x"])), Err(DuplicateTask));
    assert_eq!(queue.len(), 3);
    assert_eq!(queue.enqueue_all(3, &emails(&[])), Ok(()));
    assert_eq!(queue.len(), 3);
}

#[test]
fn a_queue_is_put_behind_another_whole_or_not_at_all() {
    let mut queue = DeliveryQueue::new();
    queue.enqueue_all(1, &emails(&["a", "b"])).unwrap();
    let mut more = DeliveryQueue::new();
    more.enqueue_all(2, &emails(&["a"])).unwrap();
    more.enqueue_all(1, &emails(&["c"])).unwrap();
    assert_eq!(queue.absorb(more), Ok(()));
    assert_eq!(queue.len(), 4);
    let mut clash = DeliveryQueue::new();
    clash.enqueue_all(3, &emails(&["a"])).unwrap();
    clash.enqueue_all(1, &emails(&["b"])).unwrap();
    assert_eq!(queue.absorb(clash), Err(DuplicateTask));
    assert_eq!(queue.len(), 4);
    assert!(!queue.contains(3, &"a".to_string()));
    let order: Vec<String> = (0..4)
        .map(|_| {
            let task = queue.claim_one().unwrap();
            format!("{}:{}", task.issue_id(), task.subscriber_email())
        })
        .collect();
    assert_eq!(order, vec!["1:a", "1:b", "2:a", "1:c"]);
}

#[test]
fn the_queue_hands_tasks_out_in_order_and_passes_over_claimed_ones() {
    let mut queue = DeliveryQueue::new();
    assert!(queue.claim_one().is_none());
    queue.enqueue_all(1, &emails(&["a", "b", "c"])).unwrap();
    let a = queue.claim_one().unwrap();
    assert_eq!((a.issue_id(), a.subscriber_email().as_str()), (1, "a"));
    let b = queue.claim_one().unwrap();
    assert_eq!(b.subscriber_email(), "b");
    assert!(queue.release(a));
    let a = queue.claim_one().unwrap();
    assert_eq!(a.subscriber_email(), "a");
    assert!(queue.retire(b));
    assert_eq!(queue.len(), 2);
    let c = queue.claim_one().unwrap();
    assert_eq!(c.subscriber_email(), "c");
    assert!(queue.claim_one().is_none());
    assert!(queue.retire(a));
    assert!(queue.retire(c));
    assert_eq!(queue.len(), 0);
}

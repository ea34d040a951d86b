use http_server::pool::{worker_count, worker_ids, Dequeued, JobQueue};

#[test]
fn a_pool_has_at_least_one_worker() {
    assert_eq!(worker_count(0), 1);
    assert_eq!(worker_count(1), 1);
    assert_eq!(worker_count(5), 5);
    assert_eq!(worker_count(usize::MAX), usize::MAX);
}

#[test]
fn workers_are_numbered_from_one() {
    assert_eq!(worker_ids(0), vec![1]);
    assert_eq!(worker_ids(1), vec![1]);
    assert_eq!(worker_ids(5), vec![1, 2, 3, 4, 5]);
}

#[test]
fn jobs_are_handed_out_once_and_oldest_first() {
    let mut queue: JobQueue<u32> = JobQueue::new();
    assert!(queue.submit(1).is_ok());
    assert!(queue.submit(2).is_ok());
    assert!(queue.submit(3).is_ok());
    assert_eq!(queue.len(), 3);
    assert!(matches!(queue.take(), Dequeued::Job(1)));
    assert!(matches!(queue.take(), Dequeued::Job(2)));
    assert!(queue.submit(4).is_ok());
    assert!(matches!(queue.take(), Dequeued::Job(3)));
    assert!(matches!(queue.take(), Dequeued::Job(4)));
    assert!(matches!(queue.take(), Dequeued::Wait));
    assert_eq!(queue.len(), 0);
}

#[test]
fn an_open_queue_without_jobs_says_wait() {
    let mut queue: JobQueue<u32> = JobQueue::new();
    assert!(queue.is_open());
    assert!(matches!(queue.take(), Dequeued::Wait));
    assert!(matches!(queue.take(), Dequeued::Wait));
}

#[test]
fn a_closed_queue_is_drained_before_it_says_closed() {
    let mut queue: JobQueue<&str> = JobQueue::new();
    assert!(queue.submit("a").is_ok());
    assert!(queue.submit("b").is_ok());
    queue.close();
    assert!(!queue.is_open());
    assert!(matches!(queue.take(), Dequeued::Job("a")));
    assert!(matches!(queue.take(), Dequeued::Job("b")));
    assert!(matches!(queue.take(), Dequeued::Closed));
    assert!(matches!(queue.take(), Dequeued::Closed));
}

#[test]
fn a_closed_queue_hands_a_submitted_job_back() {
    let mut queue: JobQueue<String> = JobQueue::new();
    queue.close();
    assert_eq!(queue.submit(String::from("late")), Err(String::from("late")));
    assert_eq!(queue.len(), 0);
    assert!(matches!(queue.take(), Dequeued::Closed));
}

#[test]
fn closing_twice_changes_nothing() {
    let mut queue: JobQueue<u8> = JobQueue::new();
    assert!(queue.submit(9).is_ok());
    queue.close();
    queue.close();
    assert_eq!(queue.len(), 1);
    assert!(matches!(queue.take(), Dequeued::Job(9)));
}

#[test]
fn every_job_of_many_is_handed_out_exactly_once() {
    let mut queue: JobQueue<usize> = JobQueue::new();
    let mut seen = vec![0u32; 1000];
    for job in 0..1000 {
        assert!(queue.submit(job).is_ok());
        if job % 3 == 0 {
            if let Dequeued::Job(taken) = queue.take() {
                seen[taken] += 1;
            }
        }
    }
    queue.close();
    loop {
        match queue.take() {
            Dequeued::Job(taken) => seen[taken] += 1,
            Dequeued::Wait => panic!("a closed queue does not say wait"),
            Dequeued::Closed => break,
        }
    }
    assert!(seen.iter().all(|&count| count == 1));
}

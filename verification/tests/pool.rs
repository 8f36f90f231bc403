use bifrost::thread_pool::JobQueue;

#[test]
fn jobs_leave_in_the_order_of_submission() {
    let mut queue: JobQueue<u32> = JobQueue::new();
    assert!(queue.is_empty());
    queue.submit(1);
    queue.submit(2);
    queue.submit(3);
    assert_eq!(queue.len(), 3);
    assert_eq!(queue.claim(), Some(1));
    assert_eq!(queue.claim(), Some(2));
    assert_eq!(queue.claim(), Some(3));
    assert_eq!(queue.claim(), None);
    assert!(queue.is_empty());
}

#[test]
fn empty_queue_gives_no_job() {
    let mut queue: JobQueue<String> = JobQueue::new();
    assert_eq!(queue.claim(), None);
    assert_eq!(queue.len(), 0);
}

#[test]
fn submissions_and_claims_may_alternate() {
    let mut queue: JobQueue<u32> = JobQueue::new();
    queue.submit(1);
    assert_eq!(queue.claim(), Some(1));
    assert_eq!(queue.claim(), None);
    queue.submit(2);
    queue.submit(3);
    assert_eq!(queue.claim(), Some(2));
    queue.submit(4);
    assert_eq!(queue.claim(), Some(3));
    assert_eq!(queue.claim(), Some(4));
    assert_eq!(queue.claim(), None);
}

#[test]
fn more_jobs_than_workers_are_all_run_once() {
    let mut queue: JobQueue<Box<dyn FnOnce(&mut Vec<u32>)>> = JobQueue::new();
    for k in 0..50 {
        queue.submit(Box::new(move |runs: &mut Vec<u32>| {
            runs[k] += 1;
        }));
    }
    let mut runs = vec![0u32; 50];
    let mut claims_of_worker = vec![0u32; 4];
    let mut worker = 0;
    loop {
        match queue.claim() {
            Some(job) => {
                job(&mut runs);
                claims_of_worker[worker] += 1;
            }
            None => break,
        }
        worker = (worker + 1) % 4;
    }
    assert_eq!(runs, vec![1u32; 50]);
    assert_eq!(claims_of_worker.iter().sum::<u32>(), 50);
    assert!(queue.is_empty());
}

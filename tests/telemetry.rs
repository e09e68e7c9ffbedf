use interledger_relay::telemetry::{Logger, LoggerQueue};

fn rows() -> Vec<i32> {
    (0..7).collect()
}

#[test]
fn test_default() {
    let logger: Logger<i32> = Logger::new(0, 3);
    assert!(logger.is_dummy());
    assert!(logger.is_available());
    assert!(logger.queues.is_empty());
}

#[test]
fn test_new() {
    let logger: Logger<i32> = Logger::new(2, 3);
    assert!(!logger.is_dummy());
    assert!(logger.is_available());
    assert_eq!(logger.queues.len(), 2);
    assert!(logger.queues.iter().all(|q| q.is_idle()));
}

#[test]
fn test_write() {
    let mut logger: Logger<i32> = Logger::new(2, 3);
    let mut batches = Vec::new();
    for row in rows() {
        if let Some(batch) = logger.write(row) {
            batches.push(batch);
        }
    }
    // The first queue fills with 0..3, the second with 3..6; 6 overflows.
    assert_eq!(batches, vec![(0, vec![0, 1, 2]), (1, vec![3, 4, 5])]);
    assert!(!logger.is_available());
    assert_eq!(logger.overflow, vec![6]);
}

#[test]
fn test_clean() {
    let mut logger: Logger<i32> = Logger::new(2, 3);
    for row in rows() {
        logger.write(row);
    }
    assert_eq!(logger.clean(), Vec::new());
    assert_eq!(logger.overflow, vec![6]);
    logger.queues[0].flush_done(Vec::new());
    assert!(logger.is_available());
    assert_eq!(logger.clean(), Vec::new());
    assert!(logger.overflow.is_empty());
    assert_eq!(logger.queues[0].len(), 1);
}

#[test]
fn test_is_ready() {
    let mut queue: LoggerQueue<i32> = LoggerQueue::new(3);
    assert!(queue.is_ready());
    assert_eq!(queue.try_write(1), Ok(None));
    assert_eq!(queue.try_write(2), Ok(None));
    assert_eq!(queue.try_write(3), Ok(Some(vec![1, 2, 3])));
    assert!(!queue.is_ready());
    assert_eq!(queue.try_write(4), Err(4));
}

#[test]
fn logger_queue_test_flush_no_retries() {
    let mut queue: LoggerQueue<i32> = LoggerQueue::new(3);
    queue.try_write(1).unwrap();
    queue.try_write(2).unwrap();
    assert_eq!(queue.len(), 2);
    assert_eq!(queue.flush_now(), Some(vec![1, 2]));
    assert_eq!(queue.flush_now(), None);
    queue.flush_done(Vec::new());
    assert!(queue.is_idle());
    assert_eq!(queue.flush_now(), None);
}

#[test]
fn logger_queue_test_flush_with_retries() {
    let mut queue: LoggerQueue<i32> = LoggerQueue::new(3);
    queue.try_write(1).unwrap();
    queue.try_write(2).unwrap();
    let batch = queue.flush_now().unwrap();
    assert_eq!(batch, vec![1, 2]);
    queue.flush_done(vec![2]);
    assert!(queue.is_ready());
    assert_eq!(queue.len(), 1);
    assert_eq!(queue.flush_now(), Some(vec![2]));
}

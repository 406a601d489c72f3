use web_server::threads::{
    ThreadCounter, ThreadError, ThreadHandler, ThreadMessageEvent, DEFAULT_MAX_COUNT,
};

#[test]
fn admission_is_bounded_and_reopens_after_close() {
    let n: i8 = 3;
    let mut handler = ThreadHandler::with_max(n);
    for i in 0..n {
        assert_eq!(handler.active(), i);
        assert_eq!(handler.spawn(), Ok(()));
    }
    assert_eq!(handler.active(), n);
    assert_eq!(handler.spawn(), Err(ThreadError::NoRemainingThreads));
    assert_eq!(handler.spawn(), Err(ThreadError::NoRemainingThreads));
    assert_eq!(handler.active(), n);
    handler.record(&ThreadMessageEvent::CLOSE);
    assert_eq!(handler.active(), n - 1);
    assert_eq!(handler.spawn(), Ok(()));
    assert_eq!(handler.spawn(), Err(ThreadError::NoRemainingThreads));
}

#[test]
fn create_admits_four_workers() {
    assert_eq!(DEFAULT_MAX_COUNT, 4);
    let mut handler = ThreadHandler::create();
    for _ in 0..4 {
        assert!(handler.spawn().is_ok());
    }
    assert_eq!(handler.spawn(), Err(ThreadError::NoRemainingThreads));
    assert_eq!(handler.active(), 4);
}

#[test]
fn an_error_frees_the_place_too() {
    let mut handler = ThreadHandler::with_max(1);
    assert!(handler.spawn().is_ok());
    assert!(handler.spawn().is_err());
    handler.record(&ThreadMessageEvent::ERROR(b"broken pipe".to_vec()));
    assert_eq!(handler.active(), 0);
    assert!(handler.spawn().is_ok());
}

#[test]
fn with_max_zero_admits_nobody() {
    let mut handler = ThreadHandler::with_max(0);
    assert_eq!(handler.spawn(), Err(ThreadError::NoRemainingThreads));
    assert_eq!(handler.active(), 0);
}

#[test]
fn counter_stays_between_zero_and_max() {
    let mut counter = ThreadCounter::new(2);
    assert_eq!(counter.max_count(), 2);
    assert!(counter.can_create());
    counter.record(&ThreadMessageEvent::CLOSE);
    assert_eq!(counter.count(), 0);
    counter.record(&ThreadMessageEvent::OPEN);
    counter.record(&ThreadMessageEvent::OPEN);
    assert_eq!(counter.count(), 2);
    assert!(!counter.can_create());
    counter.record(&ThreadMessageEvent::OPEN);
    assert_eq!(counter.count(), 2);
    counter.record(&ThreadMessageEvent::ERROR(Vec::new()));
    assert_eq!(counter.count(), 1);
    assert!(counter.can_create());
    let mut full = ThreadCounter::new(127);
    for _ in 0..200 {
        full.record(&ThreadMessageEvent::OPEN);
    }
    assert_eq!(full.count(), 127);
}

#[test]
fn thread_messages_as_text() {
    assert_eq!(ThreadMessageEvent::OPEN.to_text(), b"Open thread".to_vec());
    assert_eq!(ThreadMessageEvent::CLOSE.to_text(), b"Close thread".to_vec());
    assert_eq!(
        ThreadMessageEvent::ERROR(b"boom".to_vec()).to_text(),
        b"Error when handling thread: boom".to_vec()
    );
    assert_eq!(ThreadError::NoRemainingThreads.to_text(), b"No remaining threads.");
}

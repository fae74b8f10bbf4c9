use ozone::logger::{
    AcceptOutcome, BindOutcome, TcpLogger, WriteOutcome, ACCEPT_FAILURES_BEFORE_REBIND, BACKLOG_LIMIT,
};

fn backlog(logger: &TcpLogger) -> Vec<String> {
    (0..logger.backlog_len()).map(|i| logger.backlog_message(i).clone()).collect()
}

/// A logger whose client connected once and then went away.
fn after_first_client() -> TcpLogger {
    let mut logger = TcpLogger::new();
    assert!(!logger.on_bind(BindOutcome::Bound));
    assert!(!logger.on_accept(AcceptOutcome::Accepted));
    logger.connect(0, true);
    assert!(logger.write("bye".to_string(), WriteOutcome::Failed));
    logger
}

#[test]
fn new_logger_listens_for_nothing_yet() {
    let logger = TcpLogger::new();
    assert!(logger.is_enabled());
    assert!(logger.needs_listener());
    assert!(!logger.can_accept());
    assert!(!logger.direct_writable());
    assert_eq!(logger.backlog_len(), 0);
    assert_eq!(BACKLOG_LIMIT, 2 * 1024 * 1024);
    assert_eq!(ACCEPT_FAILURES_BEFORE_REBIND, 5);
}

#[test]
fn output_before_the_first_client_is_kept_and_replayed() {
    let mut logger = TcpLogger::new();
    assert!(!logger.write("early".to_string(), WriteOutcome::NoClient));
    logger.push_backlog("also early".to_string());
    assert_eq!(backlog(&logger), vec!["early".to_string(), "also early".to_string()]);
    assert!(!logger.deliver("queued".to_string(), WriteOutcome::NoClient));
    assert_eq!(logger.backlog_len(), 3);
    // the first client takes all of it, oldest first
    logger.on_bind(BindOutcome::Bound);
    logger.on_accept(AcceptOutcome::Accepted);
    let replay: Vec<String> = backlog(&logger);
    assert_eq!(replay, vec!["early".to_string(), "also early".to_string(), "queued".to_string()]);
    logger.connect(3, true);
    assert_eq!(logger.backlog_len(), 0);
    assert!(logger.direct_writable());
}

#[test]
fn nothing_is_written_while_suspended() {
    let mut logger = TcpLogger::new();
    logger.on_bind(BindOutcome::Bound);
    logger.connect(0, true);
    assert!(logger.direct_writable());
    logger.suspend();
    assert!(!logger.needs_listener() && !logger.can_accept() && !logger.direct_writable());
    logger.on_bind(BindOutcome::Failed);
    logger.on_accept(AcceptOutcome::WouldBlock);
    logger.push_backlog("kept".to_string());
    assert!(!logger.deliver("asleep".to_string(), WriteOutcome::NoClient));
    assert!(!logger.is_enabled());
    assert!(!logger.needs_listener() && !logger.can_accept() && !logger.direct_writable());
    logger.resume();
    assert!(logger.needs_listener());
    assert!(!logger.direct_writable());
}

#[test]
fn bind_outcomes() {
    let mut logger = TcpLogger::new();
    assert!(logger.on_bind(BindOutcome::Failed));
    assert!(!logger.on_bind(BindOutcome::Failed));
    assert!(logger.needs_listener());
    assert!(!logger.on_bind(BindOutcome::Bound));
    assert!(logger.can_accept());
    assert!(!logger.needs_listener());
    // a success re-arms the failure report
    assert!(logger.on_bind(BindOutcome::Failed));
}

#[test]
fn bind_failure_is_reported_again_after_resume() {
    let mut logger = TcpLogger::new();
    assert!(logger.on_bind(BindOutcome::Failed));
    logger.suspend();
    logger.resume();
    assert!(logger.on_bind(BindOutcome::Failed));
}

#[test]
fn blocking_listener_disables_the_logger() {
    let mut logger = TcpLogger::new();
    assert!(logger.on_bind(BindOutcome::NotNonBlocking));
    assert!(!logger.is_enabled());
    assert!(!logger.needs_listener());
    assert!(!logger.can_accept());
}

#[test]
fn listener_is_rebound_after_five_failed_accepts() {
    let mut logger = TcpLogger::new();
    logger.on_bind(BindOutcome::Bound);
    for i in 0..4 {
        assert_eq!(logger.accept_failures(), i);
        assert!(!logger.on_accept(AcceptOutcome::Failed));
        assert!(logger.can_accept());
    }
    assert_eq!(logger.accept_failures(), 4);
    assert!(logger.on_accept(AcceptOutcome::Failed));
    assert_eq!(logger.accept_failures(), 0);
    assert!(!logger.can_accept());
    assert!(logger.needs_listener());
}

#[test]
fn accept_success_resets_the_failure_count() {
    let mut logger = TcpLogger::new();
    logger.on_bind(BindOutcome::Bound);
    for _ in 0..4 {
        assert!(!logger.on_accept(AcceptOutcome::Failed));
    }
    assert!(!logger.on_accept(AcceptOutcome::WouldBlock));
    assert!(logger.on_accept(AcceptOutcome::Failed));

    logger.on_bind(BindOutcome::Bound);
    for _ in 0..4 {
        assert!(!logger.on_accept(AcceptOutcome::Failed));
    }
    assert!(!logger.on_accept(AcceptOutcome::Accepted));
    for _ in 0..4 {
        assert!(!logger.on_accept(AcceptOutcome::Failed));
    }
}

#[test]
fn sent_messages_are_not_kept_and_failed_ones_are() {
    let mut logger = TcpLogger::new();
    logger.on_bind(BindOutcome::Bound);
    logger.connect(0, true);
    assert!(logger.direct_writable());
    assert!(!logger.write("hello\n".to_string(), WriteOutcome::Sent));
    assert_eq!(logger.backlog_len(), 0);
    assert!(logger.write("lost\n".to_string(), WriteOutcome::Failed));
    assert!(!logger.direct_writable());
    assert_eq!(backlog(&logger), vec!["lost\n".to_string()]);
    assert!(!logger.write("queued\n".to_string(), WriteOutcome::NoClient));
    assert_eq!(backlog(&logger), vec!["lost\n".to_string(), "queued\n".to_string()]);
}

#[test]
fn backlog_drops_oldest_to_stay_within_limit() {
    let mut logger = after_first_client();
    assert_eq!(backlog(&logger), vec!["bye".to_string()]);
    let mega = |c: char| std::iter::repeat(c).take(1024 * 1024).collect::<String>();
    logger.push_backlog(mega('a'));
    logger.push_backlog(mega('b'));
    // "bye" + 2 MiB does not fit: "bye" goes
    assert_eq!(backlog(&logger), vec![mega('a'), mega('b')]);
    logger.push_backlog(mega('c'));
    assert_eq!(backlog(&logger), vec![mega('b'), mega('c')]);
    logger.push_backlog("tail".to_string());
    assert_eq!(backlog(&logger), vec![mega('c'), "tail".to_string()]);
    let total: usize = backlog(&logger).iter().map(|m| m.len()).sum();
    assert!(total <= BACKLOG_LIMIT);
}

#[test]
fn oversized_message_is_not_kept() {
    let mut logger = after_first_client();
    let huge: String = std::iter::repeat('x').take(BACKLOG_LIMIT + 1).collect();
    logger.push_backlog(huge);
    assert_eq!(backlog(&logger), vec!["bye".to_string()]);
    let exact: String = std::iter::repeat('y').take(BACKLOG_LIMIT).collect();
    logger.push_backlog(exact.clone());
    assert_eq!(backlog(&logger), vec![exact]);
}

#[test]
fn backlog_counts_bytes_not_characters() {
    let mut logger = after_first_client();
    // each 'é' is two bytes
    let wide: String = std::iter::repeat('é').take(BACKLOG_LIMIT / 2).collect();
    logger.push_backlog(wide.clone());
    assert_eq!(backlog(&logger), vec![wide]);
}

#[test]
fn suspend_and_resume_keep_the_backlog() {
    let mut logger = after_first_client();
    logger.on_bind(BindOutcome::Bound);
    logger.connect(1, true);
    assert!(logger.direct_writable());
    logger.push_backlog("kept".to_string());
    logger.suspend();
    assert!(!logger.is_enabled());
    assert!(!logger.direct_writable());
    assert!(!logger.can_accept());
    assert!(!logger.needs_listener());
    assert_eq!(backlog(&logger), vec!["kept".to_string()]);
    logger.resume();
    assert!(logger.is_enabled());
    assert!(logger.needs_listener());
    assert!(!logger.direct_writable());
    assert_eq!(backlog(&logger), vec!["kept".to_string()]);
}

#[test]
fn messages_delivered_while_suspended_are_kept() {
    let mut logger = after_first_client();
    logger.suspend();
    assert!(!logger.deliver("asleep".to_string(), WriteOutcome::NoClient));
    assert_eq!(backlog(&logger), vec!["bye".to_string(), "asleep".to_string()]);
}

#[test]
fn deliver_writes_to_a_connected_client() {
    let mut logger = TcpLogger::new();
    logger.connect(0, true);
    assert!(!logger.deliver("direct".to_string(), WriteOutcome::Sent));
    assert_eq!(logger.backlog_len(), 0);
    assert!(logger.deliver("broken".to_string(), WriteOutcome::Failed));
    assert_eq!(backlog(&logger), vec!["broken".to_string()]);
}

#[test]
fn replay_removes_what_was_sent() {
    let mut logger = after_first_client();
    logger.push_backlog("one".to_string());
    logger.push_backlog("two".to_string());
    // the new client took "bye" and then failed
    logger.connect(1, false);
    assert!(!logger.direct_writable());
    assert_eq!(backlog(&logger), vec!["one".to_string(), "two".to_string()]);
    logger.connect(2, true);
    assert!(logger.direct_writable());
    assert_eq!(logger.backlog_len(), 0);
}

#[test]
fn failed_replay_keeps_the_previous_client() {
    let mut logger = TcpLogger::new();
    logger.connect(0, true);
    assert!(logger.direct_writable());
    logger.push_backlog("pending".to_string());
    logger.connect(0, false);
    assert!(logger.direct_writable());
    assert_eq!(backlog(&logger), vec!["pending".to_string()]);
}

#[test]
fn direct_write_failure_drops_the_client() {
    let mut logger = TcpLogger::new();
    logger.connect(0, true);
    assert!(logger.write_direct(true));
    assert!(logger.direct_writable());
    assert!(!logger.write_direct(false));
    assert!(!logger.direct_writable());
}

#[test]
fn no_client_after_suspend_until_one_connects() {
    let mut logger = TcpLogger::new();
    logger.on_bind(BindOutcome::Bound);
    logger.connect(0, true);
    assert!(logger.direct_writable());
    logger.suspend();
    logger.resume();
    logger.on_bind(BindOutcome::Bound);
    logger.on_accept(AcceptOutcome::WouldBlock);
    assert!(!logger.write("queued".to_string(), WriteOutcome::NoClient));
    assert!(!logger.direct_writable());
    logger.on_accept(AcceptOutcome::Accepted);
    logger.connect(1, true);
    assert!(logger.direct_writable());
}

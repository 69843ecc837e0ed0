use compute_embeddings::remote::{RemoteError, RemoteEvent, RemoteStep, RetryState, MAX_ATTEMPTS};

fn retry_texts(ts: &[&str]) -> Vec<String> {
    ts.iter().map(|t| t.to_string()).collect()
}

#[test]
fn rate_limits_sleep_two_then_four_seconds_then_succeed_untruncated() {
    let mut st = RetryState::new(retry_texts(&["alpha", "beta"]));

    assert!(st.may_send());
    let step = st.on_event(RemoteEvent::Status(429, "slow down".to_string()));
    assert_eq!(step, RemoteStep::Sleep(2));

    assert!(st.may_send());
    let step = st.on_event(RemoteEvent::Status(429, "still busy".to_string()));
    assert_eq!(step, RemoteStep::Sleep(4));

    assert!(st.may_send());
    assert_eq!(st.texts(), &retry_texts(&["alpha", "beta"]));
    let step = st.on_event(RemoteEvent::Status(200, "{}".to_string()));
    assert_eq!(step, RemoteStep::Accept);
    assert_eq!(st.texts(), &retry_texts(&["alpha", "beta"]));
}

#[test]
fn overloaded_status_backs_off_like_rate_limiting() {
    let mut st = RetryState::new(retry_texts(&["a"]));
    assert_eq!(
        st.on_event(RemoteEvent::Status(503, "overloaded".to_string())),
        RemoteStep::Sleep(2)
    );
    assert_eq!(
        st.on_event(RemoteEvent::Status(503, "overloaded".to_string())),
        RemoteStep::Sleep(4)
    );
    assert_eq!(
        st.on_event(RemoteEvent::Status(429, "busy".to_string())),
        RemoteStep::Sleep(8)
    );
}

#[test]
fn payload_rejection_truncates_to_four_fifths_of_the_longest() {
    let mut st = RetryState::new(retry_texts(&["aaaaaaaaaa", "bbb"]));
    let step = st.on_event(RemoteEvent::Status(400, "too large".to_string()));
    assert_eq!(step, RemoteStep::Resend);
    // longest is 10 characters, so every text is cut to at most 8
    assert_eq!(st.texts(), &retry_texts(&["aaaaaaaa", "bbb"]));

    let step = st.on_event(RemoteEvent::Status(200, "{}".to_string()));
    assert_eq!(step, RemoteStep::Accept);
    assert_eq!(st.texts(), &retry_texts(&["aaaaaaaa", "bbb"]));
}

#[test]
fn payload_rejection_counts_characters_not_bytes() {
    let mut st = RetryState::new(retry_texts(&["éééééééééé"]));
    let step = st.on_event(RemoteEvent::Status(400, "too large".to_string()));
    assert_eq!(step, RemoteStep::Resend);
    assert_eq!(st.texts(), &retry_texts(&["éééééééé"]));
}

#[test]
fn repeated_payload_rejections_keep_shrinking() {
    let mut st = RetryState::new(retry_texts(&["cccccccccc"]));
    st.on_event(RemoteEvent::Status(400, "too large".to_string()));
    assert_eq!(st.texts(), &retry_texts(&["cccccccc"]));
    st.on_event(RemoteEvent::Status(400, "too large".to_string()));
    // 8 * 80 / 100 == 6
    assert_eq!(st.texts(), &retry_texts(&["cccccc"]));
}

#[test]
fn truncation_does_not_revert_after_a_rate_limit() {
    let mut st = RetryState::new(retry_texts(&["dddddddddd"]));
    st.on_event(RemoteEvent::Status(400, "too large".to_string()));
    assert_eq!(st.texts(), &retry_texts(&["dddddddd"]));
    assert_eq!(
        st.on_event(RemoteEvent::Status(429, "busy".to_string())),
        RemoteStep::Sleep(2)
    );
    assert_eq!(st.texts(), &retry_texts(&["dddddddd"]));
}

#[test]
fn payload_rejection_of_empty_batch_resends_empty() {
    let mut st = RetryState::new(Vec::new());
    let step = st.on_event(RemoteEvent::Status(400, "bad request".to_string()));
    assert_eq!(step, RemoteStep::Resend);
    assert!(st.texts().is_empty());
}

#[test]
fn one_hundred_rate_limits_exhaust_the_attempts() {
    let mut st = RetryState::new(retry_texts(&["q"]));
    let mut sleeps: u32 = 0;
    while st.may_send() {
        match st.on_event(RemoteEvent::Status(429, "busy".to_string())) {
            RemoteStep::Sleep(_) => sleeps += 1,
            other => panic!("expected a sleep, got {:?}", other),
        }
    }
    assert_eq!(sleeps, 100);
    assert_eq!(u64::from(sleeps), MAX_ATTEMPTS);
    assert!(!st.may_send());
    assert_eq!(st.exhausted_error(), RemoteError::TooManyRetries);
}

#[test]
fn unexpected_status_gives_up_with_code_and_body() {
    let mut st = RetryState::new(retry_texts(&["a"]));
    let step = st.on_event(RemoteEvent::Status(500, "boom".to_string()));
    assert_eq!(
        step,
        RemoteStep::GiveUp(RemoteError::Status(500, "boom".to_string()))
    );
}

#[test]
fn transport_failure_gives_up_immediately() {
    let mut st = RetryState::new(retry_texts(&["a"]));
    let step = st.on_event(RemoteEvent::Transport("connection refused".to_string()));
    assert_eq!(
        step,
        RemoteStep::GiveUp(RemoteError::Transport("connection refused".to_string()))
    );
}

use hookbuffer::delivery::{
    next_delivery_step, DeliveryError, DeliveryStep, SendOutcome, INITIAL_BACKOFF_SECS,
};

#[test]
fn success_statuses_finish() {
    assert!(next_delivery_step(4, SendOutcome::Status(200)) == DeliveryStep::Done);
    assert!(next_delivery_step(4, SendOutcome::Status(204)) == DeliveryStep::Done);
    assert!(next_delivery_step(4, SendOutcome::Status(299)) == DeliveryStep::Done);
}

#[test]
fn transport_failure_is_not_retried() {
    assert!(
        next_delivery_step(4, SendOutcome::Transport) == DeliveryStep::Fail(DeliveryError::Transport)
    );
}

#[test]
fn other_statuses_fail_with_their_status() {
    assert!(
        next_delivery_step(4, SendOutcome::Status(404))
            == DeliveryStep::Fail(DeliveryError::Failed(404))
    );
    assert!(
        next_delivery_step(4, SendOutcome::Status(500))
            == DeliveryStep::Fail(DeliveryError::Failed(500))
    );
    assert!(
        next_delivery_step(4, SendOutcome::Status(300))
            == DeliveryStep::Fail(DeliveryError::Failed(300))
    );
}

#[test]
fn throttling_backs_off_and_then_gives_up() {
    let mut backoff = INITIAL_BACKOFF_SECS;
    let mut waits = Vec::new();
    loop {
        match next_delivery_step(backoff, SendOutcome::Status(429)) {
            DeliveryStep::Retry { wait_secs, next_backoff_secs } => {
                waits.push(wait_secs);
                backoff = next_backoff_secs;
            }
            DeliveryStep::GiveUp { wait_secs, error } => {
                waits.push(wait_secs);
                assert!(error == DeliveryError::Throttled);
                break;
            }
            _ => panic!("unexpected step"),
        }
    }
    assert_eq!(waits, vec![4, 8, 16, 32, 64, 128]);
}

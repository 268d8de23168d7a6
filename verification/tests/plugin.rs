use bee_tangle::plugin::{after_failed_connect, RetryDecision, MAX_RETRIES, SHUTDOWN_TIMEOUT_SECS};

#[test]
fn a_plugin_is_tried_again_five_times_with_growing_waits() {
    let mut retries = 0;
    let mut waits = Vec::new();
    loop {
        match after_failed_connect(retries) {
            RetryDecision::RetryAfter { secs, retries: next } => {
                assert_eq!(next, retries + 1);
                waits.push(secs);
                retries = next;
            }
            RetryDecision::GiveUp => break,
        }
    }
    assert_eq!(waits, vec![1, 5, 25, 125, 625]);
    assert_eq!(retries, MAX_RETRIES);
    assert_eq!(after_failed_connect(6), RetryDecision::GiveUp);
    assert_eq!(after_failed_connect(u32::MAX), RetryDecision::GiveUp);
    assert_eq!(SHUTDOWN_TIMEOUT_SECS, 30);
}

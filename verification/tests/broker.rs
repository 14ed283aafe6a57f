use criptomeria_marketdata::broker::{
    connect_log, disconnect_log, settle_publish, Delivery, PublishError, QueueAnswer,
};

#[test]
fn connect_log_shows_remote_address_when_available() {
    let result = connect_log(Some("1.2.3.4:5678"));
    assert_eq!(result, "[broker]: subscriber connected from 1.2.3.4:5678");
}

#[test]
fn connect_log_falls_back_when_address_unavailable() {
    let result = connect_log(None);
    assert_eq!(result, "[broker]: subscriber connected");
}

#[test]
fn disconnect_log_shows_remote_address_when_available() {
    let result = disconnect_log(Some("1.2.3.4:5678"));
    assert_eq!(
        result,
        "[broker]: subscriber disconnected from 1.2.3.4:5678"
    );
}

#[test]
fn disconnect_log_falls_back_when_address_unavailable() {
    let result = disconnect_log(None);
    assert_eq!(result, "[broker]: subscriber disconnected");
}

#[test]
fn publish_settles_every_queue_answer() {
    assert_eq!(settle_publish(None), Err(PublishError::Closed));
    assert_eq!(settle_publish(Some(QueueAnswer::Queued)), Ok(Delivery::Queued));
    assert_eq!(settle_publish(Some(QueueAnswer::Full)), Ok(Delivery::Dropped));
    assert_eq!(
        settle_publish(Some(QueueAnswer::Disconnected)),
        Err(PublishError::SenderGone)
    );
    assert_eq!(PublishError::Closed.message(), "broker is closed");
    assert_eq!(PublishError::SenderGone.message(), "NNG broker thread is gone");
}

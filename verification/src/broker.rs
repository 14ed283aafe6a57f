use vstd::prelude::*;

verus! {

/// The log line for a subscriber that connected, with its remote address when known.
pub open spec fn connect_log_text(addr: Option<Seq<char>>) -> Seq<char> {
    match addr {
        Some(a) => "[broker]: subscriber connected from "@ + a,
        None => "[broker]: subscriber connected"@,
    }
}

/// The log line for a subscriber that disconnected, with its remote address when known.
pub open spec fn disconnect_log_text(addr: Option<Seq<char>>) -> Seq<char> {
    match addr {
        Some(a) => "[broker]: subscriber disconnected from "@ + a,
        None => "[broker]: subscriber disconnected"@,
    }
}

/// The text of an optional address.
pub open spec fn addr_text(addr: Option<&str>) -> Option<Seq<char>> {
    match addr {
        Some(a) => Some(a@),
        None => None,
    }
}

/// Build the log message for a subscriber connecting, optionally including the
/// remote address.
pub fn connect_log(addr: Option<&str>) -> (line: String)
    ensures
        line@ == connect_log_text(addr_text(addr)),
{
    match addr {
        Some(a) => {
            let mut line = String::from_str("[broker]: subscriber connected from ");
            line.append(a);
            line
        },
        None => String::from_str("[broker]: subscriber connected"),
    }
}

/// Build the log message for a subscriber disconnecting, optionally including the
/// remote address.
pub fn disconnect_log(addr: Option<&str>) -> (line: String)
    ensures
        line@ == disconnect_log_text(addr_text(addr)),
{
    match addr {
        Some(a) => {
            let mut line = String::from_str("[broker]: subscriber disconnected from ");
            line.append(a);
            line
        },
        None => String::from_str("[broker]: subscriber disconnected"),
    }
}

/// What the publish queue answered when a framed message was offered to it.
#[derive(Debug, Clone, Copy, PartialEq, Eq, Structural)]
pub enum QueueAnswer {
    /// The message was queued for the sender thread.
    Queued,
    /// The queue was full.
    Full,
    /// The sender thread is gone.
    Disconnected,
}

/// What became of a published message that did not fail.
#[derive(Debug, Clone, Copy, PartialEq, Eq, Structural)]
pub enum Delivery {
    /// Handed to the sender thread.
    Queued,
    /// Dropped because the backlog was full; the caller logs a warning.
    Dropped,
}

/// Why a message could not be published.
#[derive(Debug, Clone, Copy, PartialEq, Eq, Structural)]
pub enum PublishError {
    /// The broker was closed.
    Closed,
    /// The sender thread is gone.
    SenderGone,
}

impl PublishError {
    /// A description of the error.
    pub fn message(&self) -> (m: &'static str)
        ensures
            m@ == publish_error_text(*self),
    {
        match self {
            PublishError::Closed => "broker is closed",
            PublishError::SenderGone => "NNG broker thread is gone",
        }
    }
}

/// The description of a publish error.
pub open spec fn publish_error_text(e: PublishError) -> Seq<char> {
    match e {
        PublishError::Closed => "broker is closed"@,
        PublishError::SenderGone => "NNG broker thread is gone"@,
    }
}

/// The result of `publish`, given what the queue answered (`None` when the
/// broker was closed and nothing was offered): a closed broker fails; a full
/// backlog drops the message without failing (publishing never blocks); a
/// gone sender thread fails.
pub open spec fn publish_result_of(answer: Option<QueueAnswer>) -> Result<Delivery, PublishError> {
    match answer {
        None => Err(PublishError::Closed),
        Some(QueueAnswer::Queued) => Ok(Delivery::Queued),
        Some(QueueAnswer::Full) => Ok(Delivery::Dropped),
        Some(QueueAnswer::Disconnected) => Err(PublishError::SenderGone),
    }
}

/// Settle a publish from what the queue answered (`None`: the broker is closed).
pub fn settle_publish(answer: Option<QueueAnswer>) -> (res: Result<Delivery, PublishError>)
    ensures
        res == publish_result_of(answer),
{
    match answer {
        None => Err(PublishError::Closed),
        Some(QueueAnswer::Queued) => Ok(Delivery::Queued),
        Some(QueueAnswer::Full) => Ok(Delivery::Dropped),
        Some(QueueAnswer::Disconnected) => Err(PublishError::SenderGone),
    }
}

} // verus!

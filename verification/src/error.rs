//! The failures that the broker reports to a connection.

use vstd::prelude::*;

verus! {

/// Everything that can go wrong while a command is handled.
#[derive(Debug)]
pub enum BrokerError {
    /// `create_topic` named a topic that is already there.
    TopicExists,
    /// `unsubscribe` named a topic that was never created or subscribed.
    TopicNotFound,
    /// The line is empty, starts with an unknown verb, or has the wrong
    /// number of fields.
    InvalidCommand,
    /// The payload field of a `PUBLISH` line is not valid base64.
    InvalidData,
    /// A publish reached subscriptions, and not one of them took the message.
    SendFailed,
    /// Reading from or writing to the connection failed.
    IoError(String),
}

impl BrokerError {
    /// The human-readable text of this error, as a sequence of characters.
    pub open spec fn text(self) -> Seq<char> {
        match self {
            BrokerError::TopicExists => "Topic already exists"@,
            BrokerError::TopicNotFound => "Topic not found"@,
            BrokerError::InvalidCommand => "Invalid command"@,
            BrokerError::InvalidData => "Invalid data"@,
            BrokerError::SendFailed => "Failed to send message"@,
            BrokerError::IoError(detail) => "IO error: "@ + detail@,
        }
    }

    /// The human-readable text of this error.
    pub fn message(&self) -> (s: String)
        ensures
            s@ == self.text(),
    {
        match self {
            BrokerError::TopicExists => "Topic already exists".to_string(),
            BrokerError::TopicNotFound => "Topic not found".to_string(),
            BrokerError::InvalidCommand => "Invalid command".to_string(),
            BrokerError::InvalidData => "Invalid data".to_string(),
            BrokerError::SendFailed => "Failed to send message".to_string(),
            BrokerError::IoError(detail) => "IO error: ".to_string().concat(detail.as_str()),
        }
    }
}

#[verifier::external_type_specification]
#[verifier::external_body]
pub struct ExIoError(std::io::Error);

impl vstd::std_specs::convert::FromSpecImpl<std::io::Error> for BrokerError {
    /// The conversion has no specification of this form: the text of the
    /// error is not a function of anything that a contract can name.
    open spec fn obeys_from_spec() -> bool {
        false
    }

    open spec fn from_spec(value: std::io::Error) -> BrokerError {
        arbitrary()
    }
}

impl From<std::io::Error> for BrokerError {
    /// An I/O error becomes an `IoError` that carries its text.
    fn from(value: std::io::Error) -> (e: BrokerError)
        ensures
            e is IoError,
    {
        BrokerError::IoError(value.to_string())
    }
}

} // verus!

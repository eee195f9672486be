//! The unit of publication.

use vstd::prelude::*;

verus! {

/// A published message: the topic it is addressed to, an optional key, and
/// the payload bytes.
#[derive(Debug)]
pub struct Message {
    pub topic: String,
    pub key: Option<String>,
    pub data: Vec<u8>,
}

/// What a [`Message`] holds, as plain mathematical values.
pub struct MessageView {
    pub topic: Seq<char>,
    pub key: Option<Seq<char>>,
    pub data: Seq<u8>,
}

impl View for Message {
    type V = MessageView;

    open spec fn view(&self) -> MessageView {
        MessageView {
            topic: self.topic@,
            key: match self.key {
                Some(k) => Some(k@),
                None => None,
            },
            data: self.data@,
        }
    }
}

impl Clone for Message {
    /// A copy that holds the same topic, key and payload.
    fn clone(&self) -> (copy: Self)
        ensures
            copy@ == self@,
    {
        let key = match &self.key {
            Some(k) => Some(k.clone()),
            None => None,
        };
        Message { topic: self.topic.clone(), key, data: self.data.clone() }
    }
}

} // verus!

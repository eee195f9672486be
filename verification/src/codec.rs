//! The lines that the broker writes to a connection: one frame for every
//! delivered message, and one error line for every command that failed.

use crate::armor::{armored_len, base64_encoded, encode_standard};
use crate::error::BrokerError;
use crate::message::{Message, MessageView};
use vstd::prelude::*;

verus! {

/// The frame of a message: its topic, and its payload in the text `armored`.
/// The key of a message is not part of its frame.
pub open spec fn frame_text(topic: Seq<char>, armored: Seq<char>) -> Seq<char> {
    "TOPIC "@ + topic + " DATA "@ + armored + "\n"@
}

/// The frame of a delivered message.
pub open spec fn encoded(msg: MessageView) -> Seq<char> {
    frame_text(msg.topic, base64_encoded(msg.data))
}

/// The line that reports an error.
pub open spec fn error_text(e: BrokerError) -> Seq<char> {
    "Error: "@ + e.text() + "\n"@
}

/// Tells whether a payload of `len` bytes can be put in a frame: whether the
/// length of its base64 text fits in `usize`.
pub fn armor_fits(len: usize) -> (fits: bool)
    ensures
        fits == (armored_len(len as nat) <= usize::MAX),
{
    let groups = len / 3;
    if len % 3 == 0 {
        groups <= usize::MAX / 4
    } else {
        groups < usize::MAX / 4
    }
}

/// Writes the frame for a topic and a payload that is in base64 already.
pub fn frame(topic: &str, armored: &str) -> (line: String)
    ensures
        line@ == frame_text(topic@, armored@),
{
    "TOPIC ".to_string().concat(topic).concat(" DATA ").concat(armored).concat("\n")
}

/// Encodes a delivered message as one line, with its newline.
pub fn encode_message(msg: &Message) -> (line: String)
    requires
        armored_len(msg@.data.len()) <= usize::MAX,
    ensures
        line@ == encoded(msg@),
{
    let armored = encode_standard(msg.data.as_slice());
    frame(msg.topic.as_str(), armored.as_str())
}

/// Writes the line that reports an error, with its newline.
pub fn encode_error(e: &BrokerError) -> (line: String)
    ensures
        line@ == error_text(*e),
{
    let text = e.message();
    "Error: ".to_string().concat(text.as_str()).concat("\n")
}

} // verus!

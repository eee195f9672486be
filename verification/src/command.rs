//! The commands of the line protocol, and the parser that reads one from a
//! line of text.
//!
//! A line is a row of fields with white space between them. The first field
//! is the verb:
//!
//! ```text
//! CREATE_TOPIC <name>
//! SUBSCRIBE <name>
//! UNSUBSCRIBE <name>
//! PUBLISH <topic> <key|-> <base64-payload>
//! ```

use crate::armor::{base64_decoded, decode_standard};
use crate::error::BrokerError;
use crate::message::{Message, MessageView};
use vstd::prelude::*;

verus! {

/// One command of a client.
#[derive(Debug)]
pub enum BrokerCommand {
    /// `CREATE_TOPIC <name>`
    CreateTopic(String),
    /// `SUBSCRIBE <name>`
    Subscribe(String),
    /// `UNSUBSCRIBE <name>`
    Unsubscribe(String),
    /// `PUBLISH <topic> <key|-> <base64>`
    Publish(Message),
}

/// What a [`BrokerCommand`] holds, as plain mathematical values.
pub enum CommandView {
    CreateTopic(Seq<char>),
    Subscribe(Seq<char>),
    Unsubscribe(Seq<char>),
    Publish(MessageView),
}

impl View for BrokerCommand {
    type V = CommandView;

    open spec fn view(&self) -> CommandView {
        match self {
            BrokerCommand::CreateTopic(name) => CommandView::CreateTopic(name@),
            BrokerCommand::Subscribe(name) => CommandView::Subscribe(name@),
            BrokerCommand::Unsubscribe(name) => CommandView::Unsubscribe(name@),
            BrokerCommand::Publish(msg) => CommandView::Publish(msg@),
        }
    }
}

/// Whether `c` is white space: one of the code points that carry Unicode's
/// `White_Space` property.
pub open spec fn is_space(c: char) -> bool {
    let u = c as u32;
    ||| 0x09 <= u <= 0x0D
    ||| u == 0x20
    ||| u == 0x85
    ||| u == 0xA0
    ||| u == 0x1680
    ||| 0x2000 <= u <= 0x200A
    ||| u == 0x2028
    ||| u == 0x2029
    ||| u == 0x202F
    ||| u == 0x205F
    ||| u == 0x3000
}

/// The fields of a line: its maximal runs of characters that are not white
/// space, from left to right.
///
/// Read from the end of the line: white space adds nothing, a character
/// that follows another character of a field lengthens the last field, and
/// any other character starts a new field.
pub open spec fn fields(line: Seq<char>) -> Seq<Seq<char>>
    decreases line.len(),
{
    if line.len() == 0 {
        Seq::empty()
    } else {
        let before = line.drop_last();
        let found = fields(before);
        if is_space(line.last()) {
            found
        } else if before.len() > 0 && !is_space(before.last()) {
            found.drop_last().push(found.last().push(line.last()))
        } else {
            found.push(seq![line.last()])
        }
    }
}

/// The pieces that `spans` cut out of a line. A span gives the position of
/// its first character and the position behind its last.
pub open spec fn cut(line: Seq<char>, spans: Seq<(usize, usize)>) -> Seq<Seq<char>> {
    Seq::new(spans.len(), |i: int| line.subrange(spans[i].0 as int, spans[i].1 as int))
}

/// The key that a key field stands for: none for a lone `-`, else the field.
pub open spec fn key_of(field: Seq<char>) -> Option<Seq<char>> {
    if field == "-"@ {
        None
    } else {
        Some(field)
    }
}

/// The command that a `PUBLISH` line with these fields gives, where
/// `payload` is what its last field decodes to.
pub open spec fn publication(
    topic: Seq<char>,
    key: Seq<char>,
    payload: Option<Seq<u8>>,
) -> Result<CommandView, BrokerError> {
    match payload {
        Some(data) => Ok(CommandView::Publish(MessageView { topic, key: key_of(key), data })),
        None => Err(BrokerError::InvalidData),
    }
}

/// The command that a line stands for, or the error that it is refused with.
///
/// `CREATE_TOPIC`, `SUBSCRIBE` and `UNSUBSCRIBE` take one more field, the
/// topic. `PUBLISH` takes three: the topic, the key (`-` for none) and the
/// payload in base64. Anything else is an invalid command; a payload that is
/// not base64 is invalid data.
pub open spec fn parsed(line: Seq<char>) -> Result<CommandView, BrokerError> {
    let parts = fields(line);
    if parts.len() == 0 {
        Err(BrokerError::InvalidCommand)
    } else if parts[0] == "CREATE_TOPIC"@ {
        if parts.len() == 2 {
            Ok(CommandView::CreateTopic(parts[1]))
        } else {
            Err(BrokerError::InvalidCommand)
        }
    } else if parts[0] == "SUBSCRIBE"@ {
        if parts.len() == 2 {
            Ok(CommandView::Subscribe(parts[1]))
        } else {
            Err(BrokerError::InvalidCommand)
        }
    } else if parts[0] == "UNSUBSCRIBE"@ {
        if parts.len() == 2 {
            Ok(CommandView::Unsubscribe(parts[1]))
        } else {
            Err(BrokerError::InvalidCommand)
        }
    } else if parts[0] == "PUBLISH"@ {
        if parts.len() == 4 {
            publication(parts[1], parts[2], base64_decoded(parts[3]))
        } else {
            Err(BrokerError::InvalidCommand)
        }
    } else {
        Err(BrokerError::InvalidCommand)
    }
}

/// The outcome of a parse, with the command taken by its view.
pub open spec fn outcome_view(res: Result<BrokerCommand, BrokerError>) -> Result<
    CommandView,
    BrokerError,
> {
    match res {
        Ok(cmd) => Ok(cmd@),
        Err(e) => Err(e),
    }
}

/// What the decoder returned, with the bytes taken by their view and the
/// decoder's error forgotten.
pub open spec fn decoded_view(decoded: Result<Vec<u8>, base64::DecodeError>) -> Option<Seq<u8>> {
    match decoded {
        Ok(bytes) => Some(bytes@),
        Err(_) => None,
    }
}

/// The four verbs are four different words.
pub proof fn lemma_verbs_differ()
    ensures
        "CREATE_TOPIC"@ != "SUBSCRIBE"@,
        "CREATE_TOPIC"@ != "UNSUBSCRIBE"@,
        "CREATE_TOPIC"@ != "PUBLISH"@,
        "SUBSCRIBE"@ != "UNSUBSCRIBE"@,
        "SUBSCRIBE"@ != "PUBLISH"@,
        "UNSUBSCRIBE"@ != "PUBLISH"@,
{
    reveal_strlit("CREATE_TOPIC");
    reveal_strlit("SUBSCRIBE");
    reveal_strlit("UNSUBSCRIBE");
    reveal_strlit("PUBLISH");
    assert("CREATE_TOPIC"@.len() == 12);
    assert("SUBSCRIBE"@.len() == 9);
    assert("UNSUBSCRIBE"@.len() == 11);
}

/// A text has at most as many characters as its UTF-8 encoding has bytes.
proof fn lemma_chars_within_bytes(chars: Seq<char>)
    ensures
        chars.len() <= vstd::utf8::encode_utf8(chars).len(),
    decreases chars.len(),
{
    if chars.len() > 0 {
        lemma_chars_within_bytes(chars.drop_first());
    }
}

/// Tells whether a character is white space.
pub fn is_space_char(c: char) -> (space: bool)
    ensures
        space == is_space(c),
{
    let u: u32 = c as u32;
    (0x09 <= u && u <= 0x0D) || u == 0x20 || u == 0x85 || u == 0xA0 || u == 0x1680 || (0x2000 <= u
        && u <= 0x200A) || u == 0x2028 || u == 0x2029 || u == 0x202F || u == 0x205F || u == 0x3000
}

/// Tells whether two string slices hold the same text.
pub fn same_text(a: &str, b: &str) -> (same: bool)
    ensures
        same == (a@ == b@),
{
    let x = a.as_bytes();
    let y = b.as_bytes();
    proof {
        vstd::utf8::encode_utf8_decode_utf8(a@);
        vstd::utf8::encode_utf8_decode_utf8(b@);
    }
    if x.len() != y.len() {
        return false;
    }
    let mut i: usize = 0;
    while i < x.len()
        invariant
            i <= x.len(),
            x.len() == y.len(),
            x@ == vstd::utf8::encode_utf8(a@),
            y@ == vstd::utf8::encode_utf8(b@),
            forall|k: int| 0 <= k < i ==> x@[k] == y@[k],
        decreases x.len() - i,
    {
        if x[i] != y[i] {
            return false;
        }
        i += 1;
    }
    assert(x@ =~= y@);
    true
}

/// Finds the fields of a line in one pass: for each field, the position of
/// its first character and the position behind its last, counted in
/// characters.
pub fn field_spans(line: &str) -> (spans: Vec<(usize, usize)>)
    ensures
        cut(line@, spans@) == fields(line@),
        forall|k: int|
            0 <= k < spans.len() ==> (#[trigger] spans@[k]).0 < spans@[k].1 <= line@.len(),
{
    // No text has more characters than bytes, so every position fits in `usize`.
    let _byte_len = line.as_bytes().len();
    proof {
        lemma_chars_within_bytes(line@);
    }
    let mut spans: Vec<(usize, usize)> = Vec::new();
    let mut start: Option<usize> = None;
    let mut i: usize = 0;
    for c in it: line.chars()
        invariant
            i == it.index(),
            it.seq() == line@,
            line@.len() <= usize::MAX,
            forall|k: int| 0 <= k < spans.len() ==> (#[trigger] spans@[k]).0 < spans@[k].1 <= i,
            match start {
                Some(s) => {
                    &&& s < i
                    &&& !is_space(line@[i - 1])
                    &&& fields(line@.take(i as int)) == cut(line@, spans@).push(
                        line@.subrange(s as int, i as int),
                    )
                },
                None => {
                    &&& i > 0 ==> is_space(line@[i - 1])
                    &&& fields(line@.take(i as int)) == cut(line@, spans@)
                },
            },
    {
        let ghost seen = line@.take(i as int);
        let ghost next = line@.take(i + 1);
        assert(next.drop_last() == seen);
        if is_space_char(c) {
            if let Some(s) = start {
                assert(cut(line@, spans@.push((s, i))) == cut(line@, spans@).push(
                    line@.subrange(s as int, i as int),
                ));
                spans.push((s, i));
                start = None;
            }
        } else if start.is_none() {
            assert(line@.subrange(i as int, i + 1) == seq![c]);
            start = Some(i);
        } else {
            let ghost s = start.unwrap() as int;
            assert(line@.subrange(s, i + 1) == line@.subrange(s, i as int).push(c));
        }
        i += 1;
    }
    assert(line@.take(i as int) == line@);
    if let Some(s) = start {
        assert(cut(line@, spans@.push((s, i))) == cut(line@, spans@).push(
            line@.subrange(s as int, i as int),
        ));
        spans.push((s, i));
    }
    spans
}

/// Builds the command of a `PUBLISH` line from its topic and key fields and
/// from what the decoder made of its payload field.
pub fn publish_command(
    topic: &str,
    key: &str,
    decoded: Result<Vec<u8>, base64::DecodeError>,
) -> (res: Result<BrokerCommand, BrokerError>)
    ensures
        outcome_view(res) == publication(topic@, key@, decoded_view(decoded)),
{
    match decoded {
        Ok(data) => {
            let key = if same_text(key, "-") {
                None
            } else {
                Some(key.to_string())
            };
            Ok(BrokerCommand::Publish(Message { topic: topic.to_string(), key, data }))
        },
        Err(_) => Err(BrokerError::InvalidData),
    }
}

/// Reads one command from a line. The line may end in a newline or not.
pub fn parse_command(line: &str) -> (res: Result<BrokerCommand, BrokerError>)
    ensures
        outcome_view(res) == parsed(line@),
{
    let spans = field_spans(line);
    proof {
        lemma_verbs_differ();
    }
    let count = spans.len();
    if count != 2 && count != 4 {
        return Err(BrokerError::InvalidCommand);
    }
    let verb = line.substring_char(spans[0].0, spans[0].1);
    let topic = line.substring_char(spans[1].0, spans[1].1);
    if count == 2 {
        if same_text(verb, "CREATE_TOPIC") {
            Ok(BrokerCommand::CreateTopic(topic.to_string()))
        } else if same_text(verb, "SUBSCRIBE") {
            Ok(BrokerCommand::Subscribe(topic.to_string()))
        } else if same_text(verb, "UNSUBSCRIBE") {
            Ok(BrokerCommand::Unsubscribe(topic.to_string()))
        } else {
            Err(BrokerError::InvalidCommand)
        }
    } else if same_text(verb, "PUBLISH") {
        let key = line.substring_char(spans[2].0, spans[2].1);
        let payload = line.substring_char(spans[3].0, spans[3].1);
        publish_command(topic, key, decode_standard(payload))
    } else {
        Err(BrokerError::InvalidCommand)
    }
}

} // verus!

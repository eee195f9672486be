use base64::prelude::{Engine, BASE64_STANDARD};
use pubsub_broker::codec::{armor_fits, encode_error, encode_message, frame};
use pubsub_broker::command::{
    field_spans, is_space_char, parse_command, publish_command, same_text, BrokerCommand,
};
use pubsub_broker::error::BrokerError;
use pubsub_broker::message::Message;

fn message(topic: &str, key: Option<&str>, data: &[u8]) -> Message {
    Message { topic: topic.to_string(), key: key.map(|k| k.to_string()), data: data.to_vec() }
}

#[test]
fn parses_create_topic() {
    match parse_command("CREATE_TOPIC orders") {
        Ok(BrokerCommand::CreateTopic(name)) => assert_eq!(name, "orders"),
        other => panic!("unexpected: {:?}", other),
    }
}

#[test]
fn parses_subscribe() {
    match parse_command("SUBSCRIBE orders") {
        Ok(BrokerCommand::Subscribe(name)) => assert_eq!(name, "orders"),
        other => panic!("unexpected: {:?}", other),
    }
}

#[test]
fn parses_unsubscribe() {
    match parse_command("UNSUBSCRIBE orders") {
        Ok(BrokerCommand::Unsubscribe(name)) => assert_eq!(name, "orders"),
        other => panic!("unexpected: {:?}", other),
    }
}

#[test]
fn parses_publish_without_key() {
    match parse_command("PUBLISH orders - aGVsbG8=") {
        Ok(BrokerCommand::Publish(msg)) => {
            assert_eq!(msg.topic, "orders");
            assert_eq!(msg.key, None);
            assert_eq!(msg.data, b"hello".to_vec());
        }
        other => panic!("unexpected: {:?}", other),
    }
}

#[test]
fn parses_publish_with_key() {
    match parse_command("PUBLISH orders customer-7 d29ybGQ=") {
        Ok(BrokerCommand::Publish(msg)) => {
            assert_eq!(msg.topic, "orders");
            assert_eq!(msg.key, Some("customer-7".to_string()));
            assert_eq!(msg.data, b"world".to_vec());
        }
        other => panic!("unexpected: {:?}", other),
    }
}

#[test]
fn publish_payload_is_decoded_not_copied() {
    match parse_command("PUBLISH t - AAEC/w==") {
        Ok(BrokerCommand::Publish(msg)) => assert_eq!(msg.data, vec![0u8, 1, 2, 255]),
        other => panic!("unexpected: {:?}", other),
    }
}

#[test]
fn a_key_that_only_starts_with_a_dash_is_a_key() {
    match parse_command("PUBLISH t -- aGVsbG8=") {
        Ok(BrokerCommand::Publish(msg)) => assert_eq!(msg.key, Some("--".to_string())),
        other => panic!("unexpected: {:?}", other),
    }
}

#[test]
fn empty_line_is_an_invalid_command() {
    assert!(matches!(parse_command(""), Err(BrokerError::InvalidCommand)));
    assert!(matches!(parse_command("   \t \n"), Err(BrokerError::InvalidCommand)));
}

#[test]
fn unknown_verb_is_an_invalid_command() {
    assert!(matches!(parse_command("DELETE_TOPIC orders"), Err(BrokerError::InvalidCommand)));
    assert!(matches!(parse_command("subscribe orders"), Err(BrokerError::InvalidCommand)));
    assert!(matches!(parse_command("PUBLISHED a - aGVsbG8="), Err(BrokerError::InvalidCommand)));
}

#[test]
fn missing_arguments_are_an_invalid_command() {
    assert!(matches!(parse_command("PUBLISH ordersonly"), Err(BrokerError::InvalidCommand)));
    assert!(matches!(parse_command("PUBLISH orders -"), Err(BrokerError::InvalidCommand)));
    assert!(matches!(parse_command("PUBLISH"), Err(BrokerError::InvalidCommand)));
    assert!(matches!(parse_command("CREATE_TOPIC"), Err(BrokerError::InvalidCommand)));
    assert!(matches!(parse_command("SUBSCRIBE"), Err(BrokerError::InvalidCommand)));
    assert!(matches!(parse_command("UNSUBSCRIBE"), Err(BrokerError::InvalidCommand)));
}

#[test]
fn surplus_arguments_are_an_invalid_command() {
    assert!(matches!(parse_command("CREATE_TOPIC a b"), Err(BrokerError::InvalidCommand)));
    assert!(matches!(parse_command("SUBSCRIBE a b"), Err(BrokerError::InvalidCommand)));
    assert!(matches!(parse_command("UNSUBSCRIBE a b"), Err(BrokerError::InvalidCommand)));
    assert!(matches!(
        parse_command("PUBLISH orders - aGVs bG8="),
        Err(BrokerError::InvalidCommand)
    ));
}

#[test]
fn wrong_field_count_wins_over_bad_payload() {
    assert!(matches!(
        parse_command("PUBLISH orders - !!! extra"),
        Err(BrokerError::InvalidCommand)
    ));
}

#[test]
fn malformed_payload_is_invalid_data() {
    assert!(matches!(
        parse_command("PUBLISH orders - !!!notbase64"),
        Err(BrokerError::InvalidData)
    ));
    assert!(matches!(parse_command("PUBLISH orders - aGVsbG8"), Err(BrokerError::InvalidData)));
    assert!(matches!(parse_command("PUBLISH orders k a"), Err(BrokerError::InvalidData)));
}

#[test]
fn fields_may_be_separated_by_any_white_space() {
    match parse_command("  PUBLISH\torders   -\u{a0}aGVsbG8=\r\n") {
        Ok(BrokerCommand::Publish(msg)) => {
            assert_eq!(msg.topic, "orders");
            assert_eq!(msg.data, b"hello".to_vec());
        }
        other => panic!("unexpected: {:?}", other),
    }
}

#[test]
fn topic_names_are_case_sensitive_text() {
    match parse_command("SUBSCRIBE Ördérs") {
        Ok(BrokerCommand::Subscribe(name)) => assert_eq!(name, "Ördérs"),
        other => panic!("unexpected: {:?}", other),
    }
}

fn pieces(line: &str) -> Vec<String> {
    let chars: Vec<char> = line.chars().collect();
    field_spans(line).iter().map(|&(from, to)| chars[from..to].iter().collect()).collect()
}

#[test]
fn field_spans_agree_with_split_whitespace() {
    let lines = [
        "",
        " ",
        "a",
        " a",
        "a ",
        "a b",
        "  a   b  ",
        "\ta\nb\r\nc",
        "PUBLISH orders - aGVsbG8=",
        "x\u{2003}y\u{3000}z",
        "é è\u{85}ê",
        "one",
        "𝄞 clef",
    ];
    for line in lines {
        let expected: Vec<String> = line.split_whitespace().map(|w| w.to_string()).collect();
        assert_eq!(pieces(line), expected, "line {:?}", line);
    }
}

#[test]
fn field_spans_count_characters() {
    assert_eq!(field_spans("ab  cd"), vec![(0, 2), (4, 6)]);
    assert_eq!(field_spans("é 𝄞x"), vec![(0, 1), (2, 4)]);
    assert_eq!(field_spans(" \t"), Vec::new());
}

#[test]
fn white_space_is_what_the_standard_library_calls_white_space() {
    let mut count = 0;
    for code in 0..=0x10FFFFu32 {
        if let Some(c) = char::from_u32(code) {
            assert_eq!(is_space_char(c), c.is_whitespace(), "code point {:#x}", code);
            if is_space_char(c) {
                count += 1;
            }
        }
    }
    assert_eq!(count, 25);
}

#[test]
fn same_text_compares_contents() {
    assert!(same_text("", ""));
    assert!(same_text("PUBLISH", "PUBLISH"));
    assert!(!same_text("PUBLISH", "PUBLISh"));
    assert!(!same_text("PUBLISH", "PUBLIS"));
    assert!(!same_text("a", ""));
    assert!(same_text("héllo", "héllo"));
    assert!(!same_text("héllo", "hèllo"));
}

#[test]
fn publish_command_takes_what_the_decoder_returned() {
    match publish_command("orders", "-", BASE64_STANDARD.decode("aGVsbG8=")) {
        Ok(BrokerCommand::Publish(msg)) => {
            assert_eq!(msg.topic, "orders");
            assert_eq!(msg.key, None);
            assert_eq!(msg.data, b"hello".to_vec());
        }
        other => panic!("unexpected: {:?}", other),
    }
    match publish_command("orders", "k1", Ok(vec![1, 2, 3])) {
        Ok(BrokerCommand::Publish(msg)) => {
            assert_eq!(msg.key, Some("k1".to_string()));
            assert_eq!(msg.data, vec![1, 2, 3]);
        }
        other => panic!("unexpected: {:?}", other),
    }
    assert!(matches!(
        publish_command("orders", "-", BASE64_STANDARD.decode("%%%")),
        Err(BrokerError::InvalidData)
    ));
}

#[test]
fn empty_payload_is_valid() {
    match publish_command("orders", "-", BASE64_STANDARD.decode("")) {
        Ok(BrokerCommand::Publish(msg)) => assert!(msg.data.is_empty()),
        other => panic!("unexpected: {:?}", other),
    }
}

#[test]
fn encodes_a_delivered_message() {
    let line = encode_message(&message("orders", None, b"hello"));
    assert_eq!(line, "TOPIC orders DATA aGVsbG8=\n");
}

#[test]
fn the_key_is_not_part_of_the_frame() {
    let with_key = encode_message(&message("orders", Some("k"), b"world"));
    let without = encode_message(&message("orders", None, b"world"));
    assert_eq!(with_key, "TOPIC orders DATA d29ybGQ=\n");
    assert_eq!(with_key, without);
}

#[test]
fn encodes_an_empty_payload() {
    assert_eq!(encode_message(&message("t", None, b"")), "TOPIC t DATA \n");
}

#[test]
fn frame_joins_topic_and_armored_payload() {
    assert_eq!(frame("a", "QQ=="), "TOPIC a DATA QQ==\n");
    assert_eq!(frame("", ""), "TOPIC  DATA \n");
}

#[test]
fn a_frame_carries_the_payload_that_was_published() {
    let line = "PUBLISH sensors - 3q2+7w==";
    let msg = match parse_command(line) {
        Ok(BrokerCommand::Publish(msg)) => msg,
        other => panic!("unexpected: {:?}", other),
    };
    assert_eq!(msg.data, vec![0xde, 0xad, 0xbe, 0xef]);
    assert_eq!(encode_message(&msg), "TOPIC sensors DATA 3q2+7w==\n");
}

#[test]
fn armor_fits_every_payload_that_can_exist() {
    assert!(armor_fits(0));
    assert!(armor_fits(1));
    assert!(armor_fits(3));
    assert!(armor_fits(1 << 20));
    assert!(armor_fits(usize::MAX / 4 * 3));
    assert!(!armor_fits(usize::MAX / 4 * 3 + 1));
    assert!(!armor_fits(usize::MAX));
}

#[test]
fn error_messages() {
    assert_eq!(BrokerError::TopicExists.message(), "Topic already exists");
    assert_eq!(BrokerError::TopicNotFound.message(), "Topic not found");
    assert_eq!(BrokerError::InvalidCommand.message(), "Invalid command");
    assert_eq!(BrokerError::InvalidData.message(), "Invalid data");
    assert_eq!(BrokerError::SendFailed.message(), "Failed to send message");
    assert_eq!(BrokerError::IoError("broken pipe".to_string()).message(), "IO error: broken pipe");
}

#[test]
fn error_lines() {
    assert_eq!(encode_error(&BrokerError::TopicExists), "Error: Topic already exists\n");
    assert_eq!(encode_error(&BrokerError::TopicNotFound), "Error: Topic not found\n");
    assert_eq!(encode_error(&BrokerError::InvalidCommand), "Error: Invalid command\n");
    assert_eq!(encode_error(&BrokerError::InvalidData), "Error: Invalid data\n");
    assert_eq!(encode_error(&BrokerError::SendFailed), "Error: Failed to send message\n");
    assert_eq!(
        encode_error(&BrokerError::IoError("reset".to_string())),
        "Error: IO error: reset\n"
    );
}

#[test]
fn a_copy_of_a_message_is_equal_to_it() {
    let msg = message("orders", Some("k"), &[9, 8, 7]);
    let copy = msg.clone();
    assert_eq!(copy.topic, msg.topic);
    assert_eq!(copy.key, msg.key);
    assert_eq!(copy.data, msg.data);
}

#[test]
fn an_io_error_becomes_an_io_error_with_its_text() {
    let failure = std::io::Error::new(std::io::ErrorKind::BrokenPipe, "the pipe broke");
    let e = BrokerError::from(failure);
    assert!(matches!(&e, BrokerError::IoError(text) if text == "the pipe broke"));
    assert_eq!(e.message(), "IO error: the pipe broke");
    assert_eq!(encode_error(&e), "Error: IO error: the pipe broke\n");
}

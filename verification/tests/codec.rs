use rust_pubsub::codec::parse;
use rust_pubsub::{PubSubError, PubSubMessage};

fn rejected(line: &str) -> Result<PubSubMessage, PubSubError> {
    Err(PubSubError::ParseError { line: line.to_string() })
}

#[test]
fn publish_takes_the_rest_of_the_line_as_message() {
    assert_eq!(
        parse("PUBLISH room hello world"),
        Ok(PubSubMessage::PUBLISH { channel: "room".to_string(), msg: "hello world".to_string() })
    );
}

#[test]
fn subscribe_names_its_channel() {
    assert_eq!(
        parse("SUBSCRIBE room"),
        Ok(PubSubMessage::SUBSCRIBE { channel: "room".to_string() })
    );
}

#[test]
fn unsubscribe_names_its_channel() {
    assert_eq!(
        parse("UNSUBSCRIBE room"),
        Ok(PubSubMessage::UNSUBSCRIBE { channel: "room".to_string() })
    );
}

#[test]
fn unknown_keyword_is_rejected_with_the_line() {
    assert_eq!(parse("FOO"), rejected("FOO"));
    assert_eq!(parse("FOO room"), rejected("FOO room"));
    assert_eq!(parse("PUBLISHED room hello"), rejected("PUBLISHED room hello"));
}

#[test]
fn missing_argument_is_rejected() {
    assert_eq!(parse("SUBSCRIBE"), rejected("SUBSCRIBE"));
    assert_eq!(parse("UNSUBSCRIBE"), rejected("UNSUBSCRIBE"));
    assert_eq!(parse("PUBLISH"), rejected("PUBLISH"));
    assert_eq!(parse("PUBLISH room"), rejected("PUBLISH room"));
}

#[test]
fn empty_line_is_rejected() {
    assert_eq!(parse(""), rejected(""));
    assert_eq!(parse(" "), rejected(" "));
}

#[test]
fn extra_token_is_rejected() {
    assert_eq!(parse("SUBSCRIBE a b"), rejected("SUBSCRIBE a b"));
    assert_eq!(parse("UNSUBSCRIBE a b"), rejected("UNSUBSCRIBE a b"));
    assert_eq!(parse("SUBSCRIBE room "), rejected("SUBSCRIBE room "));
}

#[test]
fn keyword_is_case_sensitive() {
    assert_eq!(parse("subscribe room"), rejected("subscribe room"));
    assert_eq!(parse("Publish room hi"), rejected("Publish room hi"));
}

#[test]
fn leading_space_is_rejected() {
    assert_eq!(parse(" SUBSCRIBE room"), rejected(" SUBSCRIBE room"));
}

#[test]
fn empty_channel_is_rejected() {
    assert_eq!(parse("SUBSCRIBE "), rejected("SUBSCRIBE "));
    assert_eq!(parse("UNSUBSCRIBE "), rejected("UNSUBSCRIBE "));
    assert_eq!(parse("PUBLISH  hello"), rejected("PUBLISH  hello"));
    assert_eq!(parse("PUBLISH "), rejected("PUBLISH "));
}

#[test]
fn message_may_be_empty() {
    assert_eq!(
        parse("PUBLISH room "),
        Ok(PubSubMessage::PUBLISH { channel: "room".to_string(), msg: String::new() })
    );
}

#[test]
fn message_keeps_every_space() {
    assert_eq!(
        parse("PUBLISH room  two  spaces "),
        Ok(PubSubMessage::PUBLISH {
            channel: "room".to_string(),
            msg: " two  spaces ".to_string()
        })
    );
}

#[test]
fn message_may_hold_a_keyword() {
    assert_eq!(
        parse("PUBLISH room SUBSCRIBE room"),
        Ok(PubSubMessage::PUBLISH {
            channel: "room".to_string(),
            msg: "SUBSCRIBE room".to_string()
        })
    );
}

#[test]
fn text_beyond_ascii_is_kept() {
    assert_eq!(
        parse("PUBLISH caf\u{e9} gr\u{fc}\u{df}e \u{2615} now"),
        Ok(PubSubMessage::PUBLISH {
            channel: "caf\u{e9}".to_string(),
            msg: "gr\u{fc}\u{df}e \u{2615} now".to_string()
        })
    );
    assert_eq!(
        parse("SUBSCRIBE \u{4e16}\u{754c}"),
        Ok(PubSubMessage::SUBSCRIBE { channel: "\u{4e16}\u{754c}".to_string() })
    );
}

#[test]
fn other_white_space_is_no_separator() {
    assert_eq!(parse("SUBSCRIBE\troom"), rejected("SUBSCRIBE\troom"));
    assert_eq!(
        parse("SUBSCRIBE a\tb"),
        Ok(PubSubMessage::SUBSCRIBE { channel: "a\tb".to_string() })
    );
}

#[test]
fn wire_form_is_read_back() {
    let channels = ["a", "room", "x.y/z", "\u{4e16}"];
    let messages = ["", "m", "two words", " padded ", "PUBLISH a b"];
    for channel in channels {
        assert_eq!(
            parse(&format!("SUBSCRIBE {}", channel)),
            Ok(PubSubMessage::SUBSCRIBE { channel: channel.to_string() })
        );
        assert_eq!(
            parse(&format!("UNSUBSCRIBE {}", channel)),
            Ok(PubSubMessage::UNSUBSCRIBE { channel: channel.to_string() })
        );
        for message in messages {
            assert_eq!(
                parse(&format!("PUBLISH {} {}", channel, message)),
                Ok(PubSubMessage::PUBLISH {
                    channel: channel.to_string(),
                    msg: message.to_string()
                })
            );
        }
    }
}

use okayeg::log::LogType;
use okayeg::normalize::{normalize, Event, ModerationKind};

fn chat(sender_id: &str, sender: &str, channel: &str, text: &str) -> Event {
    Event::ChatMessage {
        sender_id: sender_id.to_string(),
        sender: sender.to_string(),
        channel: channel.to_string(),
        text: text.to_string(),
    }
}

#[test]
fn chat_message_is_normalized() {
    let ignored: Vec<String> = Vec::new();
    let event = chat("123", "UserA", "#ChanNel", "hello there");
    let log = normalize(&event, &ignored, 7, 1000).expect("chat message should produce a record");
    assert_eq!(log.id, 7);
    assert_eq!(log.user_id.as_deref(), Some("123"));
    assert_eq!(log.username, "usera");
    assert_eq!(log.channel, "channel");
    assert_eq!(log.content.as_deref(), Some("hello there"));
    assert!(matches!(log.log_type, LogType::Chat));
    assert_eq!(log.created_at, Some(1000));
}

#[test]
fn ignored_sender_is_dropped() {
    let ignored = vec!["SpamBot".to_string()];
    let event = chat("9", "SpamBot", "#chan", "buy followers");
    assert!(normalize(&event, &ignored, 1, 1).is_none());
}

#[test]
fn other_senders_still_pass_with_nonempty_ignored_set() {
    let ignored = vec!["SpamBot".to_string()];
    let event = chat("9", "Honest", "#chan", "hi all");
    assert!(normalize(&event, &ignored, 1, 1).is_some());
}

#[test]
fn trivial_messages_are_dropped() {
    let ignored: Vec<String> = Vec::new();
    assert!(normalize(&chat("1", "u", "#c", ""), &ignored, 1, 1).is_none());
    assert!(normalize(&chat("1", "u", "#c", "x"), &ignored, 1, 1).is_none());
    assert!(normalize(&chat("1", "u", "#c", "xy"), &ignored, 1, 1).is_some());
}

#[test]
fn ban_is_keyed_by_target_without_content() {
    let ignored: Vec<String> = Vec::new();
    let event = Event::ModerationAction {
        kind: ModerationKind::Ban,
        target_id: "42".to_string(),
        target: "BadGuy".to_string(),
        channel: "#SomeWhere".to_string(),
    };
    let log = normalize(&event, &ignored, 3, 500).expect("a ban should produce a record");
    assert_eq!(log.user_id.as_deref(), Some("42"));
    assert_eq!(log.username, "badguy");
    assert_eq!(log.channel, "somewhere");
    assert!(log.content.is_none());
    assert!(matches!(log.log_type, LogType::Ban));
    assert_eq!(log.created_at, Some(500));
}

#[test]
fn timeout_produces_a_moderation_record() {
    let ignored: Vec<String> = Vec::new();
    let event = Event::ModerationAction {
        kind: ModerationKind::Timeout,
        target_id: "42".to_string(),
        target: "Rowdy".to_string(),
        channel: "#chan".to_string(),
    };
    let log = normalize(&event, &ignored, 3, 500).expect("a timeout should produce a record");
    assert!(log.content.is_none());
    assert!(matches!(log.log_type, LogType::Ban));
}

#[test]
fn moderation_target_in_ignored_set_still_produces_a_record() {
    let ignored = vec!["BadGuy".to_string()];
    let event = Event::ModerationAction {
        kind: ModerationKind::Ban,
        target_id: "42".to_string(),
        target: "BadGuy".to_string(),
        channel: "#c".to_string(),
    };
    assert!(normalize(&event, &ignored, 1, 1).is_some());
}

#[test]
fn non_message_events_produce_nothing() {
    let ignored: Vec<String> = Vec::new();
    assert!(normalize(&Event::ReconnectRequested, &ignored, 1, 1).is_none());
    assert!(normalize(&Event::HeartbeatProbe, &ignored, 1, 1).is_none());
    assert!(normalize(&Event::Other, &ignored, 1, 1).is_none());
}

#[test]
fn channel_without_prefix_is_kept_whole() {
    let ignored: Vec<String> = Vec::new();
    let log = normalize(&chat("1", "u", "Plain", "hello"), &ignored, 1, 1).unwrap();
    assert_eq!(log.channel, "plain");
}

use twch::message::{
    CharRange, Emote, FrameCommand, ParseError, RawFrame, Tag, TwitchColor, TwitchMessage,
};
use twch::text::{parse_dec_u64, parse_dec_usize};

fn tag(key: &str, value: Option<&str>) -> Tag {
    Tag {
        key: key.to_string(),
        value: value.map(|v| v.to_string()),
    }
}

fn post_frame(nick: Option<&str>, tags: Option<Vec<Tag>>, content: &str) -> RawFrame {
    RawFrame {
        source_nick: nick.map(|n| n.to_string()),
        tags,
        command: FrameCommand::ChannelPost {
            content: content.to_string(),
        },
    }
}

fn ronni_tags() -> Vec<Tag> {
    vec![
        tag("badge-info", Some("")),
        tag("badges", Some("global_mod/1,turbo/1")),
        tag("color", Some("#0D4200")),
        tag("display-name", Some("ronni")),
        tag("emotes", Some("25:0-4,12-16/1902:6-10")),
        tag("id", Some("b34ccfc7-4977-403a-8a94-33c6bac34fb8")),
        tag("mod", Some("0")),
        tag("room-id", Some("1337")),
        tag("subscriber", Some("0")),
        tag("tmi-sent-ts", Some("1507246572675")),
        tag("turbo", Some("1")),
        tag("user-id", Some("1337")),
        tag("user-type", Some("global_mod")),
    ]
}

#[test]
fn parse_message() {
    let frame = post_frame(Some("ronni"), Some(ronni_tags()), "Kappa Keepo Kappa");
    let msg = TwitchMessage::parse(&frame).unwrap();

    assert_eq!(msg.user_id(), 1337);
    assert_eq!(msg.nick_name().as_str(), "ronni");
    assert_eq!(msg.content().as_str(), "Kappa Keepo Kappa");
    assert_eq!(msg.display_name().as_deref(), Some("ronni"));
    assert_eq!(*msg.color(), Some(TwitchColor(13, 66, 0)));
    assert!(!msg.is_action());
    let emotes = msg.emotes();
    assert_eq!(emotes.len(), 2);
    assert_eq!(emotes[0].id, 25);
    assert_eq!(
        emotes[0].ranges,
        vec![CharRange { start: 0, end: 5 }, CharRange { start: 12, end: 17 }]
    );
    assert_eq!(emotes[1].id, 1902);
    assert_eq!(emotes[1].ranges, vec![CharRange { start: 6, end: 11 }]);

    let underline = ansi_term::Style::new().underline();
    assert_eq!(
        msg.render(),
        format!(
            "{}: {} {} {}",
            ansi_term::Color::RGB(13, 66, 0).paint("ronni"),
            underline.paint("Kappa"),
            underline.paint("Keepo"),
            underline.paint("Kappa")
        ),
    );
}

#[test]
fn action_marker_is_stripped() {
    let tags = vec![tag("user-id", Some("7"))];
    let frame = post_frame(Some("ronni"), Some(tags), "\u{1}ACTION waves\u{1}");
    let msg = TwitchMessage::parse(&frame).unwrap();
    assert!(msg.is_action());
    assert_eq!(msg.content().as_str(), "waves");

    let frame = post_frame(
        Some("ronni"),
        Some(vec![tag("user-id", Some("7"))]),
        "\u{1}ACTION no trailing marker",
    );
    let msg = TwitchMessage::parse(&frame).unwrap();
    assert!(msg.is_action());
    assert_eq!(msg.content().as_str(), "no trailing marker");
}

#[test]
fn missing_user_id_fails() {
    let frame = post_frame(Some("ronni"), Some(vec![tag("color", Some("#0D4200"))]), "hi");
    let err = TwitchMessage::parse(&frame).unwrap_err();
    assert!(matches!(err, ParseError::MissingValue(f) if f == "user-id"));
}

#[test]
fn non_channel_post_fails() {
    let frame = RawFrame {
        source_nick: Some("ronni".to_string()),
        tags: Some(vec![tag("user-id", Some("1337"))]),
        command: FrameCommand::Other,
    };
    let err = TwitchMessage::parse(&frame).unwrap_err();
    assert!(matches!(err, ParseError::InvalidValue(f) if f == "not a PRIVMSG"));
}

#[test]
fn missing_nick_and_tags_fail() {
    let frame = post_frame(None, Some(vec![tag("user-id", Some("1"))]), "hi");
    let err = TwitchMessage::parse(&frame).unwrap_err();
    assert!(matches!(err, ParseError::MissingValue(f) if f == "nick name"));

    let frame = post_frame(Some("ronni"), None, "hi");
    let err = TwitchMessage::parse(&frame).unwrap_err();
    assert!(matches!(err, ParseError::MissingValue(f) if f == "tags"));
}

#[test]
fn malformed_recognized_tags_fail() {
    let frame = post_frame(Some("r"), Some(vec![tag("user-id", Some("12ab"))]), "hi");
    let err = TwitchMessage::parse(&frame).unwrap_err();
    assert!(matches!(err, ParseError::InvalidValue(f) if f == "user-id"));

    // an out-of-range value is rejected, not wrapped
    let frame = post_frame(
        Some("r"),
        Some(vec![tag("user-id", Some("99999999999999999999"))]),
        "hi",
    );
    let err = TwitchMessage::parse(&frame).unwrap_err();
    assert!(matches!(err, ParseError::InvalidValue(f) if f == "user-id"));

    let frame = post_frame(
        Some("r"),
        Some(vec![tag("user-id", Some("1")), tag("color", Some("#GGGGGG"))]),
        "hi",
    );
    let err = TwitchMessage::parse(&frame).unwrap_err();
    assert!(matches!(err, ParseError::InvalidValue(f) if f == "color"));

    let frame = post_frame(
        Some("r"),
        Some(vec![tag("user-id", Some("1")), tag("emotes", Some("25:04"))]),
        "hi",
    );
    let err = TwitchMessage::parse(&frame).unwrap_err();
    assert!(matches!(err, ParseError::InvalidValue(f) if f == "emotes"));
}

#[test]
fn empty_and_bare_tags_are_skipped() {
    let frame = post_frame(
        Some("r"),
        Some(vec![
            tag("color", Some("")),
            tag("display-name", None),
            tag("user-id", Some("9")),
        ]),
        "hi",
    );
    let msg = TwitchMessage::parse(&frame).unwrap();
    assert_eq!(*msg.color(), None);
    assert_eq!(*msg.display_name(), None);
    assert_eq!(msg.user_id(), 9);
}

#[test]
fn later_tag_overrides_earlier() {
    let frame = post_frame(
        Some("r"),
        Some(vec![tag("user-id", Some("1")), tag("user-id", Some("2"))]),
        "hi",
    );
    let msg = TwitchMessage::parse(&frame).unwrap();
    assert_eq!(msg.user_id(), 2);
}

#[test]
fn color_from_str_exact() {
    assert_eq!(TwitchColor::from_str("#0D4200"), Ok(TwitchColor(13, 66, 0)));
    assert_eq!(TwitchColor::from_str("#ff00aa"), Ok(TwitchColor(255, 0, 170)));
    assert_eq!(TwitchColor::from_str("#FF00AA"), Ok(TwitchColor(255, 0, 170)));
    assert_eq!(TwitchColor::from_str("0D4200"), Err(()));
    assert_eq!(TwitchColor::from_str("#0D420"), Err(()));
    assert_eq!(TwitchColor::from_str("#0D42000"), Err(()));
    assert_eq!(TwitchColor::from_str("#0D420G"), Err(()));
    assert_eq!(TwitchColor::from_str(""), Err(()));
}

#[test]
fn emote_from_str_exact() {
    let e = Emote::from_str("25:0-4,12-16").unwrap();
    assert_eq!(e.id, 25);
    assert_eq!(
        e.ranges,
        vec![CharRange { start: 0, end: 5 }, CharRange { start: 12, end: 17 }]
    );

    assert!(Emote::from_str("25").is_err());
    assert!(Emote::from_str("a:0-4").is_err());
    assert!(Emote::from_str("25:0-4,").is_err());
    assert!(Emote::from_str("25:").is_err());
    assert!(Emote::from_str(":0-4").is_err());
}

#[test]
fn decimal_parsing_bounds() {
    assert_eq!(parse_dec_u64("0"), Some(0));
    assert_eq!(parse_dec_u64("18446744073709551615"), Some(u64::MAX));
    assert_eq!(parse_dec_u64("18446744073709551616"), None);
    assert_eq!(parse_dec_u64(""), None);
    assert_eq!(parse_dec_u64("+3"), None);
    assert_eq!(parse_dec_usize("42"), Some(42));
    assert_eq!(parse_dec_usize("4x"), None);
}

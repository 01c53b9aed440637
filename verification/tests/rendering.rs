use twch::message::{FrameCommand, RawFrame, Tag, TwitchMessage};
use twch::TwitchStream;

fn tag(key: &str, value: Option<&str>) -> Tag {
    Tag {
        key: key.to_string(),
        value: value.map(|v| v.to_string()),
    }
}

fn post(tags: Vec<Tag>, content: &str) -> TwitchMessage {
    let frame = RawFrame {
        source_nick: Some("ronni".to_string()),
        tags: Some(tags),
        command: FrameCommand::ChannelPost {
            content: content.to_string(),
        },
    };
    TwitchMessage::parse(&frame).unwrap()
}

#[test]
fn render_plain_message() {
    let msg = post(vec![tag("user-id", Some("1")), tag("color", Some("#0D4200"))], "hello");
    assert_eq!(
        msg.render(),
        format!("{}: hello", ansi_term::Color::RGB(13, 66, 0).paint("ronni"))
    );
}

#[test]
fn render_uncolored_message_is_unstyled() {
    let msg = post(vec![tag("user-id", Some("1"))], "hello");
    assert_eq!(msg.render(), "ronni: hello");
}

#[test]
fn render_differing_display_name() {
    let msg = post(
        vec![tag("user-id", Some("1")), tag("display-name", Some("Ronni"))],
        "hi",
    );
    // case-insensitively equal: the display name alone is used
    assert_eq!(msg.render(), "Ronni: hi");

    let msg = post(
        vec![tag("user-id", Some("1")), tag("display-name", Some("RealName"))],
        "hi",
    );
    assert_eq!(msg.render(), "RealName (ronni): hi");
}

#[test]
fn render_action_message_italic() {
    let msg = post(vec![tag("user-id", Some("1"))], "\u{1}ACTION waves\u{1}");
    let italic = ansi_term::Style::new().italic();
    assert_eq!(msg.render(), format!("ronni {}", italic.paint("waves")));
}

#[test]
fn render_order_independent() {
    // the same ranges arriving in a different order render identically
    let a = post(
        vec![tag("user-id", Some("1")), tag("emotes", Some("25:0-4,12-16/1902:6-10"))],
        "Kappa Keepo Kappa",
    );
    let b = post(
        vec![tag("user-id", Some("1")), tag("emotes", Some("1902:6-10/25:12-16,0-4"))],
        "Kappa Keepo Kappa",
    );
    assert_eq!(a.render(), b.render());
}

#[test]
fn render_tolerates_overlapping_ranges() {
    let underline = ansi_term::Style::new().underline();
    let msg = post(
        vec![tag("user-id", Some("1")), tag("emotes", Some("1:3-6/2:0-4"))],
        "abcdefgh",
    );
    // sorted by start: [0,5) then [3,7); the cursor stays monotonic
    assert_eq!(
        msg.render(),
        format!("ronni: {}{}h", underline.paint("abcde"), underline.paint("defg"))
    );
}

#[test]
fn render_range_past_end_is_clamped() {
    let underline = ansi_term::Style::new().underline();
    let msg = post(
        vec![tag("user-id", Some("1")), tag("emotes", Some("1:3-20"))],
        "abcde",
    );
    assert_eq!(msg.render(), format!("ronni: abc{}", underline.paint("de")));
}

#[test]
fn render_stream_listing() {
    let s = TwitchStream::new(
        "login".to_string(),
        "Name".to_string(),
        "Game".to_string(),
        "  a title  ".to_string(),
        Some(42),
    );
    assert_eq!(
        s.render(),
        format!(
            "{} /login - {} (42 viewers)\na title",
            ansi_term::Color::Green.paint("Name"),
            ansi_term::Color::Blue.paint("Game")
        )
    );
}

#[test]
fn render_stream_listing_sparse() {
    let s = TwitchStream::new(
        "login".to_string(),
        "Name".to_string(),
        String::new(),
        "   ".to_string(),
        None,
    );
    assert_eq!(s.render(), format!("{} /login", ansi_term::Color::Green.paint("Name")));
}

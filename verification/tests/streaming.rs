use twch::channel_stream::{ColorCache, PollStep, SourceEvent, TwitchChannelStream};
use twch::heartbeat::{next_chunk, ChunkStep};
use twch::message::{FallbackColor, FrameCommand, RawFrame, Tag, TwitchColor, TwitchMessage};
use twch::Auth;

fn tag(key: &str, value: Option<&str>) -> Tag {
    Tag {
        key: key.to_string(),
        value: value.map(|v| v.to_string()),
    }
}

fn frame(tags: Vec<Tag>, content: &str) -> RawFrame {
    RawFrame {
        source_nick: Some("ronni".to_string()),
        tags: Some(tags),
        command: FrameCommand::ChannelPost {
            content: content.to_string(),
        },
    }
}

fn palette_colors() -> Vec<TwitchColor> {
    vec![
        TwitchColor(255, 0, 0),
        TwitchColor(0, 0, 255),
        TwitchColor(0, 128, 0),
        TwitchColor(178, 34, 34),
        TwitchColor(255, 127, 80),
        TwitchColor(154, 205, 50),
        TwitchColor(255, 69, 0),
        TwitchColor(46, 139, 87),
        TwitchColor(218, 165, 32),
        TwitchColor(210, 105, 30),
        TwitchColor(95, 158, 160),
        TwitchColor(30, 144, 255),
        TwitchColor(255, 105, 180),
        TwitchColor(138, 43, 226),
        TwitchColor(0, 255, 127),
    ]
}

#[test]
fn color_cache_is_idempotent() {
    let mut cache = ColorCache::new();
    let c1 = cache.color_for(1337);
    let c2 = cache.color_for(1337);
    assert_eq!(c1.0, c2.0);
    assert!(c1.0 < 15);
}

#[test]
fn fallback_palette_lookup() {
    assert_eq!(FallbackColor(0).to_color(), TwitchColor(255, 0, 0));
    assert_eq!(FallbackColor(13).to_color(), TwitchColor(138, 43, 226));
    assert_eq!(FallbackColor(14).to_color(), TwitchColor(0, 255, 127));
}

#[test]
fn stream_fills_missing_color_consistently() {
    let mut stream = TwitchChannelStream::new();
    let ev = SourceEvent::Frame(frame(vec![tag("user-id", Some("7"))], "one"));
    let c1 = match stream.on_event(ev) {
        PollStep::Yield(m) => {
            let c = (*m.color()).expect("a fallback color is attached");
            assert!(palette_colors().contains(&c));
            c
        }
        other => panic!("expected a message, got {:?}", step_name(&other)),
    };
    let ev = SourceEvent::Frame(frame(vec![tag("user-id", Some("7"))], "two"));
    match stream.on_event(ev) {
        PollStep::Yield(m) => assert_eq!((*m.color()).expect("cached color"), c1),
        other => panic!("expected a message, got {:?}", step_name(&other)),
    }
}

#[test]
fn stream_keeps_explicit_color() {
    let mut stream = TwitchChannelStream::new();
    let ev = SourceEvent::Frame(frame(
        vec![tag("user-id", Some("7")), tag("color", Some("#0D4200"))],
        "hi",
    ));
    match stream.on_event(ev) {
        PollStep::Yield(m) => assert_eq!(*m.color(), Some(TwitchColor(13, 66, 0))),
        other => panic!("expected a message, got {:?}", step_name(&other)),
    }
}

fn step_name(s: &PollStep) -> &'static str {
    match s {
        PollStep::Yield(_) => "Yield",
        PollStep::Skip => "Skip",
        PollStep::Done => "Done",
    }
}

#[test]
fn stream_filters_bad_frames_without_ending() {
    let mut stream = TwitchChannelStream::new();
    // a frame missing user-id is dropped silently
    let ev = SourceEvent::Frame(frame(vec![tag("color", Some("#0D4200"))], "hi"));
    assert!(matches!(stream.on_event(ev), PollStep::Skip));
    assert!(!stream.is_done());
    // a non-post frame is dropped silently
    let ev = SourceEvent::Frame(RawFrame {
        source_nick: Some("ronni".to_string()),
        tags: None,
        command: FrameCommand::Other,
    });
    assert!(matches!(stream.on_event(ev), PollStep::Skip));
    assert!(!stream.is_done());
    // the stream still yields afterwards
    let ev = SourceEvent::Frame(frame(vec![tag("user-id", Some("7"))], "hi"));
    assert!(matches!(stream.on_event(ev), PollStep::Yield(_)));
}

#[test]
fn stream_ends_permanently() {
    let mut stream = TwitchChannelStream::new();
    assert!(matches!(stream.on_event(SourceEvent::SourceClosed), PollStep::Done));
    assert!(stream.is_done());
    // even a perfectly good frame produces nothing any more
    let ev = SourceEvent::Frame(frame(vec![tag("user-id", Some("7"))], "hi"));
    assert!(matches!(stream.on_event(ev), PollStep::Done));
    assert!(stream.is_done());

    let mut stream = TwitchChannelStream::new();
    assert!(matches!(stream.on_event(SourceEvent::SourceError), PollStep::Done));
    assert!(stream.is_done());
}

#[test]
fn heartbeat_batches_messages() {
    let m1 = TwitchMessage::parse(&frame(vec![tag("user-id", Some("1"))], "one")).unwrap();
    let m2 = TwitchMessage::parse(&frame(vec![tag("user-id", Some("2"))], "two")).unwrap();
    let expected = format!("{}\n{}\n", m1.render(), m2.render());
    match next_chunk(&vec![m1, m2], false, false) {
        ChunkStep::Chunk(s) => assert_eq!(s, expected),
        _ => panic!("expected a batch chunk"),
    }
}

#[test]
fn heartbeat_filler_only_when_idle() {
    // idle drain, timer ticked: exactly one filler chunk
    match next_chunk(&vec![], false, true) {
        ChunkStep::Filler(s) => assert_eq!(s, " \u{8}"),
        _ => panic!("expected the filler chunk"),
    }
    // idle drain, no tick: wait
    assert!(matches!(next_chunk(&vec![], false, false), ChunkStep::Wait));
    // a message beats the timer: no filler even when the timer ticked
    let m = TwitchMessage::parse(&frame(vec![tag("user-id", Some("1"))], "hi")).unwrap();
    assert!(matches!(next_chunk(&vec![m], false, true), ChunkStep::Chunk(_)));
}

#[test]
fn heartbeat_ends_with_source() {
    // termination wins even while messages sit in the drain
    let m = TwitchMessage::parse(&frame(vec![tag("user-id", Some("1"))], "hi")).unwrap();
    assert!(matches!(next_chunk(&vec![m], true, false), ChunkStep::End));
    assert!(matches!(next_chunk(&vec![], true, true), ChunkStep::End));
}

#[test]
fn auth_strips_token_marker() {
    let auth = Auth::new("client".to_string(), "oauth:secret".to_string());
    assert_eq!(auth.client_id().as_str(), "client");
    assert_eq!(auth.oauth_token().as_str(), "secret");

    let auth = Auth::new("client".to_string(), "secret".to_string());
    assert_eq!(auth.oauth_token().as_str(), "secret");
}

//! The frame model and the frame parser: a raw tagged chat frame is turned
//! into a structured [`TwitchMessage`] or rejected with a [`ParseError`].
//! The whole parse is specified by [`spec_parse`] over views.
use vstd::prelude::*;

use crate::text::{
    dec_val, find_char, hex_digit_val, is_dec_u64, is_dec_usize, is_hex_digit,
    lemma_find_char_suffix, parse_dec_u64, parse_dec_usize, parse_hex_digit,
};

verus! {

// ---------- errors ----------

/// A parse failure scoped to one frame: a required field was absent, or a
/// recognized field was present but malformed.
#[derive(Debug)]
pub enum ParseError {
    MissingValue(&'static str),
    InvalidValue(&'static str),
}

pub enum ParseErrorView {
    MissingValue(Seq<char>),
    InvalidValue(Seq<char>),
}

impl View for ParseError {
    type V = ParseErrorView;

    open spec fn view(&self) -> ParseErrorView {
        match self {
            ParseError::MissingValue(f) => ParseErrorView::MissingValue(f@),
            ParseError::InvalidValue(f) => ParseErrorView::InvalidValue(f@),
        }
    }
}

// ---------- colors ----------

/// An RGB display color.
#[derive(Clone, Copy, Debug, PartialEq, Eq, Structural)]
pub struct TwitchColor(pub u8, pub u8, pub u8);

/// What `TwitchColor::from_str` accepts and returns: exactly `#RRGGBB`,
/// seven characters, hex digits in either case.
pub open spec fn spec_parse_color(s: Seq<char>) -> Result<TwitchColor, ()> {
    if s.len() == 7 && s[0] == '#' && is_hex_digit(s[1]) && is_hex_digit(s[2]) && is_hex_digit(
        s[3],
    ) && is_hex_digit(s[4]) && is_hex_digit(s[5]) && is_hex_digit(s[6]) {
        Ok(
            TwitchColor(
                (hex_digit_val(s[1]) * 16 + hex_digit_val(s[2])) as u8,
                (hex_digit_val(s[3]) * 16 + hex_digit_val(s[4])) as u8,
                (hex_digit_val(s[5]) * 16 + hex_digit_val(s[6])) as u8,
            ),
        )
    } else {
        Err(())
    }
}

impl TwitchColor {
    /// Parses a `#RRGGBB` color string.
    pub fn from_str(s: &str) -> (r: Result<TwitchColor, ()>)
        ensures
            r == spec_parse_color(s@),
    {
        if s.unicode_len() != 7 {
            return Err(());
        }
        if s.get_char(0) != '#' {
            return Err(());
        }
        let d1 = parse_hex_digit(s.get_char(1));
        let d2 = parse_hex_digit(s.get_char(2));
        let d3 = parse_hex_digit(s.get_char(3));
        let d4 = parse_hex_digit(s.get_char(4));
        let d5 = parse_hex_digit(s.get_char(5));
        let d6 = parse_hex_digit(s.get_char(6));
        match (d1, d2, d3, d4, d5, d6) {
            (Some(a), Some(b), Some(c), Some(d), Some(e), Some(f)) => Ok(
                TwitchColor(a * 16 + b, c * 16 + d, e * 16 + f),
            ),
            _ => Err(()),
        }
    }
}

/// An index into the fixed fallback palette, drawn at random when a user's
/// first frame carries no explicit color.
#[derive(Clone, Copy, Debug, PartialEq, Eq, Structural)]
pub struct FallbackColor(pub u8);

/// The number of entries in the fallback palette.
pub const NUM_FALLBACK_COLORS: u8 = 15;

/// The fixed fallback palette, by index.
pub open spec fn palette(i: int) -> TwitchColor {
    if i == 0 {
        TwitchColor(255, 0, 0)
    } else if i == 1 {
        TwitchColor(0, 0, 255)
    } else if i == 2 {
        TwitchColor(0, 128, 0)
    } else if i == 3 {
        TwitchColor(178, 34, 34)
    } else if i == 4 {
        TwitchColor(255, 127, 80)
    } else if i == 5 {
        TwitchColor(154, 205, 50)
    } else if i == 6 {
        TwitchColor(255, 69, 0)
    } else if i == 7 {
        TwitchColor(46, 139, 87)
    } else if i == 8 {
        TwitchColor(218, 165, 32)
    } else if i == 9 {
        TwitchColor(210, 105, 30)
    } else if i == 10 {
        TwitchColor(95, 158, 160)
    } else if i == 11 {
        TwitchColor(30, 144, 255)
    } else if i == 12 {
        TwitchColor(255, 105, 180)
    } else if i == 13 {
        TwitchColor(138, 43, 226)
    } else {
        TwitchColor(0, 255, 127)
    }
}

impl FallbackColor {
    /// Looks the index up in the fixed palette.
    pub fn to_color(&self) -> (r: TwitchColor)
        requires
            self.0 < NUM_FALLBACK_COLORS,
        ensures
            r == palette(self.0 as int),
    {
        if self.0 == 0 {
            TwitchColor(255, 0, 0)
        } else if self.0 == 1 {
            TwitchColor(0, 0, 255)
        } else if self.0 == 2 {
            TwitchColor(0, 128, 0)
        } else if self.0 == 3 {
            TwitchColor(178, 34, 34)
        } else if self.0 == 4 {
            TwitchColor(255, 127, 80)
        } else if self.0 == 5 {
            TwitchColor(154, 205, 50)
        } else if self.0 == 6 {
            TwitchColor(255, 69, 0)
        } else if self.0 == 7 {
            TwitchColor(46, 139, 87)
        } else if self.0 == 8 {
            TwitchColor(218, 165, 32)
        } else if self.0 == 9 {
            TwitchColor(210, 105, 30)
        } else if self.0 == 10 {
            TwitchColor(95, 158, 160)
        } else if self.0 == 11 {
            TwitchColor(30, 144, 255)
        } else if self.0 == 12 {
            TwitchColor(255, 105, 180)
        } else if self.0 == 13 {
            TwitchColor(138, 43, 226)
        } else {
            TwitchColor(0, 255, 127)
        }
    }
}

// ---------- emotes ----------

/// A half-open range of codepoint offsets into a message's content.
#[derive(Clone, Copy, Debug, PartialEq, Eq, Structural)]
pub struct CharRange {
    pub start: usize,
    pub end: usize,
}

/// One emote occurrence annotation: an opaque id and the content ranges
/// where the emote's token appears.
#[derive(Debug)]
pub struct Emote {
    pub id: usize,
    pub ranges: Vec<CharRange>,
}

pub struct EmoteView {
    pub id: usize,
    pub ranges: Seq<CharRange>,
}

impl View for Emote {
    type V = EmoteView;

    open spec fn view(&self) -> EmoteView {
        EmoteView { id: self.id, ranges: self.ranges@ }
    }
}

impl DeepView for Emote {
    type V = EmoteView;

    open spec fn deep_view(&self) -> EmoteView {
        self.view()
    }
}

/// What one wire range `start-end` parses to: the half-open range
/// `[start, end + 1)`, both bounds decimal and in range for `usize`.
pub open spec fn spec_parse_range(s: Seq<char>) -> Result<CharRange, ()> {
    match find_char(s, '-') {
        None => Err(()),
        Some(i) => {
            if 0 <= i < s.len() {
                let sp = s.take(i);
                let ep = s.skip(i + 1);
                if is_dec_usize(sp) && is_dec_usize(ep) && dec_val(ep) + 1 <= usize::MAX {
                    Ok(CharRange { start: dec_val(sp) as usize, end: (dec_val(ep) + 1) as usize })
                } else {
                    Err(())
                }
            } else {
                Err(())
            }
        },
    }
}

/// What a comma-separated list of wire ranges parses to; every piece must
/// parse for the list to parse.
pub open spec fn spec_parse_ranges(s: Seq<char>) -> Result<Seq<CharRange>, ()>
    decreases s.len(),
{
    match find_char(s, ',') {
        None => match spec_parse_range(s) {
            Ok(r) => Ok(seq![r]),
            Err(_) => Err(()),
        },
        Some(i) => {
            if 0 <= i < s.len() {
                match spec_parse_range(s.take(i)) {
                    Ok(r) => match spec_parse_ranges(s.skip(i + 1)) {
                        Ok(rest) => Ok(seq![r] + rest),
                        Err(_) => Err(()),
                    },
                    Err(_) => Err(()),
                }
            } else {
                Err(())
            }
        },
    }
}

/// What one emote entry `id:range(,range)*` parses to.
pub open spec fn spec_parse_emote(s: Seq<char>) -> Result<EmoteView, ()> {
    match find_char(s, ':') {
        None => Err(()),
        Some(i) => {
            if 0 <= i < s.len() {
                if is_dec_usize(s.take(i)) {
                    match spec_parse_ranges(s.skip(i + 1)) {
                        Ok(rs) => Ok(EmoteView { id: dec_val(s.take(i)) as usize, ranges: rs }),
                        Err(_) => Err(()),
                    }
                } else {
                    Err(())
                }
            } else {
                Err(())
            }
        },
    }
}

/// What a slash-separated list of emote entries parses to; every entry must
/// parse for the list to parse.
pub open spec fn spec_parse_emotes(s: Seq<char>) -> Result<Seq<EmoteView>, ()>
    decreases s.len(),
{
    match find_char(s, '/') {
        None => match spec_parse_emote(s) {
            Ok(e) => Ok(seq![e]),
            Err(_) => Err(()),
        },
        Some(i) => {
            if 0 <= i < s.len() {
                match spec_parse_emote(s.take(i)) {
                    Ok(e) => match spec_parse_emotes(s.skip(i + 1)) {
                        Ok(rest) => Ok(seq![e] + rest),
                        Err(_) => Err(()),
                    },
                    Err(_) => Err(()),
                }
            } else {
                Err(())
            }
        },
    }
}

/// Parses one wire range `start-end` into `[start, end + 1)`.
fn parse_range_piece(s: &str) -> (r: Result<CharRange, ()>)
    ensures
        r == spec_parse_range(s@),
{
    let n = s.unicode_len();
    match crate::text::find_char_in(s, 0, '-') {
        None => {
            proof {
                lemma_find_char_suffix(s@, 0, '-', None);
                assert(s@.skip(0) =~= s@);
            }
            Err(())
        },
        Some(i) => {
            proof {
                lemma_find_char_suffix(s@, 0, '-', Some(i as int));
                assert(s@.skip(0) =~= s@);
            }
            let sp = s.substring_char(0, i);
            let ep = s.substring_char(i + 1, n);
            proof {
                assert(sp@ =~= s@.take(i as int));
                assert(ep@ =~= s@.skip(i + 1));
            }
            let start = match parse_dec_usize(sp) {
                Some(v) => v,
                None => {
                    return Err(());
                },
            };
            let end_wire = match parse_dec_usize(ep) {
                Some(v) => v,
                None => {
                    return Err(());
                },
            };
            match end_wire.checked_add(1) {
                Some(end) => Ok(CharRange { start, end }),
                None => Err(()),
            }
        },
    }
}

/// Maps an emote parse result to its view.
pub open spec fn emote_res_view(r: Result<Emote, ()>) -> Result<EmoteView, ()> {
    match r {
        Ok(e) => Ok(e@),
        Err(_) => Err(()),
    }
}

impl Emote {
    /// Parses one emote entry `id:range(,range)*`.
    #[verifier::rlimit(50)]
    pub fn from_str(s: &str) -> (r: Result<Emote, ()>)
        ensures
            emote_res_view(r) == spec_parse_emote(s@),
    {
        let n = s.unicode_len();
        let colon = match crate::text::find_char_in(s, 0, ':') {
            None => {
                proof {
                    lemma_find_char_suffix(s@, 0, ':', None);
                    assert(s@.skip(0) =~= s@);
                }
                return Err(());
            },
            Some(i) => {
                proof {
                    lemma_find_char_suffix(s@, 0, ':', Some(i as int));
                    assert(s@.skip(0) =~= s@);
                }
                i
            },
        };
        assert(find_char(s@, ':') == Some(colon as int));
        let idp = s.substring_char(0, colon);
        proof {
            assert(idp@ =~= s@.take(colon as int));
        }
        let id = match parse_dec_usize(idp) {
            Some(v) => v,
            None => {
                return Err(());
            },
        };
        let ghost whole_rest = s@.skip(colon + 1);
        let mut ranges: Vec<CharRange> = Vec::new();
        let mut p: usize = colon + 1;
        proof {
            assert(ranges@ =~= Seq::<CharRange>::empty());
            match spec_parse_ranges(whole_rest) {
                Ok(whole) => {
                    assert(ranges@ + whole =~= whole);
                },
                Err(_) => {},
            }
        }
        loop
            invariant
                n == s@.len() <= usize::MAX,
                colon < n,
                colon + 1 <= p <= n,
                whole_rest == s@.skip(colon + 1),
                find_char(s@, ':') == Some(colon as int),
                idp@ == s@.take(colon as int),
                is_dec_usize(idp@),
                id == dec_val(idp@),
                match spec_parse_ranges(s@.skip(p as int)) {
                    Ok(rest) => spec_parse_ranges(whole_rest) == Ok::<Seq<CharRange>, ()>(
                        ranges@ + rest,
                    ),
                    Err(_) => spec_parse_ranges(whole_rest) is Err,
                },
            decreases n - p,
        {
            match crate::text::find_char_in(s, p, ',') {
                Some(q) => {
                    proof {
                        lemma_find_char_suffix(s@, p as int, ',', Some(q as int));
                    }
                    let piece = s.substring_char(p, q);
                    proof {
                        assert(piece@ =~= s@.skip(p as int).take(q - p));
                        assert(s@.skip(p as int).skip(q - p + 1) =~= s@.skip(q + 1));
                    }
                    match parse_range_piece(piece) {
                        Ok(r) => {
                            let ghost old_ranges = ranges@;
                            ranges.push(r);
                            proof {
                                assert(ranges@ =~= old_ranges + seq![r]);
                                match spec_parse_ranges(s@.skip(q + 1)) {
                                    Ok(rest2) => {
                                        assert(old_ranges + (seq![r] + rest2) =~= ranges@ + rest2);
                                    },
                                    Err(_) => {},
                                }
                            }
                            p = q + 1;
                        },
                        Err(_) => {
                            proof {
                                assert(spec_parse_ranges(s@.skip(p as int)) is Err);
                                assert(spec_parse_emote(s@) is Err);
                            }
                            return Err(());
                        },
                    }
                },
                None => {
                    proof {
                        lemma_find_char_suffix(s@, p as int, ',', None);
                    }
                    let piece = s.substring_char(p, n);
                    proof {
                        assert(piece@ =~= s@.skip(p as int));
                    }
                    match parse_range_piece(piece) {
                        Ok(r) => {
                            let ghost old_ranges = ranges@;
                            ranges.push(r);
                            proof {
                                assert(ranges@ =~= old_ranges + seq![r]);
                                assert(spec_parse_ranges(s@.skip(p as int)) == Ok::<
                                    Seq<CharRange>,
                                    (),
                                >(seq![r]));
                                assert(spec_parse_ranges(whole_rest) == Ok::<Seq<CharRange>, ()>(
                                    ranges@,
                                ));
                            }
                            let e = Emote { id, ranges };
                            proof {
                                assert(spec_parse_emote(s@) matches Ok(v) && v == e@);
                            }
                            return Ok(e);
                        },
                        Err(_) => {
                            proof {
                                assert(spec_parse_ranges(s@.skip(p as int)) is Err);
                                assert(spec_parse_emote(s@) is Err);
                            }
                            return Err(());
                        },
                    }
                },
            }
        }
    }
}

/// Maps an emote-list parse result to its view.
pub open spec fn emotes_res_view(r: Result<Vec<Emote>, ()>) -> Result<Seq<EmoteView>, ()> {
    match r {
        Ok(es) => Ok(es.deep_view()),
        Err(_) => Err(()),
    }
}

/// Parses the whole `emotes` tag value: a slash-separated list of entries.
#[verifier::rlimit(50)]
pub fn parse_emotes_str(s: &str) -> (r: Result<Vec<Emote>, ()>)
    ensures
        emotes_res_view(r) == spec_parse_emotes(s@),
{
    let n = s.unicode_len();
    let mut emotes: Vec<Emote> = Vec::new();
    let mut p: usize = 0;
    proof {
        assert(s@.skip(0) =~= s@);
        assert(emotes.deep_view() =~= Seq::<EmoteView>::empty());
        match spec_parse_emotes(s@) {
            Ok(whole) => {
                assert(emotes.deep_view() + whole =~= whole);
            },
            Err(_) => {},
        }
    }
    loop
        invariant
            n == s@.len() <= usize::MAX,
            p <= n,
            match spec_parse_emotes(s@.skip(p as int)) {
                Ok(rest) => spec_parse_emotes(s@) == Ok::<Seq<EmoteView>, ()>(
                    emotes.deep_view() + rest,
                ),
                Err(_) => spec_parse_emotes(s@) is Err,
            },
        decreases n - p,
    {
        match crate::text::find_char_in(s, p, '/') {
            Some(q) => {
                proof {
                    lemma_find_char_suffix(s@, p as int, '/', Some(q as int));
                }
                let piece = s.substring_char(p, q);
                proof {
                    assert(piece@ =~= s@.skip(p as int).take(q - p));
                    assert(s@.skip(p as int).skip(q - p + 1) =~= s@.skip(q + 1));
                }
                match Emote::from_str(piece) {
                    Ok(e) => {
                        let ghost old_emotes = emotes.deep_view();
                        let ghost ev = e@;
                        emotes.push(e);
                        proof {
                            assert(emotes.deep_view() =~= old_emotes + seq![ev]);
                            match spec_parse_emotes(s@.skip(q + 1)) {
                                Ok(rest2) => {
                                    assert(old_emotes + (seq![ev] + rest2) =~= emotes.deep_view()
                                        + rest2);
                                },
                                Err(_) => {},
                            }
                        }
                        p = q + 1;
                    },
                    Err(_) => {
                        proof {
                            assert(spec_parse_emotes(s@.skip(p as int)) is Err);
                        }
                        return Err(());
                    },
                }
            },
            None => {
                proof {
                    lemma_find_char_suffix(s@, p as int, '/', None);
                }
                let piece = s.substring_char(p, n);
                proof {
                    assert(piece@ =~= s@.skip(p as int));
                }
                match Emote::from_str(piece) {
                    Ok(e) => {
                        let ghost old_emotes = emotes.deep_view();
                        let ghost ev = e@;
                        emotes.push(e);
                        proof {
                            assert(emotes.deep_view() =~= old_emotes + seq![ev]);
                            assert(spec_parse_emotes(s@.skip(p as int)) == Ok::<Seq<EmoteView>, ()>(
                                seq![ev],
                            ));
                            assert(spec_parse_emotes(s@) == Ok::<Seq<EmoteView>, ()>(
                                emotes.deep_view(),
                            ));
                        }
                        return Ok(emotes);
                    },
                    Err(_) => {
                        proof {
                            assert(spec_parse_emotes(s@.skip(p as int)) is Err);
                        }
                        return Err(());
                    },
                }
            },
        }
    }
}

// ---------- frames ----------

/// The command of a raw frame: a user-authored channel post carrying the
/// post's text, or any other command kind, which the parser rejects.
pub enum FrameCommand {
    ChannelPost { content: String },
    Other,
}

pub enum FrameCommandView {
    ChannelPost { content: Seq<char> },
    Other,
}

impl View for FrameCommand {
    type V = FrameCommandView;

    open spec fn view(&self) -> FrameCommandView {
        match self {
            FrameCommand::ChannelPost { content } => FrameCommandView::ChannelPost {
                content: content@,
            },
            FrameCommand::Other => FrameCommandView::Other,
        }
    }
}

/// One key/value metadata entry attached to a frame; a bare key carries no
/// value.
pub struct Tag {
    pub key: String,
    pub value: Option<String>,
}

pub struct TagView {
    pub key: Seq<char>,
    pub value: Option<Seq<char>>,
}

impl View for Tag {
    type V = TagView;

    open spec fn view(&self) -> TagView {
        TagView { key: self.key@, value: self.value.deep_view() }
    }
}

impl DeepView for Tag {
    type V = TagView;

    open spec fn deep_view(&self) -> TagView {
        self.view()
    }
}

/// One unit of the chat transport, as the parser sees it: the sender's
/// login handle taken from the frame's source identity, the tag block, and
/// the command.
pub struct RawFrame {
    pub source_nick: Option<String>,
    pub tags: Option<Vec<Tag>>,
    pub command: FrameCommand,
}

pub struct RawFrameView {
    pub source_nick: Option<Seq<char>>,
    pub tags: Option<Seq<TagView>>,
    pub command: FrameCommandView,
}

impl View for RawFrame {
    type V = RawFrameView;

    open spec fn view(&self) -> RawFrameView {
        RawFrameView {
            source_nick: self.source_nick.deep_view(),
            tags: self.tags.deep_view(),
            command: self.command@,
        }
    }
}

// ---------- action marker ----------

/// The control sequence that opens a third-person "action" post.
pub open spec fn action_prefix() -> Seq<char> {
    "\u{1}ACTION "@
}

/// Whether a post's text starts with the action marker.
pub open spec fn is_action_content(c: Seq<char>) -> bool {
    c.len() >= 8 && c.take(8) == action_prefix()
}

/// The post's text with the action markers removed: the eight-character
/// prefix, and one trailing control character if present.
pub open spec fn stripped_content(c: Seq<char>) -> Seq<char> {
    if is_action_content(c) {
        let t = c.skip(8);
        if t.len() > 0 && t.last() == '\u{1}' {
            t.drop_last()
        } else {
            t
        }
    } else {
        c
    }
}

/// Tests for the action marker prefix.
fn has_action_prefix(s: &str) -> (r: bool)
    ensures
        r == is_action_content(s@),
{
    proof {
        reveal_strlit("\u{1}ACTION ");
    }
    let n = s.unicode_len();
    if n < 8 {
        return false;
    }
    let ok = s.get_char(0) == '\u{1}' && s.get_char(1) == 'A' && s.get_char(2) == 'C'
        && s.get_char(3) == 'T' && s.get_char(4) == 'I' && s.get_char(5) == 'O' && s.get_char(6)
        == 'N' && s.get_char(7) == ' ';
    proof {
        if ok {
            assert(s@.take(8) =~= action_prefix());
        } else {
            if is_action_content(s@) {
                assert(s@[0] == action_prefix()[0]);
                assert(s@[1] == action_prefix()[1]);
                assert(s@[2] == action_prefix()[2]);
                assert(s@[3] == action_prefix()[3]);
                assert(s@[4] == action_prefix()[4]);
                assert(s@[5] == action_prefix()[5]);
                assert(s@[6] == action_prefix()[6]);
                assert(s@[7] == action_prefix()[7]);
                assert(false);
            }
        }
    }
    ok
}

// ---------- tag scan ----------

/// The fields gathered while walking a frame's tag block.
pub struct TagAcc {
    pub user_id: Option<u64>,
    pub display_name: Option<Seq<char>>,
    pub color: Option<TwitchColor>,
    pub emotes: Seq<EmoteView>,
}

/// The scan starts with nothing gathered.
pub open spec fn init_acc() -> TagAcc {
    TagAcc { user_id: None, display_name: None, color: None, emotes: Seq::empty() }
}

/// The effect of one tag on the gathered fields: absent or empty values are
/// skipped, the four recognized keys are parsed (a malformed value aborts
/// the frame), and every other key is ignored.
pub open spec fn apply_tag(acc: TagAcc, t: TagView) -> Result<TagAcc, ParseErrorView> {
    match t.value {
        None => Ok(acc),
        Some(v) => {
            if v.len() == 0 {
                Ok(acc)
            } else if t.key == "user-id"@ {
                if is_dec_u64(v) {
                    Ok(TagAcc { user_id: Some(dec_val(v) as u64), ..acc })
                } else {
                    Err(ParseErrorView::InvalidValue("user-id"@))
                }
            } else if t.key == "display-name"@ {
                Ok(TagAcc { display_name: Some(v), ..acc })
            } else if t.key == "color"@ {
                match spec_parse_color(v) {
                    Ok(c) => Ok(TagAcc { color: Some(c), ..acc }),
                    Err(_) => Err(ParseErrorView::InvalidValue("color"@)),
                }
            } else if t.key == "emotes"@ {
                match spec_parse_emotes(v) {
                    Ok(es) => Ok(TagAcc { emotes: es, ..acc }),
                    Err(_) => Err(ParseErrorView::InvalidValue("emotes"@)),
                }
            } else {
                Ok(acc)
            }
        },
    }
}

/// Walks the tag block left to right, a later tag overriding an earlier
/// one; the first malformed recognized tag aborts the whole frame.
pub open spec fn scan_tags(tags: Seq<TagView>, acc: TagAcc) -> Result<TagAcc, ParseErrorView>
    decreases tags.len(),
{
    if tags.len() == 0 {
        Ok(acc)
    } else {
        match apply_tag(acc, tags[0]) {
            Ok(a) => scan_tags(tags.drop_first(), a),
            Err(e) => Err(e),
        }
    }
}

// ---------- messages ----------

/// One structured chat post, produced by the parser.
#[derive(Debug)]
pub struct TwitchMessage {
    user_id: u64,
    nick_name: String,
    content: String,
    display_name: Option<String>,
    color: Option<TwitchColor>,
    is_action: bool,
    emotes: Vec<Emote>,
}

pub struct MessageView {
    pub user_id: u64,
    pub nick_name: Seq<char>,
    pub content: Seq<char>,
    pub display_name: Option<Seq<char>>,
    pub color: Option<TwitchColor>,
    pub is_action: bool,
    pub emotes: Seq<EmoteView>,
}

impl View for TwitchMessage {
    type V = MessageView;

    closed spec fn view(&self) -> MessageView {
        MessageView {
            user_id: self.user_id,
            nick_name: self.nick_name@,
            content: self.content@,
            display_name: self.display_name.deep_view(),
            color: self.color,
            is_action: self.is_action,
            emotes: self.emotes.deep_view(),
        }
    }
}

impl DeepView for TwitchMessage {
    type V = MessageView;

    open spec fn deep_view(&self) -> MessageView {
        self.view()
    }
}

/// What the whole parse returns: the frame must be a channel post with a
/// source identity and a tag block, every recognized tag must parse, and a
/// `user-id` tag must have been present.
pub open spec fn spec_parse(f: RawFrameView) -> Result<MessageView, ParseErrorView> {
    match f.command {
        FrameCommandView::Other => Err(ParseErrorView::InvalidValue("not a PRIVMSG"@)),
        FrameCommandView::ChannelPost { content } => {
            match f.source_nick {
                None => Err(ParseErrorView::MissingValue("nick name"@)),
                Some(nick) => match f.tags {
                    None => Err(ParseErrorView::MissingValue("tags"@)),
                    Some(tags) => match scan_tags(tags, init_acc()) {
                        Err(e) => Err(e),
                        Ok(acc) => match acc.user_id {
                            None => Err(ParseErrorView::MissingValue("user-id"@)),
                            Some(uid) => Ok(
                                MessageView {
                                    user_id: uid,
                                    nick_name: nick,
                                    content: stripped_content(content),
                                    display_name: acc.display_name,
                                    color: acc.color,
                                    is_action: is_action_content(content),
                                    emotes: acc.emotes,
                                },
                            ),
                        },
                    },
                },
            }
        },
    }
}

/// Maps a parse result to its view.
pub open spec fn parse_res_view(r: Result<TwitchMessage, ParseError>) -> Result<
    MessageView,
    ParseErrorView,
> {
    match r {
        Ok(m) => Ok(m@),
        Err(e) => Err(e@),
    }
}

impl TwitchMessage {
    pub fn user_id(&self) -> (r: u64)
        ensures
            r == self@.user_id,
    {
        self.user_id
    }

    pub fn color(&self) -> (r: &Option<TwitchColor>)
        ensures
            *r == self@.color,
    {
        &self.color
    }

    pub fn set_color(&mut self, color: TwitchColor)
        ensures
            final(self)@ == (MessageView { color: Some(color), ..old(self)@ }),
    {
        self.color = Some(color);
    }

    pub fn nick_name(&self) -> (r: &String)
        ensures
            r@ == self@.nick_name,
    {
        &self.nick_name
    }

    pub fn content(&self) -> (r: &String)
        ensures
            r@ == self@.content,
    {
        &self.content
    }

    pub fn display_name(&self) -> (r: &Option<String>)
        ensures
            r.deep_view() == self@.display_name,
    {
        &self.display_name
    }

    pub fn is_action(&self) -> (r: bool)
        ensures
            r == self@.is_action,
    {
        self.is_action
    }

    pub fn emotes(&self) -> (r: &Vec<Emote>)
        ensures
            r.deep_view() == self@.emotes,
    {
        &self.emotes
    }

    /// Parses one raw frame into a structured message, exactly as
    /// [`spec_parse`] describes.
    #[verifier::rlimit(50)]
    pub fn parse(frame: &RawFrame) -> (r: Result<TwitchMessage, ParseError>)
        ensures
            parse_res_view(r) == spec_parse(frame@),
    {
        let content_src: &String = match &frame.command {
            FrameCommand::ChannelPost { content } => content,
            FrameCommand::Other => {
                return Err(ParseError::InvalidValue("not a PRIVMSG"));
            },
        };
        let nick: &String = match &frame.source_nick {
            Some(nk) => nk,
            None => {
                return Err(ParseError::MissingValue("nick name"));
            },
        };
        let tags: &Vec<Tag> = match &frame.tags {
            Some(t) => t,
            None => {
                return Err(ParseError::MissingValue("tags"));
            },
        };
        proof {
            assert(frame@.command matches FrameCommandView::ChannelPost { content } && content
                == content_src@);
            assert(frame@.source_nick == Some(nick@));
        }
        let is_action = has_action_prefix(content_src.as_str());
        let content: String = if is_action {
            let nlen = content_src.as_str().unicode_len();
            let end = if nlen > 8 && content_src.as_str().get_char(nlen - 1) == '\u{1}' {
                nlen - 1
            } else {
                nlen
            };
            content_src.as_str().substring_char(8, end).to_owned()
        } else {
            content_src.clone()
        };
        proof {
            assert(content@ =~= stripped_content(content_src@));
        }
        let ghost tv: Seq<TagView> = tags.deep_view();
        proof {
            assert(frame@.tags == Some(tv));
        }
        let mut user_id: Option<u64> = None;
        let mut display_name: Option<String> = None;
        let mut color: Option<TwitchColor> = None;
        let mut emotes: Vec<Emote> = Vec::new();
        proof {
            assert(tv.skip(0) =~= tv);
            assert(emotes.deep_view() =~= Seq::<EmoteView>::empty());
            assert(TagAcc {
                user_id: user_id,
                display_name: display_name.deep_view(),
                color: color,
                emotes: emotes.deep_view(),
            } == init_acc());
        }
        let mut i: usize = 0;
        while i < tags.len()
            invariant
                tv == tags.deep_view(),
                tags@.len() == tv.len(),
                i <= tags@.len(),
                frame@.command == (FrameCommandView::ChannelPost { content: content_src@ }),
                frame@.source_nick == Some(nick@),
                frame@.tags == Some(tv),
                scan_tags(tv, init_acc()) == scan_tags(
                    tv.skip(i as int),
                    TagAcc {
                        user_id: user_id,
                        display_name: display_name.deep_view(),
                        color: color,
                        emotes: emotes.deep_view(),
                    },
                ),
            decreases tags@.len() - i,
        {
            let ghost cur = TagAcc {
                user_id: user_id,
                display_name: display_name.deep_view(),
                color: color,
                emotes: emotes.deep_view(),
            };
            proof {
                assert(tv.skip(i as int).len() > 0);
                assert(tv.skip(i as int)[0] == tv[i as int]);
                assert(tv.skip(i as int).drop_first() =~= tv.skip(i + 1));
            }
            let t: &Tag = &tags[i];
            match &t.value {
                None => {},
                Some(v) => {
                    if v.as_str().is_empty() {
                    } else if crate::text::str_is(&t.key, "user-id") {
                        match parse_dec_u64(v.as_str()) {
                            Some(u) => {
                                user_id = Some(u);
                            },
                            None => {
                                proof {
                                    assert(apply_tag(cur, tv[i as int]) == Err::<
                                        TagAcc,
                                        ParseErrorView,
                                    >(ParseErrorView::InvalidValue("user-id"@)));
                                }
                                return Err(ParseError::InvalidValue("user-id"));
                            },
                        }
                    } else if crate::text::str_is(&t.key, "display-name") {
                        display_name = Some(v.clone());
                    } else if crate::text::str_is(&t.key, "color") {
                        match TwitchColor::from_str(v.as_str()) {
                            Ok(c) => {
                                color = Some(c);
                            },
                            Err(_) => {
                                proof {
                                    assert(apply_tag(cur, tv[i as int]) == Err::<
                                        TagAcc,
                                        ParseErrorView,
                                    >(ParseErrorView::InvalidValue("color"@)));
                                }
                                return Err(ParseError::InvalidValue("color"));
                            },
                        }
                    } else if crate::text::str_is(&t.key, "emotes") {
                        match parse_emotes_str(v.as_str()) {
                            Ok(es) => {
                                emotes = es;
                            },
                            Err(_) => {
                                proof {
                                    assert(apply_tag(cur, tv[i as int]) == Err::<
                                        TagAcc,
                                        ParseErrorView,
                                    >(ParseErrorView::InvalidValue("emotes"@)));
                                }
                                return Err(ParseError::InvalidValue("emotes"));
                            },
                        }
                    }
                },
            }
            proof {
                assert(apply_tag(cur, tv[i as int]) matches Ok(a) && a == (TagAcc {
                    user_id: user_id,
                    display_name: display_name.deep_view(),
                    color: color,
                    emotes: emotes.deep_view(),
                }));
            }
            i += 1;
        }
        proof {
            assert(tv.skip(tv.len() as int) =~= Seq::<TagView>::empty());
        }
        let uid = match user_id {
            Some(u) => u,
            None => {
                return Err(ParseError::MissingValue("user-id"));
            },
        };
        let m = TwitchMessage {
            user_id: uid,
            nick_name: nick.clone(),
            content,
            display_name,
            color,
            is_action,
            emotes,
        };
        Ok(m)
    }
}

} // verus!

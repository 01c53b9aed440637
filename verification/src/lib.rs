//! A verified core for a live-chat viewer: parsing tag-annotated chat
//! frames into structured messages, caching fallback display colors,
//! filtering a raw frame source into a message stream, rendering messages
//! as styled text with emote highlighting, and batching rendered output
//! with keep-alive filler for a long-lived text transport.
use vstd::prelude::*;

pub mod channel_stream;
pub mod heartbeat;
pub mod message;
pub mod render;
pub mod text;

pub use channel_stream::TwitchChannelStream;

use crate::render::{paint_styled, styled_text, PaintColor, TextStyle};
use crate::text::{dec_str, fmt_u64};

verus! {

// ---------- credentials ----------

/// Credentials for the upstream service: an application id and a bearer
/// token, the token stored without its `oauth:` scheme marker.
#[derive(Clone)]
pub struct Auth {
    client_id: String,
    oauth_token: String,
}

/// The token with one leading `oauth:` marker removed, if present.
pub open spec fn strip_oauth(s: Seq<char>) -> Seq<char> {
    if s.len() >= 6 && s.take(6) == "oauth:"@ {
        s.skip(6)
    } else {
        s
    }
}

impl Auth {
    pub closed spec fn spec_client_id(&self) -> Seq<char> {
        self.client_id@
    }

    pub closed spec fn spec_oauth_token(&self) -> Seq<char> {
        self.oauth_token@
    }

    /// Builds credentials, normalizing the token.
    pub fn new(client_id: String, oauth_token: String) -> (r: Auth)
        ensures
            r.spec_client_id() == client_id@,
            r.spec_oauth_token() == strip_oauth(oauth_token@),
    {
        proof {
            reveal_strlit("oauth:");
        }
        let n = oauth_token.as_str().unicode_len();
        let has_marker = n >= 6 && oauth_token.as_str().get_char(0) == 'o'
            && oauth_token.as_str().get_char(1) == 'a' && oauth_token.as_str().get_char(2) == 'u'
            && oauth_token.as_str().get_char(3) == 't' && oauth_token.as_str().get_char(4) == 'h'
            && oauth_token.as_str().get_char(5) == ':';
        proof {
            if has_marker {
                assert(oauth_token@.take(6) =~= "oauth:"@);
            } else {
                if oauth_token@.len() >= 6 && oauth_token@.take(6) == "oauth:"@ {
                    assert(oauth_token@[0] == "oauth:"@[0]);
                    assert(oauth_token@[1] == "oauth:"@[1]);
                    assert(oauth_token@[2] == "oauth:"@[2]);
                    assert(oauth_token@[3] == "oauth:"@[3]);
                    assert(oauth_token@[4] == "oauth:"@[4]);
                    assert(oauth_token@[5] == "oauth:"@[5]);
                    assert(false);
                }
            }
        }
        let token = if has_marker {
            oauth_token.as_str().substring_char(6, n).to_owned()
        } else {
            oauth_token
        };
        Auth { client_id, oauth_token: token }
    }

    pub fn client_id(&self) -> (r: &String)
        ensures
            r@ == self.spec_client_id(),
    {
        &self.client_id
    }

    pub fn oauth_token(&self) -> (r: &String)
        ensures
            r@ == self.spec_oauth_token(),
    {
        &self.oauth_token
    }
}

// ---------- broadcast listings ----------

/// One live broadcast listing: the channel's login and display names, the
/// game, the title, and the viewer count when known.
pub struct TwitchStream {
    user_login: String,
    user_name: String,
    game_name: String,
    title: String,
    viewer_count: Option<usize>,
}

pub struct TwitchStreamView {
    pub user_login: Seq<char>,
    pub user_name: Seq<char>,
    pub game_name: Seq<char>,
    pub title: Seq<char>,
    pub viewer_count: Option<usize>,
}

impl View for TwitchStream {
    type V = TwitchStreamView;

    closed spec fn view(&self) -> TwitchStreamView {
        TwitchStreamView {
            user_login: self.user_login@,
            user_name: self.user_name@,
            game_name: self.game_name@,
            title: self.title@,
            viewer_count: self.viewer_count,
        }
    }
}

/// What trimming the title relies on: the result depends on the
/// characters alone.
pub uninterp spec fn trimmed(s: Seq<char>) -> Seq<char>;

/// Relies on str::trim: removes leading and trailing whitespace; the
/// result depends on the characters alone.
#[verifier::external_body]
fn trim_str(s: &str) -> (r: String)
    ensures
        r@ == trimmed(s@),
{
    s.trim().to_owned()
}

/// The rendered listing: the display name in green, the login handle, the
/// game in blue when present, the viewer count in parentheses when known,
/// and the trimmed title on its own line when non-empty.
pub open spec fn rendered_stream(v: TwitchStreamView) -> Seq<char> {
    styled_text(v.user_name, Some(PaintColor::Green), false, false) + " /"@ + v.user_login + (
    if v.game_name.len() > 0 {
        " - "@ + styled_text(v.game_name, Some(PaintColor::Blue), false, false)
    } else {
        Seq::empty()
    }) + (match v.viewer_count {
        Some(n) => " ("@ + dec_str(n as nat) + " viewers)"@,
        None => Seq::empty(),
    }) + (if trimmed(v.title).len() > 0 {
        "\n"@ + trimmed(v.title)
    } else {
        Seq::empty()
    })
}

impl TwitchStream {
    pub fn new(
        user_login: String,
        user_name: String,
        game_name: String,
        title: String,
        viewer_count: Option<usize>,
    ) -> (r: TwitchStream)
        ensures
            r@ == (TwitchStreamView {
                user_login: user_login@,
                user_name: user_name@,
                game_name: game_name@,
                title: title@,
                viewer_count: viewer_count,
            }),
    {
        TwitchStream { user_login, user_name, game_name, title, viewer_count }
    }

    /// Renders the listing as styled text, per [`rendered_stream`].
    pub fn render(&self) -> (r: String)
        ensures
            r@ == rendered_stream(self@),
    {
        let mut out = paint_styled(
            self.user_name.as_str(),
            TextStyle { color: Some(PaintColor::Green), italic: false, underline: false },
        );
        out.append(" /");
        out.append(self.user_login.as_str());
        if !self.game_name.as_str().is_empty() {
            out.append(" - ");
            let g = paint_styled(
                self.game_name.as_str(),
                TextStyle { color: Some(PaintColor::Blue), italic: false, underline: false },
            );
            out.append(g.as_str());
        }
        match &self.viewer_count {
            Some(n) => {
                out.append(" (");
                let d = fmt_u64(*n as u64);
                out.append(d.as_str());
                out.append(" viewers)");
            },
            None => {},
        }
        let t = trim_str(self.title.as_str());
        if !t.as_str().is_empty() {
            out.append("\n");
            out.append(t.as_str());
        }
        proof {
            assert(out@ =~= rendered_stream(self@));
        }
        out
    }
}

} // verus!

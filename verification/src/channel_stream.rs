//! The channel message stream's core: a per-session fallback-color cache
//! and the pull-step state machine that turns raw source events into
//! structured messages — skipping unparsable frames, attaching a cached
//! fallback color where a frame carried none, and ending for good once
//! the source ends or errors.
use vstd::prelude::*;

use std::collections::HashMap;

use crate::message::{
    init_acc, palette, scan_tags, spec_parse, FallbackColor, MessageView, ParseErrorView, RawFrame,
    RawFrameView, TwitchMessage, NUM_FALLBACK_COLORS,
};

verus! {

/// Relies on rand's `thread_rng` and `Rng::gen_range`: the draw lies below
/// the bound; nothing further is assumed of a random value.
#[verifier::external_body]
fn sample_index(bound: u8) -> (r: u8)
    requires
        bound > 0,
    ensures
        r < bound,
{
    rand::Rng::gen_range(&mut rand::thread_rng(), 0..bound)
}

/// The per-session fallback-color cache: user identity to the palette
/// index drawn when that user was first seen without an explicit color.
pub struct ColorCache {
    map: HashMap<u64, FallbackColor>,
}

impl View for ColorCache {
    type V = Map<u64, FallbackColor>;

    closed spec fn view(&self) -> Map<u64, FallbackColor> {
        self.map@
    }
}

/// The relation one lookup establishes: the user is cached afterwards, an
/// already cached user keeps their color, and the returned index points
/// into the palette.
pub open spec fn color_for_post(
    pre: Map<u64, FallbackColor>,
    post: Map<u64, FallbackColor>,
    u: u64,
    c: FallbackColor,
) -> bool {
    &&& post == pre.insert(u, c)
    &&& (pre.contains_key(u) ==> c == pre[u])
    &&& c.0 < NUM_FALLBACK_COLORS
}

impl ColorCache {
    /// Every cached index points into the palette.
    pub open spec fn wf(&self) -> bool {
        forall|u: u64| self@.contains_key(u) ==> (#[trigger] self@[u]).0 < NUM_FALLBACK_COLORS
    }

    /// Opens an empty cache; nothing is pre-seeded or persisted.
    pub fn new() -> (r: ColorCache)
        ensures
            r@ == Map::<u64, FallbackColor>::empty(),
            r.wf(),
    {
        ColorCache { map: HashMap::new() }
    }

    /// Returns the cached fallback color for `u`, drawing and storing a
    /// fresh uniform palette index the first time `u` is seen.
    pub fn color_for(&mut self, u: u64) -> (c: FallbackColor)
        requires
            old(self).wf(),
        ensures
            final(self).wf(),
            color_for_post(old(self)@, final(self)@, u, c),
    {
        broadcast use vstd::std_specs::hash::group_hash_axioms;

        match self.map.get(&u) {
            Some(c0) => {
                let c = *c0;
                proof {
                    assert(old(self)@.insert(u, c) =~= old(self)@);
                }
                c
            },
            None => {
                let idx = sample_index(NUM_FALLBACK_COLORS);
                let c = FallbackColor(idx);
                self.map.insert(u, c);
                proof {
                    assert forall|x: u64| self@.contains_key(x) implies (#[trigger] self@[x]).0
                        < NUM_FALLBACK_COLORS by {
                        if x != u {
                            assert(old(self)@.contains_key(x));
                        }
                    }
                }
                c
            },
        }
    }
}

/// Law: within one cache, two sequential lookups for the same user return
/// the identical color.
pub proof fn lemma_color_cache_idempotent(
    m0: Map<u64, FallbackColor>,
    m1: Map<u64, FallbackColor>,
    m2: Map<u64, FallbackColor>,
    u: u64,
    c1: FallbackColor,
    c2: FallbackColor,
)
    requires
        color_for_post(m0, m1, u, c1),
        color_for_post(m1, m2, u, c2),
    ensures
        c1 == c2,
{
    assert(m1.contains_key(u));
    assert(m1[u] == c1);
}

/// One event from the underlying raw frame source: a received frame, a
/// source error, or the source's clean end.
pub enum SourceEvent {
    Frame(RawFrame),
    SourceError,
    SourceClosed,
}

pub enum SourceEventView {
    Frame(RawFrameView),
    SourceError,
    SourceClosed,
}

impl View for SourceEvent {
    type V = SourceEventView;

    open spec fn view(&self) -> SourceEventView {
        match self {
            SourceEvent::Frame(f) => SourceEventView::Frame(f@),
            SourceEvent::SourceError => SourceEventView::SourceError,
            SourceEvent::SourceClosed => SourceEventView::SourceClosed,
        }
    }
}

/// What one pull step decides: yield the next message, skip a bad frame
/// and pull again, or end the stream permanently.
pub enum PollStep {
    Yield(TwitchMessage),
    Skip,
    Done,
}

pub enum PollStepView {
    Yield(MessageView),
    Skip,
    Done,
}

impl View for PollStep {
    type V = PollStepView;

    open spec fn view(&self) -> PollStepView {
        match self {
            PollStep::Yield(m) => PollStepView::Yield(m@),
            PollStep::Skip => PollStepView::Skip,
            PollStep::Done => PollStepView::Done,
        }
    }
}

/// How one pull step may change the stream: once ended it stays ended and
/// answers `Done`; a source error or end ends it; an unparsable frame is
/// skipped with nothing else changed; a parsed frame is yielded, with the
/// cache consulted — and possibly extended — exactly when the frame
/// carried no color.
pub open spec fn stream_step(
    pre_done: bool,
    pre_cache: Map<u64, FallbackColor>,
    ev: SourceEventView,
    post_done: bool,
    post_cache: Map<u64, FallbackColor>,
    r: PollStepView,
) -> bool {
    if pre_done {
        r is Done && post_done && post_cache == pre_cache
    } else {
        match ev {
            SourceEventView::SourceError => r is Done && post_done && post_cache == pre_cache,
            SourceEventView::SourceClosed => r is Done && post_done && post_cache == pre_cache,
            SourceEventView::Frame(f) => !post_done && match spec_parse(f) {
                Err(_) => r is Skip && post_cache == pre_cache,
                Ok(m) => r matches PollStepView::Yield(mv) && match m.color {
                    Some(_) => mv == m && post_cache == pre_cache,
                    None => exists|fb: FallbackColor|
                        #[trigger] color_for_post(pre_cache, post_cache, m.user_id, fb) && mv == (
                        MessageView { color: Some(palette(fb.0 as int)), ..m }),
                },
            },
        }
    }
}

/// The channel message stream's state: its exclusively owned color cache
/// and whether the underlying source has ended.
pub struct TwitchChannelStream {
    cache: ColorCache,
    done: bool,
}

impl TwitchChannelStream {
    pub closed spec fn wf(&self) -> bool {
        self.cache.wf()
    }

    pub closed spec fn spec_done(&self) -> bool {
        self.done
    }

    pub closed spec fn cache_view(&self) -> Map<u64, FallbackColor> {
        self.cache@
    }

    /// Opens a fresh stream state: nothing cached, source alive.
    pub fn new() -> (r: TwitchChannelStream)
        ensures
            r.wf(),
            !r.spec_done(),
            r.cache_view() == Map::<u64, FallbackColor>::empty(),
    {
        TwitchChannelStream { cache: ColorCache::new(), done: false }
    }

    /// Whether the stream has permanently ended.
    pub fn is_done(&self) -> (r: bool)
        ensures
            r == self.spec_done(),
    {
        self.done
    }

    /// One pull step over the next source event, per [`stream_step`].
    pub fn on_event(&mut self, ev: SourceEvent) -> (r: PollStep)
        requires
            old(self).wf(),
        ensures
            final(self).wf(),
            stream_step(
                old(self).spec_done(),
                old(self).cache_view(),
                ev@,
                final(self).spec_done(),
                final(self).cache_view(),
                r@,
            ),
    {
        if self.done {
            return PollStep::Done;
        }
        match ev {
            SourceEvent::SourceError => {
                self.done = true;
                PollStep::Done
            },
            SourceEvent::SourceClosed => {
                self.done = true;
                PollStep::Done
            },
            SourceEvent::Frame(f) => {
                match TwitchMessage::parse(&f) {
                    Err(_) => PollStep::Skip,
                    Ok(m) => {
                        let mut m = m;
                        if m.color().is_none() {
                            let uid = m.user_id();
                            let fb = self.cache.color_for(uid);
                            let c = fb.to_color();
                            m.set_color(c);
                            proof {
                                let ghost mv0 = spec_parse(f@)->Ok_0;
                                assert(color_for_post(
                                    old(self).cache_view(),
                                    self.cache@,
                                    mv0.user_id,
                                    fb,
                                ));
                                assert(m@ == (MessageView {
                                    color: Some(palette(fb.0 as int)),
                                    ..mv0
                                }));
                            }
                            PollStep::Yield(m)
                        } else {
                            PollStep::Yield(m)
                        }
                    },
                }
            },
        }
    }
}

/// Law: a frame whose tag block lacks a `user-id` tag fails with exactly
/// `MissingValue("user-id")`, and the stream only skips it: nothing is
/// yielded, nothing cached, and the stream does not end.
pub proof fn lemma_missing_user_id_filtered(
    pre_cache: Map<u64, FallbackColor>,
    post_done: bool,
    post_cache: Map<u64, FallbackColor>,
    f: RawFrameView,
    r: PollStepView,
)
    requires
        f.command is ChannelPost,
        f.source_nick is Some,
        f.tags is Some,
        scan_tags(f.tags.unwrap(), init_acc()) matches Ok(acc) && acc.user_id is None,
        stream_step(false, pre_cache, SourceEventView::Frame(f), post_done, post_cache, r),
    ensures
        spec_parse(f) == Err::<MessageView, ParseErrorView>(
            ParseErrorView::MissingValue("user-id"@),
        ),
        r is Skip,
        !post_done,
        post_cache == pre_cache,
{
}

/// Law: a frame whose command is not a channel post fails parsing and is
/// skipped: not surfaced as output and not fatal to the stream.
pub proof fn lemma_non_post_filtered(
    pre_cache: Map<u64, FallbackColor>,
    post_done: bool,
    post_cache: Map<u64, FallbackColor>,
    f: RawFrameView,
    r: PollStepView,
)
    requires
        f.command is Other,
        stream_step(false, pre_cache, SourceEventView::Frame(f), post_done, post_cache, r),
    ensures
        spec_parse(f) == Err::<MessageView, ParseErrorView>(
            ParseErrorView::InvalidValue("not a PRIVMSG"@),
        ),
        r is Skip,
        !post_done,
        post_cache == pre_cache,
{
}

/// Law: a source error or clean end — and any step taken after the stream
/// has ended — answers `Done`, leaves the cache untouched, and the stream
/// stays ended.
pub proof fn lemma_stream_stays_done(
    pre_done: bool,
    pre_cache: Map<u64, FallbackColor>,
    ev: SourceEventView,
    post_done: bool,
    post_cache: Map<u64, FallbackColor>,
    r: PollStepView,
)
    requires
        stream_step(pre_done, pre_cache, ev, post_done, post_cache, r),
        pre_done || ev is SourceError || ev is SourceClosed,
    ensures
        r is Done,
        post_done,
        post_cache == pre_cache,
{
}

/// Law: along any chain of steps whose first state is already ended, no
/// step ever yields a message — the stream produces no further items.
pub proof fn lemma_dead_stream_yields_nothing(
    dones: Seq<bool>,
    caches: Seq<Map<u64, FallbackColor>>,
    evs: Seq<SourceEventView>,
    rs: Seq<PollStepView>,
)
    requires
        dones.len() == evs.len() + 1,
        caches.len() == evs.len() + 1,
        rs.len() == evs.len(),
        dones[0],
        forall|i: int|
            0 <= i < evs.len() ==> #[trigger] stream_step(
                dones[i],
                caches[i],
                evs[i],
                dones[i + 1],
                caches[i + 1],
                rs[i],
            ),
    ensures
        forall|i: int| 0 <= i < rs.len() ==> (#[trigger] rs[i]) is Done,
{
    assert forall|i: int| 0 <= i < rs.len() implies (#[trigger] rs[i]) is Done by {
        lemma_done_at(dones, caches, evs, rs, i);
    }
}

proof fn lemma_done_at(
    dones: Seq<bool>,
    caches: Seq<Map<u64, FallbackColor>>,
    evs: Seq<SourceEventView>,
    rs: Seq<PollStepView>,
    i: int,
)
    requires
        dones.len() == evs.len() + 1,
        caches.len() == evs.len() + 1,
        rs.len() == evs.len(),
        dones[0],
        forall|j: int|
            0 <= j < evs.len() ==> #[trigger] stream_step(
                dones[j],
                caches[j],
                evs[j],
                dones[j + 1],
                caches[j + 1],
                rs[j],
            ),
        0 <= i < rs.len(),
    ensures
        dones[i],
        rs[i] is Done,
    decreases i,
{
    if i > 0 {
        lemma_done_at(dones, caches, evs, rs, i - 1);
        let j = i - 1;
        assert(stream_step(dones[j], caches[j], evs[j], dones[j + 1], caches[j + 1], rs[j]));
    }
    assert(stream_step(dones[i], caches[i], evs[i], dones[i + 1], caches[i + 1], rs[i]));
}

} // verus!

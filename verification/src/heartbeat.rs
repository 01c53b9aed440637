//! The heartbeat-interleaved output stream's decision step: batch every
//! immediately available message into one rendered chunk, end at once when
//! the source ended during the drain, and fill genuine idle periods with a
//! keep-alive chunk when the timer has ticked.
use vstd::prelude::*;

use crate::message::{MessageView, TwitchMessage};
use crate::render::rendered_message;

verus! {

/// What one output pull decides: a rendered batch, one keep-alive filler
/// chunk, the permanent end of the output stream, or waiting for the next
/// message or tick.
pub enum ChunkStep {
    Chunk(String),
    Filler(String),
    End,
    Wait,
}

/// The rendered batch: each drained message rendered and followed by a
/// line separator, in arrival order.
pub open spec fn batch_text(ms: Seq<MessageView>) -> Seq<char>
    decreases ms.len(),
{
    if ms.len() == 0 {
        Seq::empty()
    } else {
        rendered_message(ms[0]) + "\n"@ + batch_text(ms.drop_first())
    }
}

/// The keep-alive filler: a space then a backspace, visually a no-op.
pub open spec fn filler_text() -> Seq<char> {
    " \u{8}"@
}

/// Decides the next output chunk from one drain of the message stream.
/// If the source ended during the drain the output stream ends at once,
/// the buffered batch discarded. Otherwise a non-empty batch is the
/// chunk; an idle drain produces exactly one filler chunk when the timer
/// has ticked, and waits otherwise.
pub fn next_chunk(msgs: &Vec<TwitchMessage>, ended: bool, timer_ticked: bool) -> (r: ChunkStep)
    ensures
        ended ==> r is End,
        !ended && msgs.deep_view().len() > 0 ==> (r matches ChunkStep::Chunk(s) && s@
            == batch_text(msgs.deep_view())),
        !ended && msgs.deep_view().len() == 0 && timer_ticked ==> (r matches ChunkStep::Filler(s)
            && s@ == filler_text()),
        !ended && msgs.deep_view().len() == 0 && !timer_ticked ==> r is Wait,
{
    if ended {
        return ChunkStep::End;
    }
    let ghost dv = msgs.deep_view();
    if msgs.len() > 0 {
        let mut out = String::new();
        let mut i: usize = 0;
        proof {
            assert(dv.skip(0) =~= dv);
            assert(out@ + batch_text(dv) =~= batch_text(dv));
        }
        while i < msgs.len()
            invariant
                dv == msgs.deep_view(),
                msgs@.len() == dv.len(),
                i <= dv.len(),
                batch_text(dv) == out@ + batch_text(dv.skip(i as int)),
            decreases dv.len() - i,
        {
            proof {
                assert(dv.skip(i as int)[0] == dv[i as int]);
                assert(dv.skip(i as int).drop_first() =~= dv.skip(i + 1));
            }
            let m = &msgs[i];
            let line = m.render();
            out.append(line.as_str());
            out.append("\n");
            i += 1;
        }
        proof {
            assert(dv.skip(dv.len() as int) =~= Seq::<MessageView>::empty());
            assert(out@ + batch_text(dv.skip(dv.len() as int)) =~= out@);
        }
        ChunkStep::Chunk(out)
    } else if timer_ticked {
        ChunkStep::Filler(" \u{8}".to_owned())
    } else {
        ChunkStep::Wait
    }
}

} // verus!

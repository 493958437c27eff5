use vstd::prelude::*;

use crate::delay::DelayPolicy;
use crate::scan::{clear_at, clear_byte, marker_free, CARRIAGE_RETURN, LINE_FEED};
use crate::timeline::{
    byte_events, flatten, joins_cleanly, lemma_render_plain, lemma_render_split, pause, render,
    transcript, written, Action, Event,
};

verus! {

/// The clear-screen sequence as a value.
pub open spec fn clear_seq() -> Seq<u8> {
    seq![clear_byte(0), clear_byte(1), clear_byte(2), clear_byte(3)]
}

/// Input without any marker is replayed as exactly its bytes and a closing
/// line feed, with no pause anywhere.
pub proof fn lemma_plain_input_passes_through(p: DelayPolicy, s: Seq<u8>)
    requires
        marker_free(s, 0, s.len() as int),
    ensures
        transcript(p, s) == byte_events(s.push(LINE_FEED)),
{
    lemma_render_plain(p, s);
    assert(byte_events(s.push(LINE_FEED)) =~= byte_events(s) + seq![Event::Byte(LINE_FEED)]);
}

/// A clear-screen sequence becomes exactly one clear-screen pause, whatever
/// precedes and follows it.
pub proof fn lemma_clear_screen_is_one_pause(p: DelayPolicy, x: Seq<u8>, y: Seq<u8>)
    ensures
        render(p, x + clear_seq() + y) == render(p, x) + pause(p.clear_screen_ms) + render(p, y),
{
    let c = clear_seq() + y;
    assert(x + clear_seq() + y =~= x + c);
    assert forall|i: int| x.len() - 3 <= i < x.len() implies !#[trigger] clear_at(x + c, i) by {
        assert((x + c)[x.len() as int] == clear_byte(0));
    }
    assert(joins_cleanly(x, c));
    lemma_render_split(p, x, c);
    assert(clear_at(c, 0));
    assert(c.subrange(4, c.len() as int) =~= y);
    assert(render(p, x) + render(p, c) =~= render(p, x) + pause(p.clear_screen_ms) + render(p, y));
}

/// Cut between two chunks after one, two or three of its bytes, a
/// clear-screen sequence is still replayed as one pause and none of its
/// bytes is written.
pub proof fn lemma_clear_screen_split_across_chunks(
    p: DelayPolicy,
    x: Seq<u8>,
    y: Seq<u8>,
    k: int,
)
    requires
        1 <= k <= 3,
    ensures
        transcript(
            p,
            (x + clear_seq().subrange(0, k)) + (clear_seq().subrange(k, 4) + y),
        ) == render(p, x) + pause(p.clear_screen_ms) + render(p, y) + seq![Event::Byte(LINE_FEED)],
{
    assert((x + clear_seq().subrange(0, k)) + (clear_seq().subrange(k, 4) + y) =~= x + clear_seq()
        + y);
    lemma_clear_screen_is_one_pause(p, x, y);
}

proof fn lemma_written_add(a: Seq<Event>, b: Seq<Event>)
    ensures
        written(a + b) == written(a) + written(b),
    decreases b.len(),
{
    if b.len() == 0 {
        assert(a + b =~= a);
        assert(written(a) + written(b) =~= written(a));
    } else {
        assert((a + b).drop_last() =~= a + b.drop_last());
        lemma_written_add(a, b.drop_last());
        match b.last() {
            Event::Byte(v) => {
                assert(written(a) + written(b) =~= (written(a) + written(b.drop_last())).push(v));
            },
            Event::Pause(_) => {},
        }
    }
}

proof fn lemma_written_render(p: DelayPolicy, s: Seq<u8>)
    requires
        forall|i: int| !#[trigger] clear_at(s, i),
    ensures
        written(render(p, s)) == s,
    decreases s.len(),
{
    if s.len() > 0 {
        let t = s.drop_first();
        assert forall|i: int| !#[trigger] clear_at(t, i) by {
            assert(!clear_at(s, i + 1));
            if clear_at(t, i) {
                assert(t[i] == s[i + 1] && t[i + 1] == s[i + 2] && t[i + 2] == s[i + 3] && t[i
                    + 3] == s[i + 4]);
            }
        }
        lemma_written_render(p, t);
        assert(!clear_at(s, 0));
        let head: Seq<Event> = if s[0] == LINE_FEED {
            seq![Event::Byte(LINE_FEED)] + pause(p.new_line_ms)
        } else if s[0] == CARRIAGE_RETURN {
            pause(p.carriage_return_ms) + seq![Event::Byte(CARRIAGE_RETURN)]
        } else {
            seq![Event::Byte(s[0])]
        };
        assert(render(p, s) == head + render(p, t));
        lemma_written_add(head, render(p, t));
        reveal_with_fuel(written, 3);
        assert(written(head) =~= seq![s[0]]) by {
            assert(seq![Event::Byte(LINE_FEED)] + pause(p.new_line_ms) == if p.new_line_ms == 0 {
                seq![Event::Byte(LINE_FEED)]
            } else {
                seq![Event::Byte(LINE_FEED), Event::Pause(p.new_line_ms)]
            });
            assert(pause(p.carriage_return_ms) + seq![Event::Byte(CARRIAGE_RETURN)] == if p.carriage_return_ms == 0 {
                seq![Event::Byte(CARRIAGE_RETURN)]
            } else {
                seq![Event::Pause(p.carriage_return_ms), Event::Byte(CARRIAGE_RETURN)]
            });
        }
        assert(seq![s[0]] + t =~= s);
    }
}

/// Dropping the timing from a replay gives back the input and the closing
/// line feed, for every input without a clear-screen sequence (the one
/// marker that replay consumes).
pub proof fn lemma_round_trip_without_clear_screen(p: DelayPolicy, s: Seq<u8>)
    requires
        forall|i: int| !#[trigger] clear_at(s, i),
    ensures
        written(transcript(p, s)) == s.push(LINE_FEED),
{
    lemma_written_render(p, s);
    lemma_written_add(render(p, s), seq![Event::Byte(LINE_FEED)]);
    reveal_with_fuel(written, 2);
    assert(written(seq![Event::Byte(LINE_FEED)]) =~= seq![LINE_FEED]);
    assert(s + seq![LINE_FEED] =~= s.push(LINE_FEED));
}

/// Two replays of the same input under the same policy produce the same
/// bytes and the same pauses in the same order, however the input was cut
/// into chunks.
pub proof fn lemma_replays_agree(p: DelayPolicy, s: Seq<u8>, a1: Seq<Action>, a2: Seq<Action>)
    requires
        flatten(a1) == transcript(p, s),
        flatten(a2) == transcript(p, s),
    ensures
        flatten(a1) == flatten(a2),
        written(flatten(a1)) == written(flatten(a2)),
{
}

} // verus!

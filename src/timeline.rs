use vstd::prelude::*;

use crate::delay::DelayPolicy;
use crate::scan::{clear_at, clear_byte, marker_at, marker_free, CARRIAGE_RETURN, LINE_FEED};

verus! {

/// One thing the replay does: write bytes (and flush them at once), or wait.
#[derive(Debug, PartialEq, Eq)]
pub enum Action {
    Write(Vec<u8>),
    Sleep(u32),
}

/// What an action is, as a mathematical value.
pub enum Step {
    Write(Seq<u8>),
    Sleep(u32),
}

/// An observable event of the replay: one byte reaches the output, or a
/// pause of some milliseconds passes.
pub enum Event {
    Byte(u8),
    Pause(u32),
}

impl View for Action {
    type V = Step;

    open spec fn view(&self) -> Step {
        match self {
            Action::Write(v) => Step::Write(v@),
            Action::Sleep(ms) => Step::Sleep(*ms),
        }
    }
}

pub open spec fn steps(acts: Seq<Action>) -> Seq<Step> {
    acts.map_values(|a: Action| a@)
}

/// Each byte of `s` in order, as output events.
pub open spec fn byte_events(s: Seq<u8>) -> Seq<Event> {
    s.map_values(|b: u8| Event::Byte(b))
}

/// A pause of `ms` milliseconds; a zero pause is no event at all.
pub open spec fn pause(ms: u32) -> Seq<Event> {
    if ms == 0 {
        seq![]
    } else {
        seq![Event::Pause(ms)]
    }
}

pub open spec fn step_events(s: Step) -> Seq<Event> {
    match s {
        Step::Write(b) => byte_events(b),
        Step::Sleep(ms) => seq![Event::Pause(ms)],
    }
}

/// The events that carrying out `acts` in order produces.
pub open spec fn flatten(acts: Seq<Action>) -> Seq<Event>
    decreases acts.len(),
{
    if acts.len() == 0 {
        seq![]
    } else {
        flatten(acts.drop_last()) + step_events(acts.last()@)
    }
}

/// The paced rendering of a byte stream. A line feed is written and then
/// waited on; before a carriage return there is a wait, then it is written;
/// a clear-screen sequence is replaced by its wait; any other byte is
/// written as it is.
pub open spec fn render(p: DelayPolicy, s: Seq<u8>) -> Seq<Event>
    decreases s.len(),
{
    if s.len() == 0 {
        seq![]
    } else if s[0] == LINE_FEED {
        seq![Event::Byte(LINE_FEED)] + pause(p.new_line_ms) + render(p, s.drop_first())
    } else if s[0] == CARRIAGE_RETURN {
        pause(p.carriage_return_ms) + seq![Event::Byte(CARRIAGE_RETURN)] + render(
            p,
            s.drop_first(),
        )
    } else if clear_at(s, 0) {
        pause(p.clear_screen_ms) + render(p, s.subrange(4, s.len() as int))
    } else {
        seq![Event::Byte(s[0])] + render(p, s.drop_first())
    }
}

/// The whole replay of an input stream: its rendering and a closing line feed.
pub open spec fn transcript(p: DelayPolicy, s: Seq<u8>) -> Seq<Event> {
    render(p, s) + seq![Event::Byte(LINE_FEED)]
}

/// The bytes that reach the output, timing left out.
pub open spec fn written(evs: Seq<Event>) -> Seq<u8>
    decreases evs.len(),
{
    if evs.len() == 0 {
        seq![]
    } else {
        match evs.last() {
            Event::Byte(b) => written(evs.drop_last()).push(b),
            Event::Pause(_) => written(evs.drop_last()),
        }
    }
}

/// No clear-screen sequence can start in the last three bytes of `a` and
/// run on into `b`.
pub open spec fn joins_cleanly(a: Seq<u8>, b: Seq<u8>) -> bool {
    forall|i: int| a.len() - 3 <= i < a.len() ==> !#[trigger] clear_at(a + b, i)
}

/// The events that carrying out `ss` in order produces.
pub open spec fn flatten_steps(ss: Seq<Step>) -> Seq<Event>
    decreases ss.len(),
{
    if ss.len() == 0 {
        seq![]
    } else {
        flatten_steps(ss.drop_last()) + step_events(ss.last())
    }
}

pub proof fn lemma_flatten_steps(acts: Seq<Action>)
    ensures
        flatten(acts) == flatten_steps(steps(acts)),
    decreases acts.len(),
{
    if acts.len() > 0 {
        assert(steps(acts).drop_last() =~= steps(acts.drop_last()));
        lemma_flatten_steps(acts.drop_last());
    }
}

pub proof fn lemma_flatten_append(a: Seq<Action>, b: Seq<Action>)
    ensures
        flatten(a + b) == flatten(a) + flatten(b),
    decreases b.len(),
{
    if b.len() == 0 {
        assert(a + b =~= a);
        assert(flatten(a) + flatten(b) =~= flatten(a));
    } else {
        assert((a + b).drop_last() =~= a + b.drop_last());
        lemma_flatten_append(a, b.drop_last());
        assert(flatten(a) + flatten(b) =~= flatten(a) + flatten(b.drop_last()) + step_events(
            b.last()@,
        ));
    }
}

pub proof fn lemma_flatten_push(acts: Seq<Action>, a: Action)
    ensures
        flatten(acts.push(a)) == flatten(acts) + step_events(a@),
{
    assert(acts.push(a).drop_last() =~= acts);
}

pub proof fn lemma_bytes_add(a: Seq<u8>, b: Seq<u8>)
    ensures
        byte_events(a + b) == byte_events(a) + byte_events(b),
{
    assert(byte_events(a + b) =~= byte_events(a) + byte_events(b));
}

/// A stream without markers renders as its bytes.
pub proof fn lemma_render_plain(p: DelayPolicy, s: Seq<u8>)
    requires
        marker_free(s, 0, s.len() as int),
    ensures
        render(p, s) == byte_events(s),
    decreases s.len(),
{
    if s.len() > 0 {
        assert(!marker_at(s, 0));
        let t = s.drop_first();
        assert forall|i: int| 0 <= i < t.len() implies !#[trigger] marker_at(t, i) by {
            assert(!marker_at(s, i + 1));
        }
        lemma_render_plain(p, t);
        assert(byte_events(s) =~= seq![Event::Byte(s[0])] + byte_events(t));
    }
}

/// Rendering splits at a cut that no clear-screen sequence crosses.
pub proof fn lemma_render_split(p: DelayPolicy, a: Seq<u8>, b: Seq<u8>)
    requires
        joins_cleanly(a, b),
    ensures
        render(p, a + b) == render(p, a) + render(p, b),
    decreases a.len(),
{
    let s = a + b;
    if a.len() == 0 {
        assert(s =~= b);
        assert(render(p, a) + render(p, b) =~= render(p, b));
    } else {
        assert(s[0] == a[0]);
        if s[0] == LINE_FEED || s[0] == CARRIAGE_RETURN || !clear_at(s, 0) {
            let t = a.drop_first();
            assert(s.drop_first() =~= t + b);
            assert(!clear_at(a, 0)) by {
                if clear_at(a, 0) {
                    assert(s[1] == a[1] && s[2] == a[2] && s[3] == a[3]);
                }
            }
            assert forall|i: int| t.len() - 3 <= i < t.len() implies !#[trigger] clear_at(
                t + b,
                i,
            ) by {
                assert(!clear_at(s, i + 1));
                if clear_at(t + b, i) {
                    assert((t + b)[i] == s[i + 1]);
                    assert((t + b)[i + 1] == s[i + 2]);
                    assert((t + b)[i + 2] == s[i + 3]);
                    assert((t + b)[i + 3] == s[i + 4]);
                }
            }
            lemma_render_split(p, t, b);
            if s[0] == LINE_FEED {
                assert(render(p, s) =~= render(p, a) + render(p, b));
            } else if s[0] == CARRIAGE_RETURN {
                assert(render(p, s) =~= render(p, a) + render(p, b));
            } else {
                assert(render(p, s) =~= render(p, a) + render(p, b));
            }
        } else {
            assert(a.len() >= 4) by {
                if a.len() < 4 {
                    assert(clear_at(s, 0));
                    assert(clear_at(a + b, a.len() - a.len()));
                    if a.len() == 1 {
                        assert(clear_at(a + b, 0));
                    }
                }
            }
            assert(clear_at(a, 0)) by {
                assert(s[1] == a[1] && s[2] == a[2] && s[3] == a[3]);
            }
            let t = a.subrange(4, a.len() as int);
            assert(s.subrange(4, s.len() as int) =~= t + b);
            assert forall|i: int| t.len() - 3 <= i < t.len() implies !#[trigger] clear_at(
                t + b,
                i,
            ) by {
                assert(!clear_at(s, i + 4));
                if clear_at(t + b, i) {
                    assert((t + b)[i] == s[i + 4]);
                    assert((t + b)[i + 1] == s[i + 5]);
                    assert((t + b)[i + 2] == s[i + 6]);
                    assert((t + b)[i + 3] == s[i + 7]);
                }
            }
            lemma_render_split(p, t, b);
            assert(render(p, s) =~= render(p, a) + render(p, b));
        }
    }
}

} // verus!

use vstd::prelude::*;

use crate::buffer::{copy_range, ByteBuffer};
use crate::delay::{DelayKind, DelayPolicy};
use crate::scan::{
    clear_at, find_next, is_first_boundary, marker_at, marker_free, Boundary, BoundaryKind,
    LINE_FEED, LONGEST_MARKER,
};
use crate::timeline::{
    byte_events, flatten, joins_cleanly, lemma_bytes_add, lemma_flatten_push, lemma_render_plain,
    lemma_render_split, pause, render, transcript, Action, Event,
};

verus! {

/// Buffers beyond this many bytes without a marker are written out early.
pub const DEFAULT_OVERFLOW_THRESHOLD: usize = 8192;

/// What the overflow bound keeps of a marker-free buffer `s`: its last
/// three bytes when it is longer than both the threshold and three bytes,
/// all of it otherwise.
pub open spec fn overflow_kept(s: Seq<u8>, threshold: nat) -> Seq<u8> {
    if s.len() > threshold && s.len() > LONGEST_MARKER - 1 {
        s.subrange(s.len() - (LONGEST_MARKER - 1), s.len() as int)
    } else {
        s
    }
}

/// Appends a write of `b`, unless `b` is empty.
pub fn push_write(out: &mut Vec<Action>, b: Vec<u8>)
    ensures
        flatten(final(out)@) == flatten(old(out)@) + byte_events(b@),
{
    if b.len() == 0 {
        assert(byte_events(b@) =~= Seq::<Event>::empty());
        assert(flatten(out@) + byte_events(b@) =~= flatten(out@));
    } else {
        proof {
            lemma_flatten_push(out@, Action::Write(b));
        }
        out.push(Action::Write(b));
    }
}

/// Appends a wait of `ms`, unless it is zero.
pub fn push_sleep(out: &mut Vec<Action>, ms: u32)
    ensures
        flatten(final(out)@) == flatten(old(out)@) + pause(ms),
{
    if ms == 0 {
        assert(flatten(out@) + pause(ms) =~= flatten(out@));
    } else {
        proof {
            lemma_flatten_push(out@, Action::Sleep(ms));
        }
        out.push(Action::Sleep(ms));
    }
}

/// A prefix of a stream keeps the stream's freedom from markers.
proof fn lemma_prefix_marker_free(s: Seq<u8>, k: int)
    requires
        0 <= k <= s.len(),
        marker_free(s, 0, k),
    ensures
        marker_free(s.subrange(0, k), 0, k),
{
    let t = s.subrange(0, k);
    assert forall|i: int| 0 <= i < k implies !#[trigger] marker_at(t, i) by {
        assert(!marker_at(s, i));
        assert(t[i] == s[i]);
        if i + 4 <= k {
            assert(t[i + 1] == s[i + 1] && t[i + 2] == s[i + 2] && t[i + 3] == s[i + 3]);
        }
    }
}

/// The chunked replay engine: it takes input in chunks of any size and hands
/// back the writes and waits that replay them, holding back only what a
/// marker still to come may need.
pub struct ReplayEngine {
    policy: DelayPolicy,
    threshold: usize,
    buf: ByteBuffer,
}

impl ReplayEngine {
    pub closed spec fn policy(&self) -> DelayPolicy {
        self.policy
    }

    pub closed spec fn threshold(&self) -> nat {
        self.threshold as nat
    }

    /// The bytes read and not yet written.
    pub closed spec fn pending(&self) -> Seq<u8> {
        self.buf.pending()
    }

    /// Everything pending has been scanned and holds no complete marker.
    pub closed spec fn wf(&self) -> bool {
        &&& self.buf.wf()
        &&& self.buf.scan_start() == self.buf.pending().len()
    }

    pub fn new(policy: DelayPolicy, threshold: usize) -> (r: ReplayEngine)
        ensures
            r.wf(),
            r.policy() == policy,
            r.threshold() == threshold,
            r.pending() == Seq::<u8>::empty(),
    {
        ReplayEngine { policy, threshold, buf: ByteBuffer::new() }
    }

    pub fn policy_of(&self) -> (r: DelayPolicy)
        ensures
            r == self.policy(),
    {
        self.policy
    }

    pub fn threshold_of(&self) -> (r: usize)
        ensures
            r == self.threshold(),
    {
        self.threshold
    }

    /// Number of bytes held back.
    pub fn buffered(&self) -> (r: usize)
        requires
            self.wf(),
        ensures
            r == self.pending().len(),
    {
        self.buf.len()
    }

    /// Writes out everything up to and including the first marker, with the
    /// marker's wait.
    #[verifier::rlimit(40)]
    fn emit_boundary(&mut self, b: Boundary, out: &mut Vec<Action>)
        requires
            old(self).buf.wf(),
            is_first_boundary(old(self).buf.pending(), old(self).buf.scan_start() as int, b),
        ensures
            final(self).buf.wf(),
            final(self).policy == old(self).policy,
            final(self).threshold == old(self).threshold,
            final(self).buf.pending().len() < old(self).buf.pending().len(),
            final(self).buf.pending() == old(self).buf.pending().subrange(
                b.end as int,
                old(self).buf.pending().len() as int,
            ),
            forall|z: Seq<u8>|
                #![trigger render(old(self).policy, old(self).buf.pending() + z)]
                flatten(old(out)@) + render(old(self).policy, old(self).buf.pending() + z)
                    == flatten(final(out)@) + render(
                    old(self).policy,
                    final(self).buf.pending() + z,
                ),
    {
        let ghost s = self.buf.pending();
        let ghost p = self.policy;
        let ghost out0 = out@;
        let ghost st = b.start as int;
        let ghost en = b.end as int;
        let ghost pre = s.subrange(0, st);
        let ghost m = s.subrange(st, en);
        let ghost d = s.subrange(0, en);
        let ghost rest = s.subrange(en, s.len() as int);
        proof {
            assert(d =~= pre + m);
            assert forall|i: int| 0 <= i < st implies !#[trigger] marker_at(s, i) by {
                if i < self.buf.scan_start() {
                } else {
                    assert(marker_free(s, self.buf.scan_start() as int, st));
                }
            }
            lemma_prefix_marker_free(s, st);
            lemma_render_plain(p, pre);
            assert(joins_cleanly(pre, m)) by {
                assert((pre + m)[st] == s[st]);
            }
            lemma_render_split(p, pre, m);
            reveal_with_fuel(render, 2);
            assert forall|z: Seq<u8>| #[trigger]
                render(p, s + z) == render(p, d) + render(p, rest + z) by {
                assert(s + z =~= d + (rest + z));
                assert((d + (rest + z))[en - 1] == s[en - 1]);
                assert(joins_cleanly(d, rest + z));
                lemma_render_split(p, d, rest + z);
            }
        }
        match b.kind {
            BoundaryKind::NewLine => {
                let chunk = self.buf.drain_through(b.end);
                proof {
                    assert(m =~= seq![LINE_FEED]);
                    lemma_bytes_add(pre, m);
                    assert(byte_events(m) =~= seq![Event::Byte(LINE_FEED)]);
                    assert(render(p, m) =~= seq![Event::Byte(LINE_FEED)] + pause(p.new_line_ms));
                }
                push_write(out, chunk);
                push_sleep(out, self.policy.duration_for(DelayKind::NewLine));
                assert(render(p, d) =~= byte_events(d) + pause(p.new_line_ms));
            },
            BoundaryKind::CarriageReturn => {
                let head = self.buf.drain_through(b.start);
                let mark = self.buf.drain_through(1);
                assert(mark@ =~= m);
                assert(self.buf.pending() =~= rest);
                proof {
                    assert(byte_events(m) =~= seq![Event::Byte(m[0])]);
                    assert(render(p, m) =~= pause(p.carriage_return_ms) + byte_events(m));
                }
                push_write(out, head);
                push_sleep(out, self.policy.duration_for(DelayKind::CarriageReturn));
                push_write(out, mark);
                assert(render(p, d) =~= byte_events(pre) + pause(p.carriage_return_ms)
                    + byte_events(m));
            },
            BoundaryKind::ClearScreen => {
                let head = self.buf.drain_through(b.start);
                let _mark = self.buf.drain_through(4);
                assert(self.buf.pending() =~= rest);
                proof {
                    assert(clear_at(m, 0));
                    assert(m.subrange(4, 4) =~= Seq::<u8>::empty());
                    assert(render(p, m) =~= pause(p.clear_screen_ms));
                }
                push_write(out, head);
                push_sleep(out, self.policy.duration_for(DelayKind::ClearScreen));
                assert(render(p, d) =~= byte_events(pre) + pause(p.clear_screen_ms));
            },
        }
        assert(self.buf.pending() =~= rest);
        assert forall|z: Seq<u8>|
            #![trigger render(p, s + z)]
            flatten(out0) + render(p, s + z) == flatten(out@) + render(
                p,
                self.buf.pending() + z,
            ) by {
            assert(render(p, s + z) == render(p, d) + render(p, rest + z));
        }
    }

    /// Writes out all but the last three bytes when more than the threshold
    /// is pending; the three kept back may begin a clear-screen sequence.
    fn overflow_into(&mut self, out: &mut Vec<Action>)
        requires
            old(self).wf(),
        ensures
            final(self).wf(),
            final(self).policy == old(self).policy,
            final(self).threshold == old(self).threshold,
            forall|z: Seq<u8>|
                #![trigger render(old(self).policy, old(self).buf.pending() + z)]
                flatten(old(out)@) + render(old(self).policy, old(self).buf.pending() + z)
                    == flatten(final(out)@) + render(
                    old(self).policy,
                    final(self).buf.pending() + z,
                ),
            if old(self).buf.pending().len() > old(self).threshold && old(
                self,
            ).buf.pending().len() > LONGEST_MARKER - 1 {
                final(self).buf.pending() == old(self).buf.pending().subrange(
                    old(self).buf.pending().len() - (LONGEST_MARKER - 1),
                    old(self).buf.pending().len() as int,
                )
            } else {
                final(self).buf.pending() == old(self).buf.pending() && final(out)@ == old(out)@
            },
    {
        let ghost s = self.buf.pending();
        let ghost p = self.policy;
        let ghost out0 = out@;
        let n = self.buf.len();
        if n > self.threshold && n > LONGEST_MARKER - 1 {
            let k: usize = n - (LONGEST_MARKER - 1);
            let ghost d = s.subrange(0, k as int);
            let ghost rest = s.subrange(k as int, n as int);
            let head = self.buf.drain_through(k);
            self.buf.advance_scan(LONGEST_MARKER - 1);
            proof {
                lemma_prefix_marker_free(s, k as int);
                lemma_render_plain(p, d);
                assert forall|z: Seq<u8>| #[trigger]
                    render(p, s + z) == render(p, d) + render(p, rest + z) by {
                    assert(s + z =~= d + (rest + z));
                    assert forall|i: int| k - 3 <= i < k implies !#[trigger] clear_at(
                        d + (rest + z),
                        i,
                    ) by {
                        assert(!marker_at(s, i));
                        if clear_at(d + (rest + z), i) {
                            assert((d + (rest + z))[i] == s[i]);
                            assert((d + (rest + z))[i + 1] == s[i + 1]);
                            assert((d + (rest + z))[i + 2] == s[i + 2]);
                            assert((d + (rest + z))[i + 3] == s[i + 3]);
                        }
                    }
                    lemma_render_split(p, d, rest + z);
                }
            }
            push_write(out, head);
            assert(self.buf.pending() =~= rest);
            assert forall|z: Seq<u8>|
                #![trigger render(p, s + z)]
                flatten(out0) + render(p, s + z) == flatten(out@) + render(
                    p,
                    self.buf.pending() + z,
                ) by {
                assert(render(p, s + z) == render(p, d) + render(p, rest + z));
            }
        }
    }

    /// Writes out every marker in the buffer with its wait, then applies the
    /// overflow bound.
    fn process_into(&mut self, out: &mut Vec<Action>)
        requires
            old(self).buf.wf(),
        ensures
            final(self).wf(),
            final(self).policy == old(self).policy,
            final(self).threshold == old(self).threshold,
            forall|z: Seq<u8>|
                #![trigger render(old(self).policy, old(self).buf.pending() + z)]
                flatten(old(out)@) + render(old(self).policy, old(self).buf.pending() + z)
                    == flatten(final(out)@) + render(
                    old(self).policy,
                    final(self).buf.pending() + z,
                ),
            final(self).buf.pending().len() <= final(self).threshold
                || final(self).buf.pending().len() <= LONGEST_MARKER - 1,
            final(self).buf.pending().len() <= old(self).buf.pending().len(),
            final(self).buf.pending() == old(self).buf.pending().subrange(
                old(self).buf.pending().len() - final(self).buf.pending().len(),
                old(self).buf.pending().len() as int,
            ),
            marker_free(old(self).buf.pending(), 0, old(self).buf.pending().len() as int)
                ==> final(self).buf.pending() == overflow_kept(
                old(self).buf.pending(),
                old(self).threshold as nat,
            ),
    {
        let ghost s0 = self.buf.pending();
        let ghost p = self.policy;
        let ghost t = self.threshold;
        let ghost out0 = out@;
        loop
            invariant_except_break
                self.buf.wf(),
                self.policy == p,
                self.threshold == t,
                self.buf.pending().len() <= s0.len(),
                self.buf.pending() == s0.subrange(
                    s0.len() - self.buf.pending().len(),
                    s0.len() as int,
                ),
                marker_free(s0, 0, s0.len() as int) ==> self.buf.pending() == s0,
                forall|z: Seq<u8>|
                    #![trigger render(p, s0 + z)]
                    flatten(out0) + render(p, s0 + z) == flatten(out@) + render(
                        p,
                        self.buf.pending() + z,
                    ),
            ensures
                self.wf(),
                self.policy == p,
                self.threshold == t,
                forall|z: Seq<u8>|
                    #![trigger render(p, s0 + z)]
                    flatten(out0) + render(p, s0 + z) == flatten(out@) + render(
                        p,
                        self.buf.pending() + z,
                    ),
                self.buf.pending().len() <= t || self.buf.pending().len() <= LONGEST_MARKER - 1,
                self.buf.pending().len() <= s0.len(),
                self.buf.pending() == s0.subrange(
                    s0.len() - self.buf.pending().len(),
                    s0.len() as int,
                ),
                marker_free(s0, 0, s0.len() as int) ==> self.buf.pending() == overflow_kept(
                    s0,
                    t as nat,
                ),
            decreases self.buf.pending().len(),
        {
            let from = self.buf.safe_scan_start();
            let ghost cur = self.buf.pending();
            match find_next(self.buf.as_slice(), from) {
                Some(b) => {
                    proof {
                        if marker_free(s0, 0, s0.len() as int) {
                            assert(s0.subrange(0, s0.len() as int) =~= s0);
                            assert(!marker_free(s0, from as int, s0.len() as int)) by {
                                assert(marker_at(cur, b.start as int));
                            }
                        }
                    }
                    self.emit_boundary(b, out);
                    assert(self.buf.pending() =~= s0.subrange(
                        s0.len() - self.buf.pending().len(),
                        s0.len() as int,
                    ));
                },
                None => {
                    let n = self.buf.len();
                    self.buf.advance_scan(n);
                    self.overflow_into(out);
                    assert(self.buf.pending() =~= s0.subrange(
                        s0.len() - self.buf.pending().len(),
                        s0.len() as int,
                    ));
                    break ;
                },
            }
        }
    }

    /// Writes out everything pending, as it stands.
    fn flush_into(&mut self, out: &mut Vec<Action>)
        requires
            old(self).wf(),
        ensures
            final(self).wf(),
            final(self).policy == old(self).policy,
            final(self).threshold == old(self).threshold,
            final(self).buf.pending() == Seq::<u8>::empty(),
            flatten(final(out)@) == flatten(old(out)@) + render(
                old(self).policy,
                old(self).buf.pending(),
            ),
    {
        let ghost s = self.buf.pending();
        let n = self.buf.len();
        let all = self.buf.drain_through(n);
        proof {
            assert(all@ =~= s);
            lemma_render_plain(self.policy, s);
        }
        push_write(out, all);
        assert(self.buf.pending() =~= Seq::<u8>::empty());
    }

    /// Takes in a chunk of input and returns the writes and waits that are
    /// due. What stays pending is at most the threshold, or at most three
    /// bytes when the threshold is smaller.
    pub fn feed(&mut self, chunk: &[u8]) -> (acts: Vec<Action>)
        requires
            old(self).wf(),
            old(self).pending().len() + chunk@.len() <= usize::MAX,
        ensures
            final(self).wf(),
            final(self).policy() == old(self).policy(),
            final(self).threshold() == old(self).threshold(),
            forall|z: Seq<u8>|
                #![trigger render(old(self).policy(), old(self).pending() + chunk@ + z)]
                render(old(self).policy(), old(self).pending() + chunk@ + z) == flatten(acts@)
                    + render(old(self).policy(), final(self).pending() + z),
            final(self).pending().len() <= final(self).threshold() || final(self).pending().len()
                <= LONGEST_MARKER - 1,
            final(self).pending() == (old(self).pending() + chunk@).subrange(
                old(self).pending().len() + chunk@.len() - final(self).pending().len(),
                old(self).pending().len() + chunk@.len() as int,
            ),
            marker_free(
                old(self).pending() + chunk@,
                0,
                old(self).pending().len() + chunk@.len() as int,
            )
                ==> final(self).pending() == overflow_kept(
                old(self).pending() + chunk@,
                old(self).threshold(),
            ),
    {
        let mut acts: Vec<Action> = Vec::new();
        self.feed_into(chunk, &mut acts);
        proof {
            assert forall|z: Seq<u8>|
                #![trigger render(old(self).policy(), old(self).pending() + chunk@ + z)]
                render(old(self).policy(), old(self).pending() + chunk@ + z) == flatten(acts@)
                    + render(old(self).policy(), self.pending() + z) by {
                assert(flatten(Seq::<Action>::empty()) + render(
                    self.policy,
                    old(self).pending() + chunk@ + z,
                ) =~= render(self.policy, old(self).pending() + chunk@ + z));
            }
        }
        acts
    }

    fn feed_into(&mut self, chunk: &[u8], out: &mut Vec<Action>)
        requires
            old(self).wf(),
            old(self).buf.pending().len() + chunk@.len() <= usize::MAX,
        ensures
            final(self).wf(),
            final(self).policy == old(self).policy,
            final(self).threshold == old(self).threshold,
            forall|z: Seq<u8>|
                #![trigger render(old(self).policy, old(self).buf.pending() + chunk@ + z)]
                flatten(old(out)@) + render(
                    old(self).policy,
                    old(self).buf.pending() + chunk@ + z,
                ) == flatten(final(out)@) + render(old(self).policy, final(self).buf.pending() + z),
            final(self).buf.pending().len() <= final(self).threshold
                || final(self).buf.pending().len() <= LONGEST_MARKER - 1,
            final(self).buf.pending().len() <= old(self).buf.pending().len() + chunk@.len(),
            final(self).buf.pending() == (old(self).buf.pending() + chunk@).subrange(
                old(self).buf.pending().len() + chunk@.len() - final(self).buf.pending().len(),
                old(self).buf.pending().len() + chunk@.len() as int,
            ),
            marker_free(
                old(self).buf.pending() + chunk@,
                0,
                old(self).buf.pending().len() + chunk@.len() as int,
            ) ==> final(self).buf.pending() == overflow_kept(
                old(self).buf.pending() + chunk@,
                old(self).threshold as nat,
            ),
    {
        self.buf.ingest(chunk);
        self.process_into(out);
    }

    /// Applies the overflow bound on its own: with more than the threshold
    /// pending, everything but the last three bytes is written out.
    pub fn enforce_overflow(&mut self) -> (acts: Vec<Action>)
        requires
            old(self).wf(),
        ensures
            final(self).wf(),
            final(self).policy() == old(self).policy(),
            final(self).threshold() == old(self).threshold(),
            forall|z: Seq<u8>|
                #![trigger render(old(self).policy(), old(self).pending() + z)]
                render(old(self).policy(), old(self).pending() + z) == flatten(acts@) + render(
                    old(self).policy(),
                    final(self).pending() + z,
                ),
            if old(self).pending().len() > old(self).threshold() && old(self).pending().len()
                > LONGEST_MARKER - 1 {
                final(self).pending() == old(self).pending().subrange(
                    old(self).pending().len() - (LONGEST_MARKER - 1),
                    old(self).pending().len() as int,
                )
            } else {
                final(self).pending() == old(self).pending() && acts@.len() == 0
            },
    {
        let mut acts: Vec<Action> = Vec::new();
        self.overflow_into(&mut acts);
        proof {
            assert forall|z: Seq<u8>|
                #![trigger render(old(self).policy(), old(self).pending() + z)]
                render(old(self).policy(), old(self).pending() + z) == flatten(acts@) + render(
                    old(self).policy(),
                    self.pending() + z,
                ) by {
                assert(flatten(Seq::<Action>::empty()) + render(
                    self.policy,
                    old(self).pending() + z,
                ) =~= render(self.policy, old(self).pending() + z));
            }
        }
        acts
    }

    /// Ends the input: writes out what is pending and a closing line feed.
    pub fn finish(&mut self) -> (acts: Vec<Action>)
        requires
            old(self).wf(),
        ensures
            final(self).wf(),
            final(self).policy() == old(self).policy(),
            final(self).threshold() == old(self).threshold(),
            final(self).pending() == Seq::<u8>::empty(),
            flatten(acts@) == render(old(self).policy(), old(self).pending()) + seq![
                Event::Byte(LINE_FEED),
            ],
    {
        let mut acts: Vec<Action> = Vec::new();
        self.flush_into(&mut acts);
        let mut nl: Vec<u8> = Vec::new();
        nl.push(LINE_FEED);
        push_write(&mut acts, nl);
        proof {
            assert(byte_events(seq![LINE_FEED]) =~= seq![Event::Byte(LINE_FEED)]);
            assert(flatten(Seq::<Action>::empty()) + render(self.policy, old(self).pending())
                =~= render(self.policy, old(self).pending()));
        }
        acts
    }
}

/// Replays a whole input fed in chunks of `chunk_size` bytes (the last
/// one may be shorter), closing with a line feed.
pub fn replay(policy: DelayPolicy, threshold: usize, chunk_size: usize, input: &[u8]) -> (acts:
    Vec<Action>)
    requires
        chunk_size > 0,
    ensures
        flatten(acts@) == transcript(policy, input@),
{
    let mut engine = ReplayEngine::new(policy, threshold);
    let mut acts: Vec<Action> = Vec::new();
    let n = input.len();
    let mut pos: usize = 0;
    proof {
        assert forall|z: Seq<u8>|
            #![trigger render(policy, input@.subrange(0, 0) + z)]
            render(policy, input@.subrange(0, 0) + z) == flatten(acts@) + render(
                policy,
                engine.buf.pending() + z,
            ) by {
            assert(input@.subrange(0, 0) + z =~= engine.buf.pending() + z);
            assert(flatten(acts@) + render(policy, engine.buf.pending() + z) =~= render(
                policy,
                engine.buf.pending() + z,
            ));
        }
    }
    while pos < n
        invariant
            chunk_size > 0,
            pos <= n,
            n == input@.len(),
            engine.wf(),
            engine.policy == policy,
            engine.buf.pending().len() <= pos,
            forall|z: Seq<u8>|
                #![trigger render(policy, input@.subrange(0, pos as int) + z)]
                render(policy, input@.subrange(0, pos as int) + z) == flatten(acts@) + render(
                    policy,
                    engine.buf.pending() + z,
                ),
        decreases n - pos,
    {
        let end: usize = if n - pos < chunk_size {
            n
        } else {
            pos + chunk_size
        };
        let chunk = copy_range(input, pos, end);
        let ghost before = acts@;
        let ghost held = engine.buf.pending();
        engine.feed_into(chunk.as_slice(), &mut acts);
        proof {
            assert forall|z: Seq<u8>|
                #![trigger render(policy, input@.subrange(0, end as int) + z)]
                render(policy, input@.subrange(0, end as int) + z) == flatten(acts@) + render(
                    policy,
                    engine.buf.pending() + z,
                ) by {
                assert(input@.subrange(0, end as int) + z =~= input@.subrange(0, pos as int) + (
                chunk@ + z));
                assert(held + (chunk@ + z) =~= held + chunk@ + z);
                assert(render(policy, input@.subrange(0, pos as int) + (chunk@ + z)) == flatten(
                    before,
                ) + render(policy, held + (chunk@ + z)));
                assert(flatten(before) + render(policy, held + chunk@ + z) == flatten(acts@)
                    + render(policy, engine.buf.pending() + z));
            }
        }
        pos = end;
    }
    let ghost mid = acts@;
    let ghost held = engine.buf.pending();
    engine.flush_into(&mut acts);
    let mut nl: Vec<u8> = Vec::new();
    nl.push(LINE_FEED);
    push_write(&mut acts, nl);
    proof {
        let e = Seq::<u8>::empty();
        assert(input@.subrange(0, n as int) + e =~= input@);
        assert(held + e =~= held);
        assert(render(policy, input@.subrange(0, n as int) + e) == flatten(mid) + render(
            policy,
            held + e,
        ));
        assert(byte_events(seq![LINE_FEED]) =~= seq![Event::Byte(LINE_FEED)]);
    }
    acts
}

/// The paced rendering of a complete byte string, with nothing held back
/// and no closing line feed.
pub fn render_bytes(policy: DelayPolicy, input: &[u8]) -> (acts: Vec<Action>)
    ensures
        flatten(acts@) == render(policy, input@),
{
    let mut engine = ReplayEngine::new(policy, DEFAULT_OVERFLOW_THRESHOLD);
    let mut acts: Vec<Action> = Vec::new();
    let _n = input.len();
    engine.feed_into(input, &mut acts);
    let ghost mid = acts@;
    let ghost held = engine.buf.pending();
    engine.flush_into(&mut acts);
    proof {
        let e = Seq::<u8>::empty();
        assert(e + input@ + e =~= input@);
        assert(held + e =~= held);
        assert(flatten(Seq::<Action>::empty()) + render(policy, e + input@ + e) == flatten(mid)
            + render(policy, held + e));
        assert(flatten(Seq::<Action>::empty()) + render(policy, input@) =~= render(
            policy,
            input@,
        ));
    }
    acts
}

} // verus!

use vstd::prelude::*;

use crate::buffer::copy_range;
use crate::delay::{DelayKind, DelayPolicy};
use crate::engine::render_bytes;
use crate::scan::{CARRIAGE_RETURN, LINE_FEED};
use crate::timeline::{
    flatten, flatten_steps, lemma_flatten_append, lemma_flatten_push, lemma_flatten_steps, render,
    step_events, steps, Action, Event, Step,
};

verus! {

/// The prompt pattern used when none is given: `user@host:path$ ` or a bare
/// `$ ` at the start of a line.
pub const DEFAULT_SHELL_PROMPT: &'static str = "^(.+@.+:.+[$] |[$] )";

#[verifier::external_type_specification]
#[verifier::external_body]
pub struct ExRegex(regex::bytes::Regex);

#[verifier::external_type_specification]
#[verifier::external_body]
pub struct ExRegexError(regex::Error);

/// Whether the regex crate accepts `pattern` (with its default limits).
pub uninterp spec fn regex_compiles(pattern: Seq<char>) -> bool;

/// Where the first group of `pattern` ends when it matches `line`, if the
/// pattern matches and the group takes part in the match.
pub uninterp spec fn prompt_group_end(pattern: Seq<char>, line: Seq<u8>) -> Option<nat>;

/// Relies on regex::bytes::Regex::new: it compiles exactly the patterns the
/// crate accepts, which depends on the pattern alone.
#[verifier::external_body]
fn compile_regex(pattern: &str) -> (r: Result<regex::bytes::Regex, regex::Error>)
    ensures
        r is Ok <==> regex_compiles(pattern@),
{
    regex::bytes::Regex::new(pattern)
}

/// Relies on regex::bytes::Regex::captures, Captures::get and Match::end:
/// the end of the first group of the pattern the regex was compiled from,
/// which lies within the line.
#[verifier::external_body]
fn first_group_end(pattern: &PromptPattern, line: &[u8]) -> (r: Option<usize>)
    ensures
        r matches Some(e) ==> e <= line@.len() && prompt_group_end(pattern.source(), line@)
            == Some(e as nat),
        r is None ==> prompt_group_end(pattern.source(), line@) is None,
{
    pattern.re.captures(line).and_then(|c| c.get(1)).map(|m| m.end())
}

/// A prompt pattern that could not be compiled.
#[derive(Clone, Copy, Debug, PartialEq, Eq, Structural)]
pub enum PromptError {
    InvalidPattern,
}

/// A compiled shell-prompt pattern. Its first group covers the prompt.
pub struct PromptPattern {
    re: regex::bytes::Regex,
    source: Ghost<Seq<char>>,
}

impl PromptPattern {
    /// The pattern this was compiled from.
    pub closed spec fn source(&self) -> Seq<char> {
        self.source@
    }

    pub fn new(pattern: &str) -> (r: Result<PromptPattern, PromptError>)
        ensures
            r is Ok <==> regex_compiles(pattern@),
            r matches Ok(p) ==> p.source() == pattern@,
            r matches Err(e) ==> e == PromptError::InvalidPattern,
    {
        match compile_regex(pattern) {
            Ok(re) => Ok(PromptPattern { re, source: Ghost(pattern@) }),
            Err(_) => Err(PromptError::InvalidPattern),
        }
    }

    /// Where the prompt at the start of `line` ends, if the line has one.
    pub fn prompt_end(&self, line: &[u8]) -> (r: Option<usize>)
        ensures
            r matches Some(e) ==> e <= line@.len() && prompt_group_end(self.source(), line@)
                == Some(e as nat),
            r is None ==> prompt_group_end(self.source(), line@) is None,
    {
        first_group_end(self, line)
    }
}

/// A line ends at every line feed and every carriage return.
pub open spec fn is_line_end(b: u8) -> bool {
    b == LINE_FEED || b == CARRIAGE_RETURN
}

/// Typing `s` key by key: each byte written on its own, each followed by
/// the typing wait.
pub open spec fn typing(s: Seq<u8>, ms: u32) -> Seq<Step>
    decreases s.len(),
{
    if s.len() == 0 {
        seq![]
    } else {
        typing(s.drop_last(), ms) + seq![Step::Write(seq![s.last()])] + if ms == 0 {
            seq![]
        } else {
            seq![Step::Sleep(ms)]
        }
    }
}

/// A prompt line: the prompt written at once, the rest typed.
pub open spec fn prompt_line_steps(line: Seq<u8>, prompt_end: int, ms: u32) -> Seq<Step> {
    seq![Step::Write(line.subrange(0, prompt_end))] + typing(
        line.subrange(prompt_end, line.len() as int),
        ms,
    )
}

/// Replays one line. With a prompt ending at `prompt_end`, the prompt is
/// written in one piece and the rest of the line key by key; without one,
/// the line is rendered as the chunked engine renders it.
pub fn play_line(policy: DelayPolicy, line: &[u8], prompt_end: Option<usize>) -> (acts: Vec<
    Action,
>)
    requires
        prompt_end matches Some(e) ==> e <= line@.len(),
    ensures
        prompt_end matches Some(e) ==> steps(acts@) == prompt_line_steps(
            line@,
            e as int,
            policy.user_typing_ms,
        ),
        prompt_end is None ==> flatten(acts@) == render(policy, line@),
{
    match prompt_end {
        None => render_bytes(policy, line),
        Some(e) => {
            let ms = policy.duration_for(DelayKind::CharacterTyped);
            let n = line.len();
            let mut acts: Vec<Action> = Vec::new();
            acts.push(Action::Write(copy_range(line, 0, e)));
            let ghost typed = line@.subrange(e as int, n as int);
            let mut i: usize = e;
            assert(steps(acts@) =~= seq![Step::Write(line@.subrange(0, e as int))] + typing(
                typed.subrange(0, 0),
                ms,
            ));
            while i < n
                invariant
                    e <= i <= n,
                    n == line@.len(),
                    ms == policy.user_typing_ms,
                    typed == line@.subrange(e as int, n as int),
                    steps(acts@) == seq![Step::Write(line@.subrange(0, e as int))] + typing(
                        typed.subrange(0, i - e),
                        ms,
                    ),
                decreases n - i,
            {
                let ghost before = steps(acts@);
                let ghost acts0 = acts@;
                let mut key: Vec<u8> = Vec::new();
                key.push(line[i]);
                acts.push(Action::Write(key));
                if ms > 0 {
                    acts.push(Action::Sleep(ms));
                }
                proof {
                    let t = typed.subrange(0, i + 1 - e);
                    assert(t.drop_last() =~= typed.subrange(0, i - e));
                    assert(t.last() == line@[i as int]);
                    assert(key@ =~= seq![line@[i as int]]);
                    let sl: Seq<Step> = if ms == 0 {
                        seq![]
                    } else {
                        seq![Step::Sleep(ms)]
                    };
                    assert(typing(t, ms) == typing(t.drop_last(), ms) + seq![
                        Step::Write(seq![t.last()]),
                    ] + sl);
                    assert(steps(acts@) =~= before + seq![Step::Write(key@)] + sl);
                }
                assert(steps(acts@) =~= seq![Step::Write(line@.subrange(0, e as int))] + typing(
                    typed.subrange(0, i + 1 - e),
                    ms,
                ));
                i = i + 1;
            }
            assert(typed.subrange(0, n - e) =~= typed);
            acts
        },
    }
}

/// The replay of one complete line under `pattern`: typed after the prompt
/// where the pattern finds one, rendered as the chunked engine renders it
/// otherwise.
pub open spec fn line_events(p: DelayPolicy, pattern: Seq<char>, line: Seq<u8>) -> Seq<Event> {
    match prompt_group_end(pattern, line) {
        Some(e) => if e <= line.len() {
            flatten_steps(prompt_line_steps(line, e as int, p.user_typing_ms))
        } else {
            render(p, line)
        },
        None => render(p, line),
    }
}

/// The replay of the lines that `s` completes, when `cur` is the start of
/// a line already read.
pub open spec fn lines_events(p: DelayPolicy, pattern: Seq<char>, cur: Seq<u8>, s: Seq<u8>) -> Seq<
    Event,
>
    decreases s.len(),
{
    if s.len() == 0 {
        seq![]
    } else if is_line_end(s[0]) {
        line_events(p, pattern, cur.push(s[0])) + lines_events(
            p,
            pattern,
            seq![],
            s.drop_first(),
        )
    } else {
        lines_events(p, pattern, cur.push(s[0]), s.drop_first())
    }
}

/// What stays unfinished once `s` has been read after the line start `cur`:
/// the bytes after the last line end.
pub open spec fn unfinished(cur: Seq<u8>, s: Seq<u8>) -> Seq<u8>
    decreases s.len(),
{
    if s.len() == 0 {
        cur
    } else if is_line_end(s[0]) {
        unfinished(seq![], s.drop_first())
    } else {
        unfinished(cur.push(s[0]), s.drop_first())
    }
}

/// The prompt-typing replay: input is cut into lines, and each line is
/// played with or without typing as the prompt pattern decides.
pub struct PromptPlayer {
    policy: DelayPolicy,
    pattern: PromptPattern,
    line: Vec<u8>,
}

impl PromptPlayer {
    pub closed spec fn policy(&self) -> DelayPolicy {
        self.policy
    }

    pub closed spec fn pattern_source(&self) -> Seq<char> {
        self.pattern.source()
    }

    /// The start of a line whose end has not been read yet.
    pub closed spec fn pending(&self) -> Seq<u8> {
        self.line@
    }

    pub fn new(policy: DelayPolicy, pattern: PromptPattern) -> (r: PromptPlayer)
        ensures
            r.policy() == policy,
            r.pattern_source() == pattern.source(),
            r.pending() == Seq::<u8>::empty(),
    {
        PromptPlayer { policy, pattern, line: Vec::new() }
    }

    /// Plays one line: typed after its prompt where the pattern finds one,
    /// rendered as the chunked engine renders it otherwise.
    pub fn play(&self, line: &[u8]) -> (acts: Vec<Action>)
        ensures
            flatten(acts@) == line_events(self.policy(), self.pattern_source(), line@),
            prompt_group_end(self.pattern_source(), line@) matches Some(e) ==> steps(acts@)
                == prompt_line_steps(line@, e as int, self.policy().user_typing_ms),
    {
        let e = self.pattern.prompt_end(line);
        let acts = play_line(self.policy, line, e);
        proof {
            lemma_flatten_steps(acts@);
        }
        acts
    }

    /// Takes in a chunk and plays every line it completes. What stays
    /// pending is what follows the last line end.
    pub fn feed(&mut self, chunk: &[u8]) -> (acts: Vec<Action>)
        ensures
            final(self).policy() == old(self).policy(),
            final(self).pattern_source() == old(self).pattern_source(),
            flatten(acts@) == lines_events(
                old(self).policy(),
                old(self).pattern_source(),
                old(self).pending(),
                chunk@,
            ),
            final(self).pending() == unfinished(old(self).pending(), chunk@),
    {
        let ghost p = self.policy;
        let ghost pat = self.pattern.source();
        let ghost cur0 = self.line@;
        let mut acts: Vec<Action> = Vec::new();
        let n = chunk.len();
        let mut i: usize = 0;
        assert(chunk@.subrange(0, n as int) =~= chunk@);
        while i < n
            invariant
                i <= n,
                n == chunk@.len(),
                self.policy == p,
                self.pattern.source() == pat,
                flatten(acts@) + lines_events(p, pat, self.line@, chunk@.subrange(i as int, n as int))
                    == lines_events(p, pat, cur0, chunk@),
                unfinished(self.line@, chunk@.subrange(i as int, n as int)) == unfinished(
                    cur0,
                    chunk@,
                ),
            decreases n - i,
        {
            let ghost rest = chunk@.subrange(i as int, n as int);
            let ghost before = acts@;
            let b = chunk[i];
            assert(rest[0] == b);
            assert(rest.drop_first() =~= chunk@.subrange(i + 1, n as int));
            self.line.push(b);
            if b == LINE_FEED || b == CARRIAGE_RETURN {
                let mut played = self.play(self.line.as_slice());
                let ghost pl = played@;
                acts.append(&mut played);
                proof {
                    lemma_flatten_append(before, pl);
                }
                self.line = Vec::new();
                assert(self.line@ =~= Seq::<u8>::empty());
            }
            i = i + 1;
        }
        assert(chunk@.subrange(n as int, n as int) =~= Seq::<u8>::empty());
        assert(flatten(acts@) + lines_events(p, pat, self.line@, Seq::<u8>::empty()) =~= flatten(
            acts@,
        ));
        acts
    }

    /// Ends the input: plays the unfinished last line, if any, and writes a
    /// closing line feed.
    pub fn finish(&mut self) -> (acts: Vec<Action>)
        ensures
            final(self).policy() == old(self).policy(),
            final(self).pattern_source() == old(self).pattern_source(),
            final(self).pending() == Seq::<u8>::empty(),
            flatten(acts@) == (if old(self).pending().len() > 0 {
                line_events(old(self).policy(), old(self).pattern_source(), old(self).pending())
            } else {
                seq![]
            }) + seq![Event::Byte(LINE_FEED)],
            acts@.len() > 0,
            acts@.last()@ == Step::Write(seq![LINE_FEED]),
    {
        let mut acts: Vec<Action> = Vec::new();
        if self.line.len() > 0 {
            acts = self.play(self.line.as_slice());
            self.line = Vec::new();
        }
        let ghost before = acts@;
        let mut nl: Vec<u8> = Vec::new();
        nl.push(LINE_FEED);
        assert(nl@ =~= seq![LINE_FEED]);
        proof {
            lemma_flatten_push(acts@, Action::Write(nl));
            assert(step_events(Step::Write(seq![LINE_FEED])) =~= seq![Event::Byte(LINE_FEED)]);
        }
        acts.push(Action::Write(nl));
        assert(self.line@ =~= Seq::<u8>::empty());
        acts
    }
}

} // verus!

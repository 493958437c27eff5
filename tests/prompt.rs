use ansi_flip_book::capture::{capture_header, header_from_quoted};
use ansi_flip_book::delay::DelayPolicy;
use ansi_flip_book::prompt::{
    play_line, PromptError, PromptPattern, PromptPlayer, DEFAULT_SHELL_PROMPT,
};
use ansi_flip_book::timeline::Action;

fn w(b: &[u8]) -> Action {
    Action::Write(b.to_vec())
}

fn player() -> PromptPlayer {
    let pattern = PromptPattern::new(DEFAULT_SHELL_PROMPT).ok().unwrap();
    PromptPlayer::new(DelayPolicy::standard(), pattern)
}

#[test]
fn prompt_line_is_typed_after_the_prompt() {
    let mut p = player();
    let acts = p.feed(b"user@host:/tmp$ ls -la\n");
    let mut expected = vec![w(b"user@host:/tmp$ ")];
    for b in b"ls -la\n" {
        expected.push(w(&[*b]));
        expected.push(Action::Sleep(80));
    }
    assert_eq!(acts, expected);
    assert_eq!(p.finish(), vec![w(b"\n")]);
}

#[test]
fn bare_dollar_prompt() {
    let pattern = PromptPattern::new(DEFAULT_SHELL_PROMPT).ok().unwrap();
    assert_eq!(pattern.prompt_end(b"$ echo\n"), Some(2));
    assert_eq!(pattern.prompt_end(b"plain text\n"), None);
}

#[test]
fn other_lines_use_the_engine_rendering() {
    let mut p = player();
    let acts = p.feed(b"out\x1b[2Jput\r");
    assert_eq!(
        acts,
        vec![w(b"out"), Action::Sleep(200), w(b"put"), Action::Sleep(50), w(b"\r")]
    );
}

#[test]
fn line_split_across_chunks() {
    let mut p = player();
    assert!(p.feed(b"$ e").is_empty());
    let acts = p.feed(b"c\nx");
    assert_eq!(
        acts,
        vec![
            w(b"$ "),
            w(b"e"),
            Action::Sleep(80),
            w(b"c"),
            Action::Sleep(80),
            w(b"\n"),
            Action::Sleep(80)
        ]
    );
    assert_eq!(p.finish(), vec![w(b"x"), w(b"\n")]);
}

#[test]
fn line_ends_at_every_feed_or_return() {
    let mut p = player();
    let acts = p.feed(b"a\\\nb\rc");
    assert_eq!(
        acts,
        vec![w(b"a\\\n"), Action::Sleep(5), w(b"b"), Action::Sleep(50), w(b"\r")]
    );
    assert_eq!(p.finish(), vec![w(b"c"), w(b"\n")]);
}

#[test]
fn play_line_without_typing_wait() {
    let p = DelayPolicy::new(0, 0, 0, 0);
    assert_eq!(play_line(p, b"$ ab", Some(2)), vec![w(b"$ "), w(b"a"), w(b"b")]);
    assert_eq!(play_line(p, b"ab\n", None), vec![w(b"ab\n")]);
}

#[test]
fn invalid_pattern_is_rejected() {
    assert_eq!(PromptPattern::new("(").err(), Some(PromptError::InvalidPattern));
}

#[test]
fn header_quotes_arguments() {
    let args = vec!["ls".to_string(), "a b".to_string(), "it's".to_string()];
    assert_eq!(capture_header(false, &args), b"$ ls 'a b' 'it'\\''s'\n".to_vec());
    assert_eq!(capture_header(true, &vec![]), b"#\n".to_vec());
}

#[test]
fn header_from_prequoted() {
    let q = vec![b"x".to_vec(), b"'y z'".to_vec()];
    assert_eq!(header_from_quoted(true, &q), b"# x 'y z'\n".to_vec());
}

#[test]
fn play_decides_by_the_pattern() {
    let p = player();
    assert_eq!(
        p.play(b"$ x\n"),
        vec![w(b"$ "), w(b"x"), Action::Sleep(80), w(b"\n"), Action::Sleep(80)]
    );
    assert_eq!(p.play(b"x\n"), vec![w(b"x\n"), Action::Sleep(5)]);
}

#[test]
fn feed_keeps_only_the_unfinished_line() {
    let mut p = player();
    let first = p.feed(b"one\ntwo\nthree");
    assert_eq!(first, vec![w(b"one\n"), Action::Sleep(5), w(b"two\n"), Action::Sleep(5)]);
    let acts = p.feed(b"\n");
    assert_eq!(acts, vec![w(b"three\n"), Action::Sleep(5)]);
    assert_eq!(p.finish(), vec![w(b"\n")]);
}

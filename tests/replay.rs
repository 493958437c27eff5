use ansi_flip_book::delay::{wait_parts, DelayKind, DelayPolicy};
use ansi_flip_book::engine::{render_bytes, replay, ReplayEngine, DEFAULT_OVERFLOW_THRESHOLD};
use ansi_flip_book::scan::{find_next, find_subsequence, Boundary, BoundaryKind, CLEAR_SCREEN};
use ansi_flip_book::timeline::Action;

fn w(b: &[u8]) -> Action {
    Action::Write(b.to_vec())
}

fn written_bytes(acts: &[Action]) -> Vec<u8> {
    let mut out = Vec::new();
    for a in acts {
        if let Action::Write(v) = a {
            out.extend_from_slice(v);
        }
    }
    out
}

fn sleeps(acts: &[Action]) -> Vec<u32> {
    acts.iter()
        .filter_map(|a| match a {
            Action::Sleep(ms) => Some(*ms),
            _ => None,
        })
        .collect()
}

fn policy(cs: u32, cr: u32, nl: u32) -> DelayPolicy {
    DelayPolicy::new(cs, cr, nl, 80)
}

#[test]
fn clear_screen_consumed_and_newline_appended() {
    let input = b"hello\x1b[2Jworld\n";
    let acts = replay(policy(0, 0, 0), DEFAULT_OVERFLOW_THRESHOLD, 1024, input);
    assert_eq!(written_bytes(&acts), b"helloworld\n\n".to_vec());
    assert!(sleeps(&acts).is_empty());
}

#[test]
fn carriage_return_waits_before_the_return() {
    let acts = replay(policy(200, 50, 5), DEFAULT_OVERFLOW_THRESHOLD, 1024, b"abc\r\n");
    assert_eq!(
        acts,
        vec![w(b"abc"), Action::Sleep(50), w(b"\r"), w(b"\n"), Action::Sleep(5), w(b"\n")]
    );
}

#[test]
fn marker_free_input_passes_through() {
    let input: Vec<u8> = (0..300u32).map(|i| b'a' + (i % 26) as u8).collect();
    for chunk in [1usize, 2, 3, 7, 64, 1000] {
        for threshold in [0usize, 5, 16, 8192] {
            let acts = replay(policy(200, 50, 5), threshold, chunk, &input);
            let mut expected = input.clone();
            expected.push(b'\n');
            assert_eq!(written_bytes(&acts), expected);
            assert!(sleeps(&acts).is_empty());
        }
    }
}

#[test]
fn clear_screen_split_across_two_chunks() {
    for k in 1..4 {
        let mut first = b"ab".to_vec();
        first.extend_from_slice(&CLEAR_SCREEN[..k]);
        let mut second = CLEAR_SCREEN[k..].to_vec();
        second.extend_from_slice(b"cd");
        let mut engine = ReplayEngine::new(policy(200, 0, 0), DEFAULT_OVERFLOW_THRESHOLD);
        let mut acts = engine.feed(&first);
        acts.extend(engine.feed(&second));
        acts.extend(engine.finish());
        assert_eq!(acts, vec![w(b"ab"), Action::Sleep(200), w(b"cd"), w(b"\n")]);
        for a in &acts {
            if let Action::Write(v) = a {
                assert!(!v.contains(&0x1b));
            }
        }
    }
}

#[test]
fn clear_screen_at_every_chunk_size() {
    let input = b"x\x1b[2Jy\x1b[2J\x1b[2Jz\n";
    for chunk in 1..20 {
        let acts = replay(policy(200, 50, 5), 2, chunk, input);
        assert_eq!(written_bytes(&acts), b"xyz\n\n".to_vec());
        assert_eq!(sleeps(&acts), vec![200, 200, 200, 5]);
    }
}

#[test]
fn overflow_keeps_at_most_three_bytes() {
    let mut engine = ReplayEngine::new(policy(200, 50, 5), 8);
    let mut total = Vec::new();
    for _ in 0..50 {
        let acts = engine.feed(b"aaaaaaaaaaaa");
        assert!(engine.buffered() <= 3);
        total.extend(acts);
    }
    total.extend(engine.finish());
    assert_eq!(written_bytes(&total).len(), 50 * 12 + 1);
}

#[test]
fn overflow_never_cuts_a_clear_screen() {
    let mut engine = ReplayEngine::new(policy(200, 50, 5), 4);
    let mut acts = engine.feed(b"aaaaaaa\x1b[2");
    assert!(engine.buffered() <= 4);
    acts.extend(engine.feed(b"Jb"));
    acts.extend(engine.finish());
    assert_eq!(written_bytes(&acts), b"aaaaaaab\n".to_vec());
    assert_eq!(sleeps(&acts), vec![200]);
}

#[test]
fn below_threshold_nothing_is_forced_out() {
    let mut engine = ReplayEngine::new(policy(200, 50, 5), 100);
    let acts = engine.feed(b"abcdef");
    assert!(acts.is_empty());
    assert_eq!(engine.buffered(), 6);
    assert!(engine.enforce_overflow().is_empty());
    assert_eq!(engine.finish(), vec![w(b"abcdef"), w(b"\n")]);
}

#[test]
fn enforce_overflow_keeps_the_tail() {
    let mut engine = ReplayEngine::new(policy(200, 50, 5), 100);
    let _ = engine.feed(b"abcdef");
    let mut small = ReplayEngine::new(policy(200, 50, 5), 2);
    let acts = small.feed(b"ab");
    assert!(acts.is_empty());
    assert_eq!(small.buffered(), 2);
    assert_eq!(engine.threshold_of(), 100);
}

#[test]
fn round_trip_without_clear_screen() {
    let input = b"line one\r\nline two\n\rthird\x1b[0m tail";
    let acts = replay(DelayPolicy::immediate(), 4, 3, input);
    let mut expected = input.to_vec();
    expected.push(b'\n');
    assert_eq!(written_bytes(&acts), expected);
}

#[test]
fn two_runs_give_identical_output() {
    let input = b"a\rb\nc\x1b[2Jd\x1b[";
    let p = DelayPolicy::standard();
    let a = replay(p, 16, 5, input);
    let b = replay(p, 16, 5, input);
    assert_eq!(a, b);
    let c = replay(p, 16, 2, input);
    assert_eq!(written_bytes(&a), written_bytes(&c));
    assert_eq!(sleeps(&a), sleeps(&c));
}

#[test]
fn empty_input_gives_a_single_newline() {
    let acts = replay(DelayPolicy::standard(), 16, 4, b"");
    assert_eq!(acts, vec![w(b"\n")]);
}

#[test]
fn newline_wait_follows_the_line() {
    let acts = replay(policy(200, 50, 5), 8192, 4, b"ab\ncd\n");
    assert_eq!(
        acts,
        vec![w(b"ab\n"), Action::Sleep(5), w(b"cd\n"), Action::Sleep(5), w(b"\n")]
    );
}

#[test]
fn incomplete_escape_at_end_is_written() {
    let acts = replay(policy(200, 50, 5), 8192, 4, b"ab\x1b[2");
    assert_eq!(written_bytes(&acts), b"ab\x1b[2\n".to_vec());
    assert!(sleeps(&acts).is_empty());
}

#[test]
fn render_bytes_has_no_closing_newline() {
    let acts = render_bytes(policy(200, 50, 5), b"x\r");
    assert_eq!(acts, vec![w(b"x"), Action::Sleep(50), w(b"\r")]);
}

#[test]
fn find_next_reports_first_marker() {
    let buf = b"ab\x1b[2Jc\rd\n";
    assert_eq!(
        find_next(buf, 0),
        Some(Boundary { kind: BoundaryKind::ClearScreen, start: 2, end: 6 })
    );
    assert_eq!(
        find_next(buf, 3),
        Some(Boundary { kind: BoundaryKind::CarriageReturn, start: 7, end: 8 })
    );
    assert_eq!(
        find_next(buf, 8),
        Some(Boundary { kind: BoundaryKind::NewLine, start: 9, end: 10 })
    );
    assert_eq!(find_next(b"ab\x1b[2", 0), None);
    assert_eq!(find_next(b"", 0), None);
}

#[test]
fn find_subsequence_positions() {
    assert_eq!(find_subsequence(b"xx\x1b[2Jyy", &CLEAR_SCREEN), Some(2));
    assert_eq!(find_subsequence(b"abcabc", b"ca"), Some(2));
    assert_eq!(find_subsequence(b"abc", b"abcd"), None);
    assert_eq!(find_subsequence(b"abc", b"x"), None);
}

#[test]
fn wait_parts_split_millis() {
    assert_eq!(wait_parts(0), None);
    assert_eq!(wait_parts(1500), Some((1, 500_000_000)));
    assert_eq!(wait_parts(80), Some((0, 80_000_000)));
}

#[test]
fn policy_lookup() {
    let p = DelayPolicy::standard();
    assert_eq!(p.duration_for(DelayKind::ClearScreen), 200);
    assert_eq!(p.duration_for(DelayKind::CarriageReturn), 50);
    assert_eq!(p.duration_for(DelayKind::NewLine), 5);
    assert_eq!(p.duration_for(DelayKind::CharacterTyped), 80);
    assert_eq!(BoundaryKind::ClearScreen.len(), 4);
}

#[test]
fn forced_flush_keeps_exactly_the_last_three_bytes() {
    let mut engine = ReplayEngine::new(policy(200, 50, 5), 5);
    let acts = engine.feed(b"abcdefgh");
    assert_eq!(acts, vec![w(b"abcde")]);
    assert_eq!(engine.buffered(), 3);
    assert_eq!(engine.finish(), vec![w(b"fgh"), w(b"\n")]);
}

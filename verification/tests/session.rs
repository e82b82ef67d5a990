use reckon::engine::{closed_stream_verdict, deadline_reached, feed_byte, Engine};
use reckon::errors::ExpectError;
use reckon::utf8::Utf8Decoder;

fn feed_all(e: &mut Engine, text: &str) -> Option<(usize, String)> {
    for c in text.chars() {
        let r = e.feed(c);
        if r.is_some() {
            return r;
        }
    }
    None
}

#[test]
fn round_trip_ping() {
    // an echoing child whose output is exactly what was emitted
    let mut e = Engine::new();
    e.begin(vec!["ping".to_string()]).unwrap();
    assert_eq!(e.feed('p'), None);
    assert_eq!(e.feed('i'), None);
    assert_eq!(e.feed('n'), None);
    assert_eq!(e.feed('g'), Some((0, "ping".to_string())));
}

#[test]
fn tie_break_goes_by_list_position() {
    // both patterns occur in the output; "a" completes the match first and
    // its list position, not its text position, is reported
    let mut e = Engine::new();
    e.begin(vec!["b".to_string(), "a".to_string()]).unwrap();
    assert_eq!(e.feed('a'), Some((1, "a".to_string())));
}

#[test]
fn simultaneous_patterns_take_the_lowest_index() {
    // one character completes both patterns at once; the lower list index wins
    let mut e = Engine::new();
    e.begin(vec!["ab".to_string(), "b".to_string()]).unwrap();
    assert_eq!(e.feed('a'), None);
    assert_eq!(e.feed('b'), Some((0, "ab".to_string())));
}

#[test]
fn matched_text_is_the_whole_accumulated_buffer() {
    let mut e = Engine::new();
    e.begin(vec!["lo".to_string()]).unwrap();
    assert_eq!(feed_all(&mut e, "hello"), Some((0, "hello".to_string())));
}

#[test]
fn empty_pattern_list_never_matches() {
    let mut e = Engine::new();
    e.begin(vec![]).unwrap();
    assert_eq!(feed_all(&mut e, "plenty of output, none of it matters"), None);
}

#[test]
fn malformed_pattern_never_reaches_the_read_loop() {
    let mut e = Engine::new();
    assert_eq!(e.begin(vec!["(".to_string()]), Err(ExpectError::InvalidPattern));
}

#[test]
fn whole_buffer_is_rematched_across_characters() {
    // the pattern spans characters that arrived in different reads
    let mut e = Engine::new();
    e.begin(vec!["ab+c".to_string()]).unwrap();
    assert_eq!(e.feed('a'), None);
    assert_eq!(e.feed('b'), None);
    assert_eq!(e.feed('b'), None);
    assert_eq!(e.feed('c'), Some((0, "abbc".to_string())));
}

#[test]
fn cursor_only_moves_forward() {
    // two sequential attempts tile the stream: no overlap, no gap
    let stream = "one\ntwo\n";
    let mut e = Engine::new();
    e.begin(vec!["one\n".to_string()]).unwrap();
    let first = feed_all(&mut e, "one\n").unwrap();
    e.begin(vec!["two\n".to_string()]).unwrap();
    let second = feed_all(&mut e, "two\n").unwrap();
    let mut joined = first.1.clone();
    joined.push_str(&second.1);
    assert_eq!(joined, stream);
}

#[test]
fn attempt_can_be_abandoned_and_restarted() {
    let mut e = Engine::new();
    e.begin(vec!["never".to_string()]).unwrap();
    assert_eq!(e.feed('x'), None);
    e.abandon();
    e.begin(vec!["y".to_string()]).unwrap();
    assert_eq!(e.feed('y'), Some((0, "y".to_string())));
}

#[test]
fn deadline_is_reached_once_elapsed_meets_the_budget() {
    assert!(!deadline_reached(0, 100_000_000));
    assert!(!deadline_reached(99_999_999, 100_000_000));
    assert!(deadline_reached(100_000_000, 100_000_000));
    assert!(deadline_reached(100_000_001, 100_000_000));
}

#[test]
fn zero_budget_times_out_at_the_first_check() {
    assert!(deadline_reached(0, 0));
}

#[test]
fn bytes_feed_through_the_decoder_to_a_match() {
    let text = "pr\u{e9}t";
    let mut e = Engine::new();
    let mut d = Utf8Decoder::new();
    e.begin(vec![text.to_string()]).unwrap();
    let mut result = None;
    for &b in text.as_bytes() {
        match feed_byte(&mut e, &mut d, b) {
            Ok(Some(found)) => result = Some(found),
            Ok(None) => {}
            Err(_) => panic!("the stream is well formed"),
        }
    }
    assert_eq!(result, Some((0, text.to_string())));
}

#[test]
fn malformed_bytes_end_the_attempt_with_a_decode_failure() {
    let mut e = Engine::new();
    let mut d = Utf8Decoder::new();
    e.begin(vec!["x".to_string()]).unwrap();
    assert_eq!(feed_byte(&mut e, &mut d, 0x80), Err(ExpectError::DecodeFailed));
}

#[test]
fn closed_stream_after_the_deadline_is_a_timeout() {
    assert_eq!(closed_stream_verdict(200, 100), ExpectError::TimedOut);
    assert_eq!(closed_stream_verdict(50, 100), ExpectError::ReadFailed);
}

#[test]
fn error_kinds_are_distinguishable() {
    assert_eq!(ExpectError::TimedOut, ExpectError::TimedOut);
    assert_ne!(ExpectError::TimedOut, ExpectError::ReadFailed);
    assert_ne!(ExpectError::SpawnFailed, ExpectError::WriteFailed);
    assert_ne!(ExpectError::DecodeFailed, ExpectError::InvalidPattern);
    assert_ne!(ExpectError::ReapFailed, ExpectError::TimedOut);
}

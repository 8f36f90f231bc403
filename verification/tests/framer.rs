use bifrost::framer::{decode_lines, read_stream, Framer};

fn lines(stream: &[u8]) -> Option<Vec<String>> {
    read_stream(stream)
}

#[test]
fn head_of_two_lines() {
    let stream = b"GET /index.html HTTP/1.1\r\nHost: example.org\r\n\r\n";
    assert_eq!(
        lines(stream),
        Some(vec!["GET /index.html HTTP/1.1".to_string(), "Host: example.org".to_string()])
    );
}

#[test]
fn lines_keep_their_order() {
    let stream = b"a\r\nb\r\nc\r\nd\r\n\r\n";
    assert_eq!(
        lines(stream),
        Some(vec!["a".to_string(), "b".to_string(), "c".to_string(), "d".to_string()])
    );
}

#[test]
fn what_follows_the_empty_line_is_not_read() {
    let stream = b"GET / HTTP/1.1\r\n\r\nbody\r\nmore\r\n\r\n";
    assert_eq!(lines(stream), Some(vec!["GET / HTTP/1.1".to_string()]));
}

#[test]
fn empty_line_first_gives_no_lines() {
    assert_eq!(lines(b"\r\n"), Some(vec![]));
    assert_eq!(lines(b"\r\nGET / HTTP/1.1\r\n\r\n"), Some(vec![]));
}

#[test]
fn stream_that_ends_early_fails() {
    assert_eq!(lines(b""), None);
    assert_eq!(lines(b"GET / HTTP/1.1"), None);
    assert_eq!(lines(b"GET / HTTP/1.1\r\n"), None);
    assert_eq!(lines(b"GET / HTTP/1.1\r\nHost: a\r\n\r"), None);
}

#[test]
fn bare_line_feed_ends_no_line() {
    assert_eq!(lines(b"a\nb\n\n"), None);
    assert_eq!(lines(b"a\nb\r\n\r\n"), Some(vec!["a\nb".to_string()]));
}

#[test]
fn bare_carriage_return_stays_in_the_line() {
    assert_eq!(lines(b"a\r\r\n\r\n"), Some(vec!["a\r".to_string()]));
    assert_eq!(lines(b"a\rb\r\n\r\n"), Some(vec!["a\rb".to_string()]));
}

#[test]
fn line_feed_then_line_end_is_a_line() {
    // The buffer starts anew after each line, so "\n\r\n" is the line "\n".
    assert_eq!(lines(b"a\r\n\n\r\n\r\n"), Some(vec!["a".to_string(), "\n".to_string()]));
}

#[test]
fn invalid_utf8_is_replaced() {
    let stream = [b'a', 0xff, b'b', b'\r', b'\n', b'\r', b'\n'];
    assert_eq!(lines(&stream), Some(vec!["a\u{fffd}b".to_string()]));
}

#[test]
fn valid_utf8_is_decoded() {
    let stream = "caf\u{e9} \u{4e16}\u{754c}\r\n\r\n".as_bytes();
    assert_eq!(lines(stream), Some(vec!["caf\u{e9} \u{4e16}\u{754c}".to_string()]));
}

#[test]
fn framer_takes_one_byte_at_a_time() {
    let mut framer = Framer::new();
    assert!(!framer.is_finished());
    let stream = b"GET / HTTP/1.1\r\nA: b\r\n\r\n";
    let mut used = 0;
    for byte in stream.iter() {
        used += 1;
        if framer.push(*byte) {
            break;
        }
    }
    assert_eq!(used, stream.len());
    assert!(framer.is_finished());
    assert_eq!(
        framer.into_lines(),
        Some(vec!["GET / HTTP/1.1".to_string(), "A: b".to_string()])
    );
}

#[test]
fn framer_reports_the_end_only_at_the_empty_line() {
    let mut framer = Framer::new();
    let mut reports = Vec::new();
    for byte in b"ab\r\n\r\n".iter() {
        reports.push(framer.push(*byte));
    }
    assert_eq!(reports, vec![false, false, false, false, false, true]);
}

#[test]
fn finished_framer_ignores_further_bytes() {
    let mut framer = Framer::new();
    for byte in b"x\r\n\r\n".iter() {
        framer.push(*byte);
    }
    assert!(framer.push(b'y'));
    assert!(framer.push(b'\r'));
    assert!(framer.push(b'\n'));
    assert_eq!(framer.into_lines(), Some(vec!["x".to_string()]));
}

#[test]
fn unfinished_framer_gives_no_lines() {
    let mut framer = Framer::new();
    for byte in b"x\r\ny".iter() {
        assert!(!framer.push(*byte));
    }
    assert_eq!(framer.into_lines(), None);
}

#[test]
fn lines_are_decoded_one_by_one() {
    let lines = vec![b"plain".to_vec(), vec![0xe2, 0x82, 0xac], vec![0xe2, 0x82], vec![]];
    assert_eq!(
        decode_lines(&lines),
        vec!["plain".to_string(), "\u{20ac}".to_string(), "\u{fffd}".to_string(), "".to_string()]
    );
}

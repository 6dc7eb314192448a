use aegis_proxy::engine::http::{
    char_is_whitespace, chars_of, http_method, inspect_http, looks_like_http, parse_request_line,
    read_line, split_whitespace, HttpInspectionResult, HttpInspector, HttpLimits, HttpProgress, ReadError,
    ReadEvent, RequestLine, MAX_REQUEST_LINE_SIZE,
};

fn slowloris(reason: &str) -> Result<HttpInspectionResult, ReadError> {
    Ok(HttpInspectionResult::SlowlorisDetected(reason.to_string()))
}

#[test]
fn test_parse_valid_http_request() {
    let data = b"GET /index.html HTTP/1.1\r\nHost: example.com\r\nUser-Agent: test\r\n\r\n";

    let result = inspect_http(&data[..], 8192, 100, 8192).unwrap();

    assert_eq!(result, HttpInspectionResult::HttpDetected);
}

#[test]
fn test_parse_post_request() {
    let data = b"POST /api/data HTTP/1.1\r\nContent-Type: application/json\r\n\r\n";

    let result = inspect_http(&data[..], 8192, 100, 8192).unwrap();

    assert_eq!(result, HttpInspectionResult::HttpDetected);
}

#[test]
fn test_not_http() {
    // Typical MQTT CONNECT beginning bytes
    let data = b"\x10\x0f\x00\x04MQTT\x04\x02\x00\x3c\x00\x05test1";

    let res = inspect_http(&data[..], 8192, 100, 8192);

    match res {
        Ok(HttpInspectionResult::NotHttp) => {
            // expected
        }
        Ok(other) => panic!("expected NotHttp, got {:?}", other),
        Err(e) => {
            // The input ends before a line does: an incomplete line.
            if e == ReadError::UnexpectedEof {
                // acceptable: the input ended before a valid HTTP line
            } else {
                panic!("unexpected error during http inspection: {:?}", e);
            }
        }
    }
}

#[test]
fn test_header_count_limit() {
    let mut data = b"GET / HTTP/1.1\r\n".to_vec();
    // Add 101 headers (exceeds limit of 100)
    for i in 0..101 {
        data.extend_from_slice(format!("Header{}: value\r\n", i).as_bytes());
    }
    data.extend_from_slice(b"\r\n");

    let result = inspect_http(&data[..], 100000, 100, 8192).unwrap();

    assert!(matches!(result, HttpInspectionResult::SlowlorisDetected(_)));
}

#[test]
fn test_header_size_limit() {
    let mut data = b"GET / HTTP/1.1\r\n".to_vec();
    // Add one huge header
    let huge_value = "x".repeat(10000);
    data.extend_from_slice(format!("Big-Header: {}\r\n", huge_value).as_bytes());
    data.extend_from_slice(b"\r\n");

    let result = inspect_http(&data[..], 8192, 100, 20000).unwrap();

    assert!(matches!(result, HttpInspectionResult::SlowlorisDetected(_)));
}

#[test]
fn test_malformed_header() {
    let data = b"GET / HTTP/1.1\r\nMalformedHeaderNoColon\r\n\r\n";

    let result = inspect_http(&data[..], 8192, 100, 8192).unwrap();

    assert!(matches!(result, HttpInspectionResult::SlowlorisDetected(_)));
}

#[test]
fn test_looks_like_http() {
    assert!(looks_like_http(b"GET /"));
    assert!(looks_like_http(b"POST /api"));
    assert!(looks_like_http(b"HEAD /index"));
    assert!(!looks_like_http(b"MQTT"));
    assert!(!looks_like_http(b"\x10\x0f\x00"));
    assert!(!looks_like_http(b"GET")); // No space after
}

#[test]
fn looks_like_http_knows_all_nine_methods() {
    for m in [
        "GET", "POST", "PUT", "DELETE", "HEAD", "OPTIONS", "PATCH", "CONNECT", "TRACE",
    ] {
        let with_space = format!("{} /x", m);
        assert!(looks_like_http(with_space.as_bytes()), "{}", m);
        // the method alone, or followed by something else than a space
        assert!(!looks_like_http(m.as_bytes()), "{}", m);
        let with_tab = format!("{}\t/x", m);
        assert!(!looks_like_http(with_tab.as_bytes()), "{}", m);
        let glued = format!("{}/ x", m);
        assert!(!looks_like_http(glued.as_bytes()), "{}", m);
    }
    for (i, m) in [
        "GET", "POST", "PUT", "DELETE", "HEAD", "OPTIONS", "PATCH", "CONNECT", "TRACE",
    ]
    .iter()
    .enumerate()
    {
        assert_eq!(http_method(i), *m);
    }
}

#[test]
fn looks_like_http_edge_cases() {
    assert!(looks_like_http(b"GET "));
    assert!(looks_like_http(b"PUT "));
    assert!(!looks_like_http(b""));
    assert!(!looks_like_http(b"GE"));
    assert!(!looks_like_http(b"get /"));
    assert!(!looks_like_http(b" GET /"));
    assert!(!looks_like_http(b"GETS /"));
    assert!(!looks_like_http(b"BREW /pot HTCPCP/1.0"));
    assert!(!looks_like_http(b"POS /"));
    // the sixteen bytes of a first look at a CONNECT packet
    assert!(!looks_like_http(b"\x10\x0f\x00\x04MQTT\x04\x02\x00\x3c\x00\x03ci"));
}

#[test]
fn http_detected_without_headers() {
    assert_eq!(
        inspect_http(b"GET / HTTP/1.1\r\n\r\n", 8192, 100, 8192),
        Ok(HttpInspectionResult::HttpDetected)
    );
    // what follows the head is not read
    assert_eq!(
        inspect_http(b"GET / HTTP/1.1\r\nHost: x\r\n\r\n\xff\xfe body", 8192, 100, 8192),
        Ok(HttpInspectionResult::HttpDetected)
    );
}

#[test]
fn http_probe_is_detected() {
    assert_eq!(
        inspect_http(b"GET / HTTP/1.1\r\nHost: x\r\n\r\n", 8192, 100, 8192),
        Ok(HttpInspectionResult::HttpDetected)
    );
}

#[test]
fn not_http_when_first_line_is_no_request_line() {
    for line in [
        &b"hello world\r\n\r\n"[..],
        b"GET /\r\n\r\n",
        b"GET / HTTP/1.1 extra\r\n\r\n",
        b"FETCH / HTTP/1.1\r\n\r\n",
        b"get / HTTP/1.1\r\n\r\n",
        b"GET / http/1.1\r\n\r\n",
        b"GET / HTTP\r\n\r\n",
        b"\r\n",
        b"   \r\n",
    ] {
        assert_eq!(inspect_http(line, 8192, 100, 8192), Ok(HttpInspectionResult::NotHttp));
    }
    // no input at all
    assert_eq!(inspect_http(b"", 8192, 100, 8192), Ok(HttpInspectionResult::NotHttp));
}

#[test]
fn request_line_is_cut_at_any_whitespace() {
    for line in [
        &b"  GET   /   HTTP/1.1  \r\n\r\n"[..],
        b"GET\t/\tHTTP/1.1\r\n\r\n",
        b"GET / HTTP/\r\n\r\n",
        "GET\u{a0}/\u{3000}HTTP/1.1\r\n\r\n".as_bytes(),
    ] {
        assert_eq!(inspect_http(line, 8192, 100, 8192), Ok(HttpInspectionResult::HttpDetected));
    }
    // a lone carriage return inside a word cuts it in two
    assert_eq!(
        inspect_http(b"GET /a\rb HTTP/1.1\r\n\r\n", 8192, 100, 8192),
        Ok(HttpInspectionResult::NotHttp)
    );
    assert_eq!(
        inspect_http(b"GET\r/ HTTP/1.1\r\n\r\n", 8192, 100, 8192),
        Ok(HttpInspectionResult::HttpDetected)
    );
}

#[test]
fn slowloris_reasons_are_exact() {
    // a header that brings the count above the limit
    assert_eq!(
        inspect_http(b"GET / HTTP/1.1\r\nA: 1\r\nB: 2\r\n\r\n", 8192, 1, 8192),
        slowloris("max header count exceeded")
    );
    assert_eq!(
        inspect_http(b"GET / HTTP/1.1\r\nA: 1\r\n\r\n", 8192, 0, 8192),
        slowloris("max header count exceeded")
    );
    assert_eq!(
        inspect_http(b"GET / HTTP/1.1\r\nA: 1\r\n", 8192, 100, 8192),
        slowloris("incomplete headers (EOF)")
    );
    assert_eq!(
        inspect_http(b"GET / HTTP/1.1\r\n", 8192, 100, 8192),
        slowloris("incomplete headers (EOF)")
    );
    assert_eq!(
        inspect_http(b"GET / HTTP/1.1\r\nNoColonHere\r\n\r\n", 8192, 100, 8192),
        slowloris("malformed header line")
    );
    assert_eq!(
        inspect_http(b"GET / HTTP/1.1\r\nA: 1\r\nB: 2\r\n\r\n", 10, 100, 8192),
        slowloris("max header size exceeded")
    );
}

#[test]
fn header_size_counts_each_line_with_its_terminator() {
    // "A: 1" is 4 bytes and counts 6; the empty line counts 2.
    let data = b"GET / HTTP/1.1\r\nA: 1\r\n\r\n";
    assert_eq!(inspect_http(data, 8, 100, 8192), Ok(HttpInspectionResult::HttpDetected));
    assert_eq!(inspect_http(data, 7, 100, 8192), slowloris("max header size exceeded"));
    assert_eq!(inspect_http(data, 6, 100, 8192), slowloris("max header size exceeded"));
    assert_eq!(inspect_http(data, 5, 100, 8192), slowloris("max header size exceeded"));
    // the request line does not count
    assert_eq!(
        inspect_http(b"GET /a/very/long/target HTTP/1.1\r\n\r\n", 2, 100, 8192),
        Ok(HttpInspectionResult::HttpDetected)
    );
    assert_eq!(
        inspect_http(b"GET / HTTP/1.1\r\n\r\n", 1, 100, 8192),
        slowloris("max header size exceeded")
    );
}

#[test]
fn line_size_limit_is_invalid_data() {
    // A header line of 4 bytes needs room for 5: the carriage return is
    // in the buffer when the line feed is read.
    let data = b"GET / HTTP/1.1\r\nA: 1\r\n\r\n";
    assert_eq!(inspect_http(data, 8192, 100, 6), Ok(HttpInspectionResult::HttpDetected));
    assert_eq!(inspect_http(data, 8192, 100, 5), Err(ReadError::InvalidData));
    assert_eq!(inspect_http(data, 8192, 100, 4), Err(ReadError::InvalidData));
    assert_eq!(inspect_http(data, 8192, 100, 0), Err(ReadError::InvalidData));
    // the empty line alone needs room for the carriage return
    assert_eq!(
        inspect_http(b"GET / HTTP/1.1\r\n\r\n", 8192, 100, 1),
        Err(ReadError::InvalidData)
    );
    assert_eq!(
        inspect_http(b"GET / HTTP/1.1\r\n\r\n", 8192, 100, 2),
        Ok(HttpInspectionResult::HttpDetected)
    );
}

#[test]
fn request_line_size_limit() {
    assert_eq!(MAX_REQUEST_LINE_SIZE, 8192);
    // 8190 bytes of line and the carriage return fit below 8192
    let mut fits = b"GET /".to_vec();
    fits.extend(std::iter::repeat(b'a').take(8190 - 5 - 9));
    fits.extend_from_slice(b" HTTP/1.1\r\n\r\n");
    assert_eq!(fits.len(), 8190 + 4);
    assert_eq!(inspect_http(&fits, 8192, 100, 8192), Ok(HttpInspectionResult::HttpDetected));
    let mut too_long = b"GET /".to_vec();
    too_long.extend(std::iter::repeat(b'a').take(8191 - 5 - 9));
    too_long.extend_from_slice(b" HTTP/1.1\r\n\r\n");
    assert_eq!(inspect_http(&too_long, 8192, 100, 8192), Err(ReadError::InvalidData));
    let endless = vec![b'a'; 10_000];
    assert_eq!(inspect_http(&endless, 8192, 100, 8192), Err(ReadError::InvalidData));
}

#[test]
fn input_that_ends_inside_a_line() {
    assert_eq!(inspect_http(b"GET / HT", 8192, 100, 8192), Err(ReadError::UnexpectedEof));
    assert_eq!(
        inspect_http(b"GET / HTTP/1.1\r", 8192, 100, 8192),
        Err(ReadError::UnexpectedEof)
    );
    assert_eq!(
        inspect_http(b"GET / HTTP/1.1\r\nHost: x", 8192, 100, 8192),
        Err(ReadError::UnexpectedEof)
    );
    // a bare line feed ends no line
    assert_eq!(
        inspect_http(b"GET / HTTP/1.1\n\n", 8192, 100, 8192),
        Err(ReadError::UnexpectedEof)
    );
}

#[test]
fn lines_must_be_utf8() {
    assert_eq!(
        inspect_http(b"GET /\xff HTTP/1.1\r\n\r\n", 8192, 100, 8192),
        Err(ReadError::InvalidData)
    );
    assert_eq!(
        inspect_http(b"GET / HTTP/1.1\r\nName: \xc3\x28\r\n\r\n", 8192, 100, 8192),
        Err(ReadError::InvalidData)
    );
    // an encoded surrogate and an overlong form are no UTF-8 either
    assert_eq!(
        inspect_http(b"GET / HTTP/1.1\r\nName: \xed\xa0\x80\r\n\r\n", 8192, 100, 8192),
        Err(ReadError::InvalidData)
    );
    assert_eq!(
        inspect_http(b"GET / HTTP/1.1\r\nName: \xc0\xaf\r\n\r\n", 8192, 100, 8192),
        Err(ReadError::InvalidData)
    );
    // well-formed text beyond ASCII passes, and counts by its bytes
    let data = "GET /caf\u{e9} HTTP/1.1\r\nName: v\u{e4}rde \u{1f600}\r\n\r\n".as_bytes();
    assert_eq!(inspect_http(data, 8192, 100, 8192), Ok(HttpInspectionResult::HttpDetected));
    let header_bytes = "Name: v\u{e4}rde \u{1f600}".len();
    assert_eq!(header_bytes, 17);
    assert_eq!(
        inspect_http(data, header_bytes + 2 + 2, 100, 8192),
        Ok(HttpInspectionResult::HttpDetected)
    );
    assert_eq!(
        inspect_http(data, header_bytes + 2 + 1, 100, 8192),
        slowloris("max header size exceeded")
    );
    // a colon must be a character of the line
    assert_eq!(
        inspect_http("GET / HTTP/1.1\r\nName\u{ff1a} value\r\n\r\n".as_bytes(), 8192, 100, 8192),
        slowloris("malformed header line")
    );
}

#[test]
fn parse_request_line_gives_the_three_words() {
    assert_eq!(
        parse_request_line("GET /index.html HTTP/1.1"),
        Some(RequestLine {
            method: "GET".to_string(),
            uri: "/index.html".to_string(),
            version: "HTTP/1.1".to_string(),
        })
    );
    assert_eq!(
        parse_request_line(" \t OPTIONS  *\u{2003}HTTP/2 \r"),
        Some(RequestLine {
            method: "OPTIONS".to_string(),
            uri: "*".to_string(),
            version: "HTTP/2".to_string(),
        })
    );
    assert_eq!(
        parse_request_line("DELETE /caf\u{e9}/\u{1f600} HTTP/1.0"),
        Some(RequestLine {
            method: "DELETE".to_string(),
            uri: "/caf\u{e9}/\u{1f600}".to_string(),
            version: "HTTP/1.0".to_string(),
        })
    );
    assert_eq!(parse_request_line(""), None);
    assert_eq!(parse_request_line("GET"), None);
    assert_eq!(parse_request_line("GET /"), None);
    assert_eq!(parse_request_line("GET / HTTP/1.1 x"), None);
    assert_eq!(parse_request_line("GETX / HTTP/1.1"), None);
    assert_eq!(parse_request_line("GE / HTTP/1.1"), None);
    assert_eq!(parse_request_line("GET / XHTTP/1.1"), None);
    assert_eq!(parse_request_line("GET / HTTP"), None);
    assert_eq!(parse_request_line("Get / HTTP/1.1"), None);
}

#[test]
fn whitespace_is_the_unicode_property() {
    for c in [
        '\t', '\n', '\u{b}', '\u{c}', '\r', ' ', '\u{85}', '\u{a0}', '\u{1680}', '\u{2000}',
        '\u{2005}', '\u{200a}', '\u{2028}', '\u{2029}', '\u{202f}', '\u{205f}', '\u{3000}',
    ] {
        assert!(char_is_whitespace(c), "{:?}", c);
    }
    for c in [
        'a', '0', '/', ':', '\0', '\u{8}', '\u{e}', '\u{1f}', '\u{84}', '\u{86}', '\u{9f}',
        '\u{a1}', '\u{180e}', '\u{1fff}', '\u{200b}', '\u{200c}', '\u{2027}', '\u{202a}',
        '\u{2060}', '\u{2fff}', '\u{3001}', '\u{feff}',
    ] {
        assert!(!char_is_whitespace(c), "{:?}", c);
    }
    // the same set as the standard library knows
    let mut code = 0u32;
    while code <= 0x10_ffff {
        if let Some(c) = char::from_u32(code) {
            assert_eq!(char_is_whitespace(c), c.is_whitespace(), "{:?}", c);
        }
        code += 1;
    }
}

#[test]
fn split_whitespace_gives_the_ranges_of_the_words() {
    let chars = chars_of("  ab c\t\tdef ");
    assert_eq!(chars.len(), 12);
    assert_eq!(split_whitespace(&chars), vec![(2, 4), (5, 6), (8, 11)]);
    assert_eq!(split_whitespace(&chars_of("")), vec![]);
    assert_eq!(split_whitespace(&chars_of(" \t ")), vec![]);
    assert_eq!(split_whitespace(&chars_of("x")), vec![(0, 1)]);
    // indices count characters, not bytes
    assert_eq!(split_whitespace(&chars_of("\u{e9}\u{e9} \u{1f600}")), vec![(0, 2), (3, 4)]);
    assert_eq!(chars_of("a\u{e9}\u{1f600}"), vec!['a', '\u{e9}', '\u{1f600}']);
    // the same words as the standard library cuts
    for text in ["GET / HTTP/1.1", " a  b\u{a0}c\u{3000}", "\u{2028}x\u{85}y z\r"] {
        let chars = chars_of(text);
        let words: Vec<String> = split_whitespace(&chars)
            .iter()
            .map(|r| chars[r.0..r.1].iter().collect())
            .collect();
        let expected: Vec<String> = text.split_whitespace().map(|w| w.to_string()).collect();
        assert_eq!(words, expected);
    }
}

fn limits() -> HttpLimits {
    HttpLimits { max_header_size: 8192, max_header_count: 100, max_header_line_size: 8192 }
}

fn feed_all(mut inspector: HttpInspector, bytes: &[u8]) -> HttpInspector {
    for &b in bytes {
        inspector = match inspector.feed(ReadEvent::Byte(b)) {
            HttpProgress::Continue(next) => next,
            other => panic!("inspection ended early: {:?}", other),
        };
    }
    inspector
}

#[test]
fn inspector_byte_by_byte() {
    let inspector = HttpInspector::new(limits());
    assert_eq!(inspector.limits(), limits());
    let inspector = feed_all(inspector, b"GET / HTTP/1.1\r\nHost: x\r\n\r");
    match inspector.feed(ReadEvent::Byte(b'\n')) {
        HttpProgress::Done(HttpInspectionResult::HttpDetected) => {}
        other => panic!("{:?}", other),
    }
    // the verdict on the request line falls with its line feed
    let inspector = feed_all(HttpInspector::new(limits()), b"MQTT is not HTTP\r");
    match inspector.feed(ReadEvent::Byte(b'\n')) {
        HttpProgress::Done(HttpInspectionResult::NotHttp) => {}
        other => panic!("{:?}", other),
    }
}

#[test]
fn inspector_deadlines_and_failures() {
    let stalled = feed_all(HttpInspector::new(limits()), b"GET / HT");
    match stalled.feed(ReadEvent::IdleTimeout) {
        HttpProgress::Failed(ReadError::TimedOut) => {}
        other => panic!("{:?}", other),
    }
    let slow = feed_all(HttpInspector::new(limits()), b"GET / HTTP/1.1\r\nA: 1\r\nB");
    match slow.feed(ReadEvent::DeadlineExceeded) {
        HttpProgress::Done(HttpInspectionResult::SlowlorisDetected(reason)) => {
            assert_eq!(reason, "total request timeout exceeded")
        }
        other => panic!("{:?}", other),
    }
    let broken = feed_all(HttpInspector::new(limits()), b"GET");
    match broken.feed(ReadEvent::Failed) {
        HttpProgress::Failed(ReadError::Other) => {}
        other => panic!("{:?}", other),
    }
    match HttpInspector::new(limits()).feed(ReadEvent::Eof) {
        HttpProgress::Done(HttpInspectionResult::NotHttp) => {}
        other => panic!("{:?}", other),
    }
    match feed_all(HttpInspector::new(limits()), b"G").feed(ReadEvent::Eof) {
        HttpProgress::Failed(ReadError::UnexpectedEof) => {}
        other => panic!("{:?}", other),
    }
    let between = feed_all(HttpInspector::new(limits()), b"GET / HTTP/1.1\r\n");
    match between.feed(ReadEvent::Eof) {
        HttpProgress::Done(HttpInspectionResult::SlowlorisDetected(reason)) => {
            assert_eq!(reason, "incomplete headers (EOF)")
        }
        other => panic!("{:?}", other),
    }
}

#[test]
fn inspector_fails_as_soon_as_the_line_is_full() {
    let tight = HttpLimits { max_header_size: 8192, max_header_count: 100, max_header_line_size: 3 };
    let inspector = feed_all(HttpInspector::new(tight), b"GET / HTTP/1.1\r\nA:");
    // the third byte fills the line: no further byte is asked for
    match inspector.feed(ReadEvent::Byte(b'1')) {
        HttpProgress::Failed(ReadError::InvalidData) => {}
        other => panic!("{:?}", other),
    }
}

#[test]
fn inspector_counts_a_header_when_its_line_ends() {
    let none = HttpLimits { max_header_size: 8192, max_header_count: 0, max_header_line_size: 8192 };
    // the request line alone breaks no limit
    let inspector = feed_all(HttpInspector::new(none), b"GET / HTTP/1.1\r\nA: 1\r");
    match inspector.feed(ReadEvent::Byte(b'\n')) {
        HttpProgress::Done(HttpInspectionResult::SlowlorisDetected(reason)) => {
            assert_eq!(reason, "max header count exceeded")
        }
        other => panic!("{:?}", other),
    }
    let inspector = feed_all(HttpInspector::new(none), b"GET / HTTP/1.1\r\n\r");
    match inspector.feed(ReadEvent::Byte(b'\n')) {
        HttpProgress::Done(HttpInspectionResult::HttpDetected) => {}
        other => panic!("{:?}", other),
    }
    let one = HttpLimits { max_header_size: 8192, max_header_count: 1, max_header_line_size: 8192 };
    let inspector = feed_all(HttpInspector::new(one), b"GET / HTTP/1.1\r\nA: 1\r\n\r");
    match inspector.feed(ReadEvent::Byte(b'\n')) {
        HttpProgress::Done(HttpInspectionResult::HttpDetected) => {}
        other => panic!("{:?}", other),
    }
}

#[test]
fn quick_check_and_inspection_agree() {
    // inputs that fail the quick check and whose first line is no request line
    for input in [
        &b"MQTT / HTTP/1.1\r\n\r\n"[..],
        b"GET/ HTTP/1.1\r\n\r\n",
        b"\x10\x0f\x00\x04MQTT\r\n",
        b"get / HTTP/1.1\r\nHost: x\r\n\r\n",
    ] {
        for cut in 0..input.len().min(16) {
            assert!(!looks_like_http(&input[..cut]) || cut >= 4);
        }
        assert!(!looks_like_http(&input[..input.len().min(16)]));
        assert_eq!(inspect_http(input, 8192, 100, 8192), Ok(HttpInspectionResult::NotHttp));
    }
}

#[test]
fn read_line_cases() {
    assert_eq!(read_line(b"abc\r\ndef", 8192), Ok(Some(("abc".to_string(), 5))));
    assert_eq!(read_line(b"\r\n", 8192), Ok(Some((String::new(), 2))));
    assert_eq!(read_line(b"", 8192), Ok(None));
    assert_eq!(read_line(b"abc", 8192), Err(ReadError::UnexpectedEof));
    assert_eq!(read_line(b"abc\r", 8192), Err(ReadError::UnexpectedEof));
    assert_eq!(read_line(b"abc\n", 8192), Err(ReadError::UnexpectedEof));
    // only the carriage return before the line feed is taken off
    assert_eq!(read_line(b"a\rb\r\r\n", 8192), Ok(Some(("a\rb\r".to_string(), 6))));
    assert_eq!(read_line(b"a\nb\r\nc\r\n", 8192), Ok(Some(("a\nb".to_string(), 5))));
    // a line feed at the start ends no line
    assert_eq!(read_line(b"\n\r\n", 8192), Ok(Some(("\n".to_string(), 3))));
    // the line with its carriage return must stay below the cap
    assert_eq!(read_line(b"abc\r\n", 5), Ok(Some(("abc".to_string(), 5))));
    assert_eq!(read_line(b"abc\r\n", 4), Err(ReadError::InvalidData));
    assert_eq!(read_line(b"abc", 3), Err(ReadError::InvalidData));
    assert_eq!(read_line(b"abc", 4), Err(ReadError::UnexpectedEof));
    assert_eq!(read_line(b"", 0), Err(ReadError::InvalidData));
    assert_eq!(read_line(b"\r\n", 1), Err(ReadError::InvalidData));
    assert_eq!(read_line(b"\r\n", 2), Ok(Some((String::new(), 2))));
    // text
    assert_eq!(
        read_line("caf\u{e9} \u{1f600}\r\n".as_bytes(), 8192),
        Ok(Some(("caf\u{e9} \u{1f600}".to_string(), 12)))
    );
    assert_eq!(read_line(b"caf\xe9\r\n", 8192), Err(ReadError::InvalidData));
    assert_eq!(read_line(b"\xf0\x9f\x98\r\n", 8192), Err(ReadError::InvalidData));
}

#[test]
fn header_count_limit_is_the_most_headers_allowed() {
    // one header under a limit of one
    assert_eq!(
        inspect_http(b"GET / HTTP/1.1\r\nA: b\r\n\r\n", 8192, 1, 8192),
        Ok(HttpInspectionResult::HttpDetected)
    );
    assert_eq!(
        inspect_http(b"GET / HTTP/1.1\r\nA: 1\r\n\r\n", 8192, 2, 8192),
        Ok(HttpInspectionResult::HttpDetected)
    );
    // no header under a limit of none
    assert_eq!(
        inspect_http(b"GET / HTTP/1.1\r\n\r\n", 8192, 0, 8192),
        Ok(HttpInspectionResult::HttpDetected)
    );
    // exactly as many headers as the limit, and one more
    for limit in [1usize, 2, 3, 10, 100] {
        let mut at_limit = b"GET / HTTP/1.1\r\n".to_vec();
        for i in 0..limit {
            at_limit.extend_from_slice(format!("H{}: v\r\n", i).as_bytes());
        }
        let mut above = at_limit.clone();
        above.extend_from_slice(b"One-More: v\r\n");
        // the verdict on the header above the limit falls with its line
        assert_eq!(
            inspect_http(&above, 100_000, limit, 8192),
            slowloris("max header count exceeded")
        );
        above.extend_from_slice(b"\r\n");
        assert_eq!(
            inspect_http(&above, 100_000, limit, 8192),
            slowloris("max header count exceeded")
        );
        // at the limit the head may still end, or stop short
        assert_eq!(
            inspect_http(&at_limit, 100_000, limit, 8192),
            slowloris("incomplete headers (EOF)")
        );
        at_limit.extend_from_slice(b"\r\n");
        assert_eq!(
            inspect_http(&at_limit, 100_000, limit, 8192),
            Ok(HttpInspectionResult::HttpDetected)
        );
    }
    // a line without a colon is no header: it is malformed, not one too many
    assert_eq!(
        inspect_http(b"GET / HTTP/1.1\r\nA: 1\r\nNoColon\r\n\r\n", 8192, 1, 8192),
        slowloris("malformed header line")
    );
    // the size limit is looked at before the count
    assert_eq!(
        inspect_http(b"GET / HTTP/1.1\r\nA: 1\r\nB: 2\r\n\r\n", 11, 1, 8192),
        slowloris("max header size exceeded")
    );
}

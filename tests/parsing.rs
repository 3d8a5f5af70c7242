use sync_http_server::parser::{
    parse_buffered, parse_line_to_kv, parse_request, parse_start_line, LineReader, LineScan,
    ParseError, ParseStep, StartToken, MAX_LINE_LEN,
};
use sync_http_server::request::{Method, Request};
use sync_http_server::server::{has_request_closed, next_action, Action};

fn reader_with(bytes: &[u8], ended: bool) -> LineReader {
    let mut r = LineReader::new();
    r.fill(bytes);
    if ended {
        r.fill(&[]);
    }
    r
}

fn complete(step: ParseStep) -> (Request, usize) {
    match step {
        ParseStep::Complete(req, n) => (req, n),
        other => panic!("expected a request, got {:?}", other),
    }
}

fn failed(step: ParseStep) -> ParseError {
    match step {
        ParseStep::Failed(e) => e,
        other => panic!("expected an error, got {:?}", other),
    }
}

fn header<'a>(req: &'a Request, name: &str) -> Option<&'a str> {
    req.headers.iter().find(|(k, _)| k == name).map(|(_, v)| v.as_str())
}

#[test]
fn start_line_without_headers() {
    let mut r = reader_with(b"GET /a HTTP/1.1\r\n\r\n", false);
    let (req, n) = complete(parse_request(&mut r));
    assert_eq!(n, 19);
    assert_eq!(req.start_line.method, Method::Get);
    assert_eq!(req.start_line.path, "/a");
    assert_eq!(req.start_line.version, "HTTP/1.1");
    assert!(req.headers.is_empty());
    assert!(req.body.is_none());
    assert_eq!(r.pending_len(), 0);
}

#[test]
fn content_length_body_is_exact() {
    let bytes = b"POST /p HTTP/1.1\r\nContent-Length: 5\r\n\r\nhelloGET";
    let mut r = reader_with(bytes, false);
    let (req, n) = complete(parse_request(&mut r));
    assert_eq!(req.body, Some(b"hello".to_vec()));
    assert_eq!(n, bytes.len() - 3);
    assert_eq!(r.pending_len(), 3);
    assert_eq!(header(&req, "content-length"), Some("5"));
}

#[test]
fn body_waits_for_missing_bytes() {
    let mut r = reader_with(b"POST / HTTP/1.1\r\nContent-Length: 5\r\n\r\nhel", false);
    assert!(matches!(parse_request(&mut r), ParseStep::Incomplete));
    r.fill(b"lo");
    let (req, _) = complete(parse_request(&mut r));
    assert_eq!(req.body, Some(b"hello".to_vec()));
}

#[test]
fn body_cut_short_by_end_of_stream() {
    let mut r = reader_with(b"POST / HTTP/1.1\r\nContent-Length: 5\r\n\r\nhel", true);
    assert_eq!(failed(parse_request(&mut r)), ParseError::UnexpectedEndOfStream);
}

#[test]
fn read_n_bytes_leaves_the_rest() {
    let mut r = reader_with(b"hello world", false);
    assert_eq!(r.read_n_bytes(5), Ok(Some(b"hello".to_vec())));
    assert_eq!(r.pending_len(), 6);
    assert_eq!(r.read_n_bytes(7), Ok(None));
    r.fill(&[]);
    assert_eq!(r.read_n_bytes(7), Err(ParseError::UnexpectedEndOfStream));
    assert_eq!(r.read_n_bytes(6), Ok(Some(b" world".to_vec())));
}

#[test]
fn overlong_line_without_crlf() {
    let line = vec![b'a'; MAX_LINE_LEN + 2];
    let mut r = reader_with(&line, false);
    assert_eq!(failed(parse_request(&mut r)), ParseError::LineTooLong);
    assert!(matches!(r.next_line(), LineScan::TooLong));
}

#[test]
fn longest_line_is_accepted() {
    let mut bytes = vec![b'a'; MAX_LINE_LEN];
    bytes.extend_from_slice(b"\r\nrest");
    let mut r = reader_with(&bytes, false);
    match r.next_line() {
        LineScan::Line(l, n) => {
            assert_eq!(l.len(), MAX_LINE_LEN);
            assert_eq!(n, MAX_LINE_LEN + 2);
        }
        other => panic!("unexpected {:?}", other),
    }
    assert_eq!(r.pending_len(), 4);
}

#[test]
fn long_line_with_buffered_crlf_is_accepted() {
    let mut bytes = b"GET / HTTP/1.1\r\nX: ".to_vec();
    bytes.extend(vec![b'b'; MAX_LINE_LEN]);
    bytes.extend_from_slice(b"\r\n\r\n");
    let (req, n) = complete(parse_buffered(&bytes, false));
    assert_eq!(n, bytes.len());
    assert_eq!(header(&req, "x").map(|v| v.len()), Some(MAX_LINE_LEN));
}

#[test]
fn watermark_boundary_without_crlf() {
    let mut at_limit = reader_with(&vec![b'a'; MAX_LINE_LEN], false);
    assert!(matches!(at_limit.next_line(), LineScan::NeedMore));
    let mut past_limit = reader_with(&vec![b'a'; MAX_LINE_LEN + 1], false);
    assert!(matches!(past_limit.next_line(), LineScan::TooLong));
    assert_eq!(failed(parse_request(&mut past_limit)), ParseError::LineTooLong);
    let mut ended = reader_with(&vec![b'a'; MAX_LINE_LEN + 1], true);
    assert!(matches!(ended.next_line(), LineScan::TooLong));
}

#[test]
fn header_trimming_uses_unicode_whitespace() {
    assert_eq!(parse_line_to_kv(b"a:\x0b"), Some((b"a".to_vec(), Vec::new())));
    let line = "\u{a0}\u{3000}Host\u{2009}: \u{85}x y\u{200a}\u{1680}";
    assert_eq!(
        parse_line_to_kv(line.as_bytes()),
        Some((b"host".to_vec(), b"x y".to_vec()))
    );
    assert_eq!(
        parse_line_to_kv("k: \u{e9}\u{a0}".as_bytes()),
        Some((b"k".to_vec(), "\u{e9}".as_bytes().to_vec()))
    );
    let text = "GET / HTTP/1.1\r\nA:\u{2028}v\u{2029}\r\n\r\n";
    let (req, _) = complete(parse_buffered(text.as_bytes(), false));
    assert_eq!(header(&req, "a"), Some("v"));
}

#[test]
fn two_pipelined_requests() {
    let bytes = b"GET /one HTTP/1.1\r\nHost: x\r\n\r\nGET /two HTTP/1.1\r\n\r\n";
    let mut r = reader_with(bytes, true);
    let (first, _) = complete(parse_request(&mut r));
    assert_eq!(next_action(&ParseStep::Complete(first, 0)), Action::Respond { close_after: false });
    let (second, _) = complete(parse_request(&mut r));
    assert_eq!(second.start_line.path, "/two");
    let last = parse_request(&mut r);
    assert_eq!(next_action(&last), Action::Close);
}

#[test]
fn close_header_stops_after_one_response() {
    let bytes = b"GET / HTTP/1.1\r\nConnection: Close\r\n\r\nGET /next HTTP/1.1\r\n\r\n";
    let mut r = reader_with(bytes, false);
    let step = parse_request(&mut r);
    assert_eq!(next_action(&step), Action::Respond { close_after: true });
    let (req, _) = complete(step);
    assert!(has_request_closed(&req));
}

#[test]
fn keep_alive_header_does_not_close() {
    let (req, _) = complete(parse_buffered(b"GET / HTTP/1.1\r\nconnection: keep-alive\r\n\r\n", false));
    assert!(!has_request_closed(&req));
}

#[test]
fn header_names_fold_case_and_last_wins() {
    let bytes = b"POST / HTTP/1.1\r\nContent-Length: 2\r\nHOST: a\r\ncontent-length: 3\r\n\r\nabcd";
    let (req, n) = complete(parse_buffered(bytes, false));
    assert_eq!(req.headers.len(), 2);
    assert_eq!(header(&req, "content-length"), Some("3"));
    assert_eq!(header(&req, "host"), Some("a"));
    assert_eq!(req.body, Some(b"abc".to_vec()));
    assert_eq!(n, bytes.len() - 1);
}

#[test]
fn immediate_disconnect_is_quiet() {
    let step = parse_request(&mut reader_with(b"", true));
    assert_eq!(next_action(&step), Action::Close);
    assert_eq!(failed(step), ParseError::ConnectionAborted);
}

#[test]
fn nothing_yet_reads_more() {
    assert_eq!(next_action(&parse_request(&mut LineReader::new())), Action::ReadMore);
}

#[test]
fn chunked_delivery_matches_single_chunk() {
    let bytes: &[u8] = b"PUT /x?y=1 HTTP/1.1\r\nA: 1\r\nContent-Length: 4\r\n\r\nbodyGET";
    let (whole, whole_n) = complete(parse_buffered(bytes, false));
    for size in 1..bytes.len() {
        let mut r = LineReader::new();
        let mut got = None;
        for chunk in bytes.chunks(size) {
            r.fill(chunk);
            match parse_request(&mut r) {
                ParseStep::Incomplete => {}
                ParseStep::Complete(req, n) => {
                    got = Some((req, n));
                    break;
                }
                ParseStep::Failed(e) => panic!("chunk size {}: {:?}", size, e),
            }
        }
        let (req, n) = got.expect("request decided");
        assert_eq!(n, whole_n);
        assert_eq!(req.start_line.method, whole.start_line.method);
        assert_eq!(req.start_line.path, whole.start_line.path);
        assert_eq!(req.headers, whole.headers);
        assert_eq!(req.body, whole.body);
    }
}

#[test]
fn missing_start_line_tokens() {
    assert_eq!(
        failed(parse_buffered(b"\r\n\r\n", false)),
        ParseError::MissingStartLineToken(StartToken::Method)
    );
    assert_eq!(
        failed(parse_buffered(b"GET\r\n\r\n", false)),
        ParseError::MissingStartLineToken(StartToken::Path)
    );
    assert_eq!(
        failed(parse_buffered(b"GET /a  \r\n\r\n", false)),
        ParseError::MissingStartLineToken(StartToken::Version)
    );
}

#[test]
fn extra_start_line_tokens_are_ignored() {
    let sl = parse_start_line(b"  DELETE\t/z HTTP/1.0 extra").unwrap();
    assert_eq!(sl.method, Method::Delete);
    assert_eq!(sl.path, "/z");
    assert_eq!(sl.version, "HTTP/1.0");
}

#[test]
fn start_line_must_be_utf8() {
    assert!(matches!(
        parse_start_line(b"GET /\xff HTTP/1.1"),
        Err(ParseError::MalformedStartLine)
    ));
    let sl = parse_start_line("GET /caf\u{e9} HTTP/1.1".as_bytes()).unwrap();
    assert_eq!(sl.path, "/caf\u{e9}");
}

#[test]
fn header_must_be_utf8() {
    assert_eq!(
        failed(parse_buffered(b"GET / HTTP/1.1\r\nX: \xc3\x28\r\n\r\n", false)),
        ParseError::InvalidEncoding
    );
}

#[test]
fn invalid_content_length() {
    for value in ["abc", "-1", "+", "", "99999999999999999999999"] {
        let text = format!("POST / HTTP/1.1\r\nContent-Length: {}\r\n\r\n", value);
        assert_eq!(
            failed(parse_buffered(text.as_bytes(), true)),
            ParseError::InvalidContentLength,
            "value {:?}",
            value
        );
    }
    let (req, _) = complete(parse_buffered(b"POST / HTTP/1.1\r\nContent-Length: +12\r\n\r\n0123456789ab", false));
    assert_eq!(req.body, Some(b"0123456789ab".to_vec()));
}

#[test]
fn unterminated_header_block_at_end() {
    assert_eq!(
        failed(parse_buffered(b"GET / HTTP/1.1\r\nHost: x\r\n", true)),
        ParseError::UnexpectedEndOfStream
    );
    assert_eq!(
        failed(parse_buffered(b"GET / HTTP/1.1\r\nHost: x", true)),
        ParseError::UnexpectedEndOfStream
    );
    assert!(matches!(parse_buffered(b"GET / HTTP/1.1\r\nHost: x\r\n", false), ParseStep::Incomplete));
}

#[test]
fn last_line_without_crlf_at_end() {
    let mut r = reader_with(b"one\r\ntwo", true);
    assert!(matches!(r.next_line(), LineScan::Line(ref l, 5) if l == b"one"));
    assert!(matches!(r.next_line(), LineScan::Line(ref l, 3) if l == b"two"));
    assert!(matches!(r.next_line(), LineScan::End));
    let mut open = reader_with(b"one\r\ntwo", false);
    assert!(matches!(open.next_line(), LineScan::Line(_, 5)));
    assert!(matches!(open.next_line(), LineScan::NeedMore));
}

#[test]
fn bare_newline_is_no_terminator() {
    let mut r = reader_with(b"a\nb\r\n", false);
    assert!(matches!(r.next_line(), LineScan::Line(ref l, 5) if l == b"a\nb"));
}

#[test]
fn header_lines_split_at_first_colon() {
    assert_eq!(
        parse_line_to_kv(b"  X-Time : 12:30 "),
        Some((b"x-time".to_vec(), b"12:30".to_vec()))
    );
    assert_eq!(parse_line_to_kv(b"no colon here"), None);
    let (req, _) = complete(parse_buffered(b"GET / HTTP/1.1\r\nbroken\r\nA:b\r\n\r\n", false));
    assert_eq!(req.headers, vec![("a".to_string(), "b".to_string())]);
}

#[test]
fn methods_from_tokens() {
    let cases = [
        ("GET", Method::Get),
        ("HEAD", Method::Head),
        ("POST", Method::Post),
        ("PUT", Method::Put),
        ("DELETE", Method::Delete),
        ("UPDATE", Method::Update),
        ("CONNECT", Method::Connect),
        ("OPTIONS", Method::Options),
        ("TRACE", Method::Trace),
        ("PATCH", Method::Patch),
    ];
    for (token, method) in cases {
        assert_eq!(method.as_str(), token);
        assert_eq!(Method::from_token(token), method);
    }
    assert_eq!(Method::Unknown("BREW".to_string()).as_str(), "BREW");
    assert_eq!(Method::from_token("get"), Method::Unknown("get".to_string()));
    assert_eq!(Method::from_token("BREW"), Method::Unknown("BREW".to_string()));
}

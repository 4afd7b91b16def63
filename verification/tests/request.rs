use http_server::listener::headers::Headers;
use http_server::listener::reader::ByteReader;
use http_server::listener::request::{
    begin, read, HttpHeader, HttpRequestError, RequestLine, Step,
};

fn reader_over(text: &str) -> ByteReader {
    ByteReader::new(text.as_bytes().to_vec())
}

#[test]
fn parse_request_line_ok() {
    let line = RequestLine::from_str("GET / HTTP/1.1").unwrap();
    assert_eq!(line.method, "GET");
    assert_eq!(line.target, "/");
    assert_eq!(line.version, "HTTP/1.1");
}

#[test]
fn parse_request_line_no_sp() {
    match RequestLine::from_str("GET") {
        Err(_) => {}
        other => panic!("expected parse error, got {:?}", other),
    }
}

#[test]
fn parse_header_ok() {
    let HttpHeader { key, value } = HttpHeader::from_str("Host: localhost:4221").unwrap();
    assert_eq!(key, "host");
    assert_eq!(value, "localhost:4221");
}

#[test]
fn parse_full_request() {
    let request_str = format!(
        "{}{}{}{}",
        "GET /index.html HTTP/1.1\r\n",
        "Host: localhost:4221\r\n",
        "User-Agent: curl/7.64.1\r\n",
        "\r\n"
    );

    let mut reader = reader_over(&request_str);
    let request = read(&mut reader).unwrap().unwrap();

    assert_eq!(request.method, "GET");
    assert_eq!(request.target, "/index.html");
    assert_eq!(request.version, "HTTP/1.1");

    let headers = request.headers;
    assert_eq!(headers.len(), 2);
    assert_eq!(
        headers.get("host"),
        Some(&vec!["localhost:4221".to_string()])
    );
    assert_eq!(
        headers.get("user-agent"),
        Some(&vec!["curl/7.64.1".to_string()])
    );

    let body = request.body;
    assert_eq!(body.len(), 0);
}

#[test]
fn parse_empty_request() {
    let source: Vec<u8> = vec![];
    let mut reader = ByteReader::new(source);
    let request = read(&mut reader).unwrap();
    assert!(request.is_none());
}

#[test]
fn request_line_with_one_space_is_rejected() {
    assert!(RequestLine::from_str("GET /").is_err());
    assert!(RequestLine::from_str("").is_err());
}

#[test]
fn request_line_version_keeps_later_spaces() {
    let line = RequestLine::from_str("GET /a b c").unwrap();
    assert_eq!(line.method, "GET");
    assert_eq!(line.target, "/a");
    assert_eq!(line.version, "b c");
}

#[test]
fn request_line_parts_may_be_empty() {
    let line = RequestLine::from_str("  ").unwrap();
    assert_eq!(line.method, "");
    assert_eq!(line.target, "");
    assert_eq!(line.version, "");
}

#[test]
fn header_splits_at_first_colon() {
    let header = HttpHeader::from_str("Host: localhost:4221\r\n").unwrap();
    assert_eq!(header.key, "host");
    assert_eq!(header.value, "localhost:4221");
}

#[test]
fn header_key_is_lowered_and_trimmed() {
    let header = HttpHeader::from_str("  Content-TYPE \t:\t text/plain  \r\n").unwrap();
    assert_eq!(header.key, "content-type");
    assert_eq!(header.value, "text/plain");
}

#[test]
fn header_key_is_lowered_beyond_ascii() {
    let header = HttpHeader::from_str("X-\u{c9}T\u{c9}: 1").unwrap();
    assert_eq!(header.key, "x-\u{e9}t\u{e9}");
    assert_eq!(header.key, "X-\u{c9}T\u{c9}".to_lowercase());
}

#[test]
fn header_without_colon_is_rejected() {
    assert!(HttpHeader::from_str("Host localhost").is_err());
}

#[test]
fn header_from_parts_trims_both() {
    let header = HttpHeader::from_parts(" accept ", "\t*/* \r\n");
    assert_eq!(header.key, "accept");
    assert_eq!(header.value, "*/*");
}

#[test]
fn error_text_is_bad_request() {
    assert_eq!(HttpRequestError::opaque().to_string(), "HTTP 400 Bad Request");
}

#[test]
fn headers_accumulate_in_arrival_order() {
    let headers = Headers::new()
        .append("accept".to_string(), "a".to_string())
        .append("host".to_string(), "h".to_string())
        .append("accept".to_string(), "b".to_string())
        .append("accept".to_string(), "c".to_string());
    assert_eq!(headers.len(), 2);
    assert_eq!(
        headers.get("accept"),
        Some(&vec!["a".to_string(), "b".to_string(), "c".to_string()])
    );
    assert_eq!(headers.get("host"), Some(&vec!["h".to_string()]));
    assert_eq!(headers.get("Accept"), None);
    assert_eq!(headers.get("missing"), None);
    assert_eq!(Headers::new().len(), 0);
}

#[test]
fn header_lookup_ignores_case() {
    let headers = Headers::new().append("user-agent".to_string(), "curl".to_string());
    let expected = Some(&vec!["curl".to_string()]);
    assert_eq!(headers.get_ignore_case("User-Agent"), expected);
    assert_eq!(headers.get_ignore_case("USER-AGENT"), expected);
    assert_eq!(headers.get_ignore_case("user-agent"), expected);
    assert_eq!(headers.get_ignore_case(" User-Agent "), expected);
    assert_eq!(headers.get_ignore_case("user agent"), None);
    assert_eq!(headers.get_lowered(" user-agent\t"), expected);
    assert_eq!(headers.get_lowered("User-Agent"), None);
}

#[test]
fn repeated_headers_share_one_key_whatever_their_case() {
    let text = "GET / HTTP/1.1\r\nAccept: a\r\nACCEPT: b\r\naccept : c\r\n\r\n";
    let request = read(&mut reader_over(text)).unwrap().unwrap();
    assert_eq!(request.headers.len(), 1);
    assert_eq!(
        request.headers.get("accept"),
        Some(&vec!["a".to_string(), "b".to_string(), "c".to_string()])
    );
}

#[test]
fn body_has_declared_length() {
    let text = "POST /files/a HTTP/1.1\r\nContent-Length: 5\r\n\r\nhellorest";
    let mut reader = reader_over(text);
    let request = read(&mut reader).unwrap().unwrap();
    assert_eq!(request.method, "POST");
    assert_eq!(request.body, b"hello".to_vec());
    assert_eq!(reader.len(), 4);
}

#[test]
fn last_content_length_counts() {
    let text = "PUT /x HTTP/1.1\r\ncontent-length: 1\r\nContent-Length: +3\r\n\r\nabcdef";
    let mut reader = reader_over(text);
    let request = read(&mut reader).unwrap().unwrap();
    assert_eq!(request.body, b"abc".to_vec());
    assert_eq!(reader.len(), 3);
}

#[test]
fn zero_content_length_gives_empty_body() {
    let text = "POST /x HTTP/1.1\r\nContent-Length: 0\r\n\r\nGET / HTTP/1.1\r\n\r\n";
    let mut reader = reader_over(text);
    let first = read(&mut reader).unwrap().unwrap();
    assert_eq!(first.body.len(), 0);
    let second = read(&mut reader).unwrap().unwrap();
    assert_eq!(second.method, "GET");
    assert!(read(&mut reader).unwrap().is_none());
}

#[test]
fn get_has_no_body_whatever_the_headers_say() {
    let text = "GET / HTTP/1.1\r\nContent-Length: 3\r\n\r\nabc";
    let mut reader = reader_over(text);
    let request = read(&mut reader).unwrap().unwrap();
    assert_eq!(request.body.len(), 0);
    assert_eq!(reader.len(), 3);
}

#[test]
fn body_without_length_takes_the_rest() {
    let text = "POST /x HTTP/1.1\r\nHost: a\r\n\r\nbody\r\nGET / HTTP/1.1\r\n\r\n";
    let mut reader = reader_over(text);
    let request = read(&mut reader).unwrap().unwrap();
    assert_eq!(request.body, b"body\r\nGET / HTTP/1.1\r\n\r\n".to_vec());
    assert_eq!(reader.len(), 0);
    assert!(read(&mut reader).unwrap().is_none());
}

#[test]
fn bad_content_length_is_an_error() {
    for value in ["abc", "-1", "", "+", "1 2", "99999999999999999999999999", "0x10"] {
        let text = format!("POST /x HTTP/1.1\r\nContent-Length: {}\r\n\r\nbody", value);
        assert!(read(&mut reader_over(&text)).is_err(), "{:?}", value);
    }
}

#[test]
fn short_body_is_an_error_and_consumes_what_was_there() {
    let text = "POST /x HTTP/1.1\r\nContent-Length: 10\r\n\r\nabc";
    let mut reader = reader_over(text);
    assert!(read(&mut reader).is_err());
    assert_eq!(reader.len(), 0);
    assert!(read(&mut reader).unwrap().is_none());
}

#[test]
fn malformed_request_line_is_an_error_and_reading_goes_on() {
    let mut reader = reader_over("BADLINE\r\n\r\nGET / HTTP/1.1\r\n\r\n");
    assert!(read(&mut reader).is_err());
    assert_eq!(reader.len(), 20);
    assert!(read(&mut reader).is_err());
    let request = read(&mut reader).unwrap().unwrap();
    assert_eq!(request.target, "/");
    assert!(read(&mut reader).unwrap().is_none());
}

#[test]
fn malformed_header_is_an_error() {
    let mut reader = reader_over("GET / HTTP/1.1\r\nno colon here\r\n\r\n");
    assert!(read(&mut reader).is_err());
    assert_eq!(reader.len(), 2);
}

#[test]
fn invalid_utf8_line_is_an_error() {
    let mut data = b"GET / HTTP/1.1\r\nHost: ".to_vec();
    data.extend_from_slice(&[0xff, 0xfe]);
    data.extend_from_slice(b"\r\n\r\n");
    let mut reader = ByteReader::new(data);
    assert!(read(&mut reader).is_err());
    assert_eq!(reader.len(), 2);

    let mut reader = ByteReader::new(vec![0xc3, 0x28, b'\n']);
    assert!(read(&mut reader).is_err());
    assert_eq!(reader.len(), 0);
}

#[test]
fn headers_end_at_the_end_of_the_stream() {
    let mut reader = reader_over("GET /x HTTP/1.1\r\nHost: a");
    let request = read(&mut reader).unwrap().unwrap();
    assert_eq!(request.target, "/x");
    assert_eq!(request.headers.get("host"), Some(&vec!["a".to_string()]));
}

#[test]
fn line_feed_alone_ends_a_line() {
    let mut reader = reader_over("GET /x HTTP/1.1\nHost: a\n\nGET /y HTTP/1.1\n\n");
    assert_eq!(read(&mut reader).unwrap().unwrap().target, "/x");
    assert_eq!(read(&mut reader).unwrap().unwrap().target, "/y");
}

#[test]
fn reader_reads_lines_bytes_and_rest() {
    let mut reader = reader_over("one\ntwo\nthree");
    assert_eq!(reader.len(), 13);
    assert_eq!(reader.read_line(), Some("one\n".to_string()));
    assert_eq!(reader.read_exact(2), Some(b"tw".to_vec()));
    assert_eq!(reader.read_line(), Some("o\n".to_string()));
    assert_eq!(reader.read_exact(6), None);
    assert_eq!(reader.len(), 0);
    assert_eq!(reader.read_line(), Some(String::new()));
    assert_eq!(reader.read_to_end(), Vec::<u8>::new());

    let mut reader = reader_over("a\u{e9}\nrest");
    assert_eq!(reader.read_line(), Some("a\u{e9}\n".to_string()));
    assert_eq!(reader.read_to_end(), b"rest".to_vec());
}

#[test]
fn steps_follow_the_framing() {
    assert!(matches!(begin(""), Step::Done(Ok(None))));
    assert!(matches!(begin("\r\n"), Step::Done(Err(_))));
    let block = match begin("POST /x HTTP/1.1\r\n") {
        Step::Headers(block) => block,
        other => panic!("expected headers, got {:?}", other),
    };
    assert_eq!(block.line.method, "POST");
    let block = match block.feed("Content-Length: 4\r\n") {
        Step::Headers(block) => block,
        other => panic!("expected headers, got {:?}", other),
    };
    let pending = match block.feed("\r\n") {
        Step::Exact(pending, 4) => pending,
        other => panic!("expected a body of four bytes, got {:?}", other),
    };
    let request = pending.finish(b"abcd".to_vec());
    assert_eq!(request.body, b"abcd".to_vec());
    assert_eq!(request.version, "HTTP/1.1");

    let block = match begin("POST /x HTTP/1.1\r\n") {
        Step::Headers(block) => block,
        other => panic!("expected headers, got {:?}", other),
    };
    assert!(matches!(block.feed(""), Step::ToEnd(_)));

    let block = match begin("GET /x HTTP/1.1\r\n") {
        Step::Headers(block) => block,
        other => panic!("expected headers, got {:?}", other),
    };
    assert!(matches!(block.feed(" \t\r\n"), Step::Done(Ok(Some(_)))));
}

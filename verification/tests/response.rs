use http_server::listener::response::HttpResponse;

fn text(bytes: Vec<u8>) -> String {
    String::from_utf8(bytes).unwrap()
}

#[test]
fn status_has_no_headers_and_no_content() {
    let response = HttpResponse::status(404, "Not Found");
    assert_eq!(response.status_code, 404);
    assert_eq!(response.status_line, "Not Found");
    assert!(response.headers.is_empty());
    assert!(response.content.is_empty());
}

#[test]
fn ok_carries_content_and_its_type() {
    let response = HttpResponse::ok("text/plain", b"abc".to_vec());
    assert_eq!(response.status_code, 200);
    assert_eq!(response.status_line, "OK");
    assert_eq!(
        response.headers,
        vec![("content-type".to_string(), "text/plain".to_string())]
    );
    assert_eq!(response.content, b"abc".to_vec());
}

#[test]
fn ok_with_headers_keeps_them_in_order() {
    let headers = vec![
        ("b".to_string(), "2".to_string()),
        ("a".to_string(), "1".to_string()),
    ];
    let response = HttpResponse::ok_with_headers(b"x".to_vec(), headers.clone());
    assert_eq!(response.status_code, 200);
    assert_eq!(response.status_line, "OK");
    assert_eq!(response.headers, headers);
    assert_eq!(response.content, b"x".to_vec());
}

#[test]
fn content_length_is_found_whatever_its_case() {
    let mut response = HttpResponse::ok("text/plain", vec![]);
    assert!(!response.has_content_length());
    response
        .headers
        .push(("Content-Length".to_string(), "0".to_string()));
    assert!(response.has_content_length());
    let shouting = HttpResponse::ok_with_headers(
        vec![],
        vec![("CONTENT-LENGTH".to_string(), "0".to_string())],
    );
    assert!(shouting.has_content_length());
    let near = HttpResponse::ok_with_headers(
        vec![],
        vec![("content-length ".to_string(), "0".to_string())],
    );
    assert!(!near.has_content_length());
}

#[test]
fn empty_response_on_the_wire() {
    let out = HttpResponse::status(200, "OK").serialize();
    assert_eq!(text(out), "HTTP/1.1 200 OK\r\ncontent-length: 0\r\n\r\n");
}

#[test]
fn content_length_is_the_length_of_the_content() {
    let out = HttpResponse::ok("text/plain", b"abc".to_vec()).serialize();
    assert_eq!(
        text(out),
        "HTTP/1.1 200 OK\r\ncontent-length: 3\r\ncontent-type: text/plain\r\n\r\nabc"
    );
    let content = vec![0u8; 1234];
    let out = HttpResponse::ok("application/octet-stream", content.clone()).serialize();
    let head = "HTTP/1.1 200 OK\r\ncontent-length: 1234\r\ncontent-type: application/octet-stream\r\n\r\n";
    assert_eq!(&out[..head.len()], head.as_bytes());
    assert_eq!(&out[head.len()..], &content[..]);
}

#[test]
fn declared_content_length_is_kept() {
    let response = HttpResponse::ok_with_headers(
        b"abc".to_vec(),
        vec![
            ("Content-Length".to_string(), "3".to_string()),
            ("x".to_string(), "y: z".to_string()),
        ],
    );
    assert_eq!(
        text(response.serialize()),
        "HTTP/1.1 200 OK\r\nContent-Length: 3\r\nx: y: z\r\n\r\nabc"
    );
}

#[test]
fn content_goes_out_as_it_is() {
    let content = vec![0u8, 255, 13, 10, 128];
    let out = HttpResponse::ok_with_headers(content.clone(), vec![]).serialize();
    let head = b"HTTP/1.1 200 OK\r\ncontent-length: 5\r\n\r\n";
    assert_eq!(&out[..head.len()], &head[..]);
    assert_eq!(&out[head.len()..], &content[..]);
}

#[test]
fn status_line_may_hold_any_text() {
    let out = HttpResponse::status(65535, "Caf\u{e9} closed").serialize();
    assert_eq!(
        text(out),
        "HTTP/1.1 65535 Caf\u{e9} closed\r\ncontent-length: 0\r\n\r\n"
    );
    let out = HttpResponse::status(0, "").serialize();
    assert_eq!(text(out), "HTTP/1.1 0 \r\ncontent-length: 0\r\n\r\n");
}

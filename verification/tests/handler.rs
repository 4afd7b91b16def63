use http_server::listener::handler::{
    compressed, file_read, file_written, handle, value_lists_gzip, wants_gzip, FileRead, Handling,
};
use http_server::listener::reader::ByteReader;
use http_server::listener::request::{read, HttpRequest};
use http_server::listener::response::HttpResponse;
use http_server::options::{Resolved, ServerOptions};
use std::path::PathBuf;

fn request(text: &str) -> HttpRequest {
    let mut reader = ByteReader::new(text.as_bytes().to_vec());
    read(&mut reader).unwrap().unwrap()
}

fn no_root() -> ServerOptions {
    ServerOptions { root: None }
}

fn with_root() -> ServerOptions {
    ServerOptions {
        root: Some(PathBuf::from("/srv/files")),
    }
}

fn respond(options: &ServerOptions, text: &str) -> HttpResponse {
    match handle(options, request(text)) {
        Handling::Respond(response) => response,
        other => panic!("expected a response, got {:?}", other),
    }
}

fn on_wire(response: HttpResponse) -> String {
    String::from_utf8(response.serialize()).unwrap()
}

#[test]
fn root_is_answered_with_empty_ok() {
    let response = respond(&no_root(), "GET / HTTP/1.1\r\n\r\n");
    assert!(on_wire(response).starts_with("HTTP/1.1 200 OK\r\ncontent-length: 0\r\n\r\n"));
}

#[test]
fn echo_gives_the_message_back() {
    let response = respond(&no_root(), "GET /echo/abc HTTP/1.1\r\n\r\n");
    assert_eq!(response.status_code, 200);
    assert_eq!(response.content, b"abc".to_vec());
    assert_eq!(
        response.headers,
        vec![("content-type".to_string(), "text/plain".to_string())]
    );
    assert_eq!(
        on_wire(response),
        "HTTP/1.1 200 OK\r\ncontent-length: 3\r\ncontent-type: text/plain\r\n\r\nabc"
    );
}

#[test]
fn echo_of_nothing_is_empty() {
    let response = respond(&no_root(), "GET /echo/ HTTP/1.1\r\n\r\n");
    assert_eq!(response.status_code, 200);
    assert!(response.content.is_empty());
    let response = respond(&no_root(), "GET /echo HTTP/1.1\r\n\r\n");
    assert_eq!(response.status_code, 404);
}

#[test]
fn echo_keeps_text_beyond_ascii() {
    let response = respond(&no_root(), "GET /echo/caf\u{e9}/x HTTP/1.1\r\n\r\n");
    assert_eq!(response.content, "caf\u{e9}/x".as_bytes().to_vec());
}

#[test]
fn echo_with_gzip_asks_for_compression() {
    let text = "GET /echo/abc HTTP/1.1\r\nAccept-Encoding: gzip\r\n\r\n";
    match handle(&no_root(), request(text)) {
        Handling::Compress(content) => assert_eq!(content, b"abc".to_vec()),
        other => panic!("expected compression, got {:?}", other),
    }
    let response = compressed(Some(vec![31, 139, 8]));
    assert_eq!(response.status_code, 200);
    assert_eq!(response.status_line, "OK");
    assert_eq!(
        response.headers,
        vec![
            ("content-type".to_string(), "text/plain".to_string()),
            ("content-encoding".to_string(), "gzip".to_string()),
        ]
    );
    assert_eq!(response.content, vec![31, 139, 8]);
    assert_eq!(
        response.serialize(),
        [
            &b"HTTP/1.1 200 OK\r\ncontent-length: 3\r\ncontent-type: text/plain\r\ncontent-encoding: gzip\r\n\r\n"[..],
            &[31, 139, 8][..]
        ]
        .concat()
    );
}

#[test]
fn failed_compression_is_a_server_error() {
    let response = compressed(None);
    assert_eq!(response.status_code, 500);
    assert_eq!(response.status_line, "Internal Server Error");
    assert!(response.headers.is_empty());
    assert!(response.content.is_empty());
}

#[test]
fn gzip_is_found_among_encodings() {
    assert!(value_lists_gzip("gzip"));
    assert!(value_lists_gzip(" gzip "));
    assert!(value_lists_gzip("br, gzip"));
    assert!(value_lists_gzip("gzip,deflate"));
    assert!(value_lists_gzip("a,\tgzip\t,b"));
    assert!(!value_lists_gzip(""));
    assert!(!value_lists_gzip("GZIP"));
    assert!(!value_lists_gzip("gzip;q=1"));
    assert!(!value_lists_gzip("gzipped, xgzip"));
    assert!(!value_lists_gzip("g zip"));
    assert!(!value_lists_gzip(",,"));
}

#[test]
fn any_accept_encoding_header_may_list_gzip() {
    let text = "GET /echo/a HTTP/1.1\r\nAccept-Encoding: br\r\nAccept-Encoding: x, gzip\r\n\r\n";
    assert!(wants_gzip(&request(text)));
    let text = "GET /echo/a HTTP/1.1\r\nAccept-Encoding: br\r\nAccept: gzip\r\n\r\n";
    assert!(!wants_gzip(&request(text)));
    assert!(!wants_gzip(&request("GET /echo/a HTTP/1.1\r\n\r\n")));
}

#[test]
fn user_agent_is_reflected() {
    let text = "GET /user-agent HTTP/1.1\r\nUser-Agent: curl/7.64.1\r\n\r\n";
    let response = respond(&no_root(), text);
    assert_eq!(response.status_code, 200);
    assert_eq!(response.content, b"curl/7.64.1".to_vec());
    assert_eq!(
        response.headers,
        vec![("content-type".to_string(), "text/plain".to_string())]
    );
}

#[test]
fn last_user_agent_counts() {
    let text = "GET /user-agent HTTP/1.1\r\nUser-Agent: one\r\nuser-agent: two\r\n\r\n";
    let response = respond(&no_root(), text);
    assert_eq!(response.content, b"two".to_vec());
}

#[test]
fn missing_user_agent_is_a_bad_request() {
    let response = respond(&no_root(), "GET /user-agent HTTP/1.1\r\n\r\n");
    assert_eq!(response.status_code, 400);
    assert_eq!(response.status_line, "Bad Request");
    assert!(response.content.is_empty());
}

#[test]
fn files_are_read_under_a_root() {
    match handle(&with_root(), request("GET /files/a.txt HTTP/1.1\r\n\r\n")) {
        Handling::ReadFile(name) => assert_eq!(name, "a.txt"),
        other => panic!("expected a file read, got {:?}", other),
    }
    let response = respond(&no_root(), "GET /files/a.txt HTTP/1.1\r\n\r\n");
    assert_eq!(response.status_code, 404);
    assert_eq!(response.status_line, "Not Found");
}

#[test]
fn files_are_written_under_a_root() {
    let text = "POST /files/a.txt HTTP/1.1\r\nContent-Length: 5\r\n\r\nhello";
    match handle(&with_root(), request(text)) {
        Handling::WriteFile(name, body) => {
            assert_eq!(name, "a.txt");
            assert_eq!(body, b"hello".to_vec());
        }
        other => panic!("expected a file write, got {:?}", other),
    }
    let response = respond(&no_root(), text);
    assert_eq!(response.status_code, 404);
}

#[test]
fn file_outcomes_become_responses() {
    let response = file_read(FileRead::Content(b"data".to_vec()));
    assert_eq!(response.status_code, 200);
    assert_eq!(
        response.headers,
        vec![(
            "content-type".to_string(),
            "application/octet-stream".to_string()
        )]
    );
    assert_eq!(response.content, b"data".to_vec());
    let response = file_read(FileRead::Missing);
    assert_eq!((response.status_code, response.status_line.as_str()), (404, "Not Found"));
    let response = file_read(FileRead::Failed);
    assert_eq!(
        (response.status_code, response.status_line.as_str()),
        (500, "Internal Server Error")
    );
    let response = file_written(true);
    assert_eq!((response.status_code, response.status_line.as_str()), (201, "Created"));
    assert!(response.headers.is_empty() && response.content.is_empty());
    let response = file_written(false);
    assert_eq!(
        (response.status_code, response.status_line.as_str()),
        (500, "Internal Server Error")
    );
}

#[test]
fn anything_else_is_not_found() {
    for text in [
        "GET /nothing HTTP/1.1\r\n\r\n",
        "POST / HTTP/1.1\r\nContent-Length: 0\r\n\r\n",
        "POST /echo/abc HTTP/1.1\r\nContent-Length: 0\r\n\r\n",
        "PUT /files/a HTTP/1.1\r\nContent-Length: 0\r\n\r\n",
        "get / HTTP/1.1\r\n\r\n",
        "GET /Echo/abc HTTP/1.1\r\n\r\n",
        "GET /files HTTP/1.1\r\n\r\n",
    ] {
        let response = respond(&with_root(), text);
        assert_eq!(response.status_code, 404, "{:?}", text);
        assert_eq!(response.status_line, "Not Found");
        assert!(response.headers.is_empty());
        assert!(response.content.is_empty());
    }
}

#[test]
fn options_follow_the_command_line() {
    let args = |list: &[&str]| list.iter().map(|s| s.to_string()).collect::<Vec<String>>();
    assert_eq!(
        ServerOptions::requested_directory(&args(&["server", "--directory", "/tmp"])),
        Some(&"/tmp".to_string())
    );
    assert_eq!(ServerOptions::requested_directory(&args(&["server"])), None);
    assert_eq!(
        ServerOptions::requested_directory(&args(&["server", "--directory"])),
        None
    );
    assert_eq!(
        ServerOptions::requested_directory(&args(&["server", "--dir", "/tmp"])),
        None
    );
    assert_eq!(
        ServerOptions::requested_directory(&args(&["server", "--directory", "/tmp", "x"])),
        None
    );
}

#[test]
fn only_a_resolved_directory_is_served() {
    let path = PathBuf::from("/srv/files");
    assert_eq!(
        ServerOptions::new(Some(Resolved::Directory(path.clone()))).root,
        Some(path)
    );
    assert_eq!(ServerOptions::new(Some(Resolved::NotDirectory)).root, None);
    assert_eq!(ServerOptions::new(Some(Resolved::Failed)).root, None);
    assert_eq!(ServerOptions::new(None).root, None);
}

//! The routes: what a request is answered with, and what outside work an
//! answer waits for.

use crate::listener::headers::{texts, HeaderMap};
use crate::listener::request::{HttpRequest, RequestModel};
use crate::listener::response::{header_texts, HttpResponse, ResponseModel};
use crate::listener::text::{
    after_prefix, chars_of, find_char, position, range_is, strip_prefix, text_eq, trim,
    trim_bounds,
};
use crate::options::ServerOptions;
use vstd::prelude::*;
use vstd::string::*;
use vstd::utf8::encode_utf8;

verus! {

/// What handling a request comes to: a response, or outside work whose result
/// decides the response.
#[derive(Debug)]
pub enum Handling {
    /// The response is ready.
    Respond(HttpResponse),
    /// The content is to be compressed with gzip; `compressed` then gives the response.
    Compress(Vec<u8>),
    /// The file of this name under the root is to be read; `file_read` then
    /// gives the response.
    ReadFile(String),
    /// The file of this name under the root is to be written with these
    /// bytes; `file_written` then gives the response.
    WriteFile(String, Vec<u8>),
}

/// What handling a request comes to, as plain values.
pub ghost enum Route {
    Respond(ResponseModel),
    Compress(Seq<u8>),
    ReadFile(Seq<char>),
    WriteFile(Seq<char>, Seq<u8>),
}

impl View for Handling {
    type V = Route;

    open spec fn view(&self) -> Route {
        match self {
            Handling::Respond(response) => Route::Respond(response@),
            Handling::Compress(content) => Route::Compress(content@),
            Handling::ReadFile(name) => Route::ReadFile(name@),
            Handling::WriteFile(name, body) => Route::WriteFile(name@, body@),
        }
    }
}

/// What reading a file gave.
#[derive(Debug)]
pub enum FileRead {
    /// There is no such file.
    Missing,
    /// The file's bytes.
    Content(Vec<u8>),
    /// The file is there and could not be read.
    Failed,
}

/// A response with a status and nothing else.
pub open spec fn plain_status(status_code: u16, status_line: Seq<char>) -> ResponseModel {
    ResponseModel { status_code, status_line, headers: Seq::empty(), content: Seq::empty() }
}

/// A `200 OK` response with content of the given type.
pub open spec fn ok_response(content_type: Seq<char>, content: Seq<u8>) -> ResponseModel {
    ResponseModel {
        status_code: 200,
        status_line: "OK"@,
        headers: seq![("content-type"@, content_type)],
        content,
    }
}

/// The response to content that gzip has compressed.
pub open spec fn gzip_response(compressed: Seq<u8>) -> ResponseModel {
    ResponseModel {
        status_code: 200,
        status_line: "OK"@,
        headers: seq![("content-type"@, "text/plain"@), ("content-encoding"@, "gzip"@)],
        content: compressed,
    }
}

/// Whether one of the items of a comma-separated list is `gzip`, white space
/// around it aside.
pub open spec fn lists_gzip(value: Seq<char>) -> bool
    decreases value.len(),
{
    let p = position(value, ',');
    trim(value.take(p)) == "gzip"@ || (0 <= p < value.len() && lists_gzip(value.skip(p + 1)))
}

/// Whether some `accept-encoding` header lists `gzip`.
pub open spec fn accepts_gzip(headers: HeaderMap) -> bool {
    headers.contains_key("accept-encoding"@) && exists|i: int|
        0 <= i < headers["accept-encoding"@].len() && lists_gzip(
            #[trigger] headers["accept-encoding"@][i],
        )
}

/// The routes. `has_root` says whether a directory is served.
pub open spec fn route(has_root: bool, request: RequestModel) -> Route {
    let get = request.method == "GET"@;
    let post = request.method == "POST"@;
    if get && request.target == "/"@ {
        Route::Respond(plain_status(200, "OK"@))
    } else if get && request.target == "/user-agent"@ {
        if request.headers.contains_key("user-agent"@) {
            Route::Respond(
                ok_response("text/plain"@, encode_utf8(request.headers["user-agent"@].last())),
            )
        } else {
            Route::Respond(plain_status(400, "Bad Request"@))
        }
    } else if get && after_prefix(request.target, "/echo/"@) is Some {
        let message = encode_utf8(after_prefix(request.target, "/echo/"@)->Some_0);
        if accepts_gzip(request.headers) {
            Route::Compress(message)
        } else {
            Route::Respond(ok_response("text/plain"@, message))
        }
    } else if get && has_root && after_prefix(request.target, "/files/"@) is Some {
        Route::ReadFile(after_prefix(request.target, "/files/"@)->Some_0)
    } else if post && has_root && after_prefix(request.target, "/files/"@) is Some {
        Route::WriteFile(after_prefix(request.target, "/files/"@)->Some_0, request.body)
    } else {
        Route::Respond(plain_status(404, "Not Found"@))
    }
}

/// Whether one of the items of a comma-separated list is `gzip`.
pub fn value_lists_gzip(value: &str) -> (r: bool)
    ensures
        r == lists_gzip(value@),
{
    let chars = chars_of(value);
    let word = chars_of("gzip");
    let n = chars.len();
    let mut from: usize = 0;
    assert(chars@.skip(0) =~= value@);
    loop
        invariant
            from <= n == chars.len(),
            chars@ == value@,
            word@ == "gzip"@,
            lists_gzip(value@) == lists_gzip(chars@.skip(from as int)),
        decreases n - from,
    {
        let end = find_char(chars.as_slice(), from, ',');
        let (a, b) = trim_bounds(chars.as_slice(), from, end);
        proof {
            let rest = chars@.skip(from as int);
            assert(rest.take(end - from) =~= chars@.subrange(from as int, end as int));
            if end < n {
                assert(rest.skip(end - from + 1) =~= chars@.skip(end + 1));
            }
        }
        if range_is(chars.as_slice(), a, b, word.as_slice()) {
            return true;
        }
        if end == n {
            return false;
        }
        from = end + 1;
    }
}

/// Whether some `accept-encoding` header lists `gzip`.
pub fn wants_gzip(request: &HttpRequest) -> (r: bool)
    ensures
        r == accepts_gzip(request@.headers),
{
    match request.headers.get("accept-encoding") {
        Some(values) => {
            let mut i: usize = 0;
            while i < values.len()
                invariant
                    i <= values.len(),
                    request@.headers.contains_key("accept-encoding"@),
                    texts(values@) == request@.headers["accept-encoding"@],
                    forall|j: int| 0 <= j < i ==> !lists_gzip(#[trigger] texts(values@)[j]),
                decreases values.len() - i,
            {
                if value_lists_gzip(values[i].as_str()) {
                    assert(lists_gzip(texts(values@)[i as int]));
                    return true;
                }
                i += 1;
            }
            false
        },
        None => false,
    }
}

/// Decides what a request is answered with.
pub fn handle(options: &ServerOptions, request: HttpRequest) -> (h: Handling)
    ensures
        h@ == route(options.root is Some, request@),
{
    let get = text_eq(request.method.as_str(), "GET");
    let post = text_eq(request.method.as_str(), "POST");
    let target = request.target.as_str();
    if get && text_eq(target, "/") {
        return Handling::Respond(HttpResponse::status(200, "OK"));
    }
    if get && text_eq(target, "/user-agent") {
        return match request.headers.get("user-agent") {
            Some(values) => {
                let last = &values[values.len() - 1];
                assert(texts(values@).last() == last@);
                Handling::Respond(HttpResponse::ok("text/plain", last.as_str().as_bytes_vec()))
            },
            None => Handling::Respond(HttpResponse::status(400, "Bad Request")),
        };
    }
    if get {
        if let Some(message) = strip_prefix(target, "/echo/") {
            let content = message.as_str().as_bytes_vec();
            return if wants_gzip(&request) {
                Handling::Compress(content)
            } else {
                Handling::Respond(HttpResponse::ok("text/plain", content))
            };
        }
    }
    if (get || post) && options.root.is_some() {
        if let Some(name) = strip_prefix(target, "/files/") {
            return if get {
                Handling::ReadFile(name)
            } else {
                Handling::WriteFile(name, request.body)
            };
        }
    }
    Handling::Respond(HttpResponse::status(404, "Not Found"))
}

/// The response once gzip has run: its output, or `None` where it failed.
pub fn compressed(output: Option<Vec<u8>>) -> (r: HttpResponse)
    ensures
        r@ == match output {
            Some(bytes) => gzip_response(bytes@),
            None => plain_status(500, "Internal Server Error"@),
        },
{
    match output {
        Some(bytes) => {
            let mut headers: Vec<(String, String)> = Vec::new();
            headers.push((String::from_str("content-type"), String::from_str("text/plain")));
            headers.push((String::from_str("content-encoding"), String::from_str("gzip")));
            assert(header_texts(headers@) =~= seq![
                ("content-type"@, "text/plain"@),
                ("content-encoding"@, "gzip"@),
            ]);
            HttpResponse::ok_with_headers(bytes, headers)
        },
        None => HttpResponse::status(500, "Internal Server Error"),
    }
}

/// The response once the file has been looked for and read.
pub fn file_read(outcome: FileRead) -> (r: HttpResponse)
    ensures
        r@ == match outcome {
            FileRead::Missing => plain_status(404, "Not Found"@),
            FileRead::Content(bytes) => ok_response("application/octet-stream"@, bytes@),
            FileRead::Failed => plain_status(500, "Internal Server Error"@),
        },
{
    match outcome {
        FileRead::Missing => HttpResponse::status(404, "Not Found"),
        FileRead::Content(bytes) => HttpResponse::ok("application/octet-stream", bytes),
        FileRead::Failed => HttpResponse::status(500, "Internal Server Error"),
    }
}

/// The response once the file has been written, or could not be.
pub fn file_written(done: bool) -> (r: HttpResponse)
    ensures
        r@ == if done {
            plain_status(201, "Created"@)
        } else {
            plain_status(500, "Internal Server Error"@)
        },
{
    if done {
        HttpResponse::status(201, "Created")
    } else {
        HttpResponse::status(500, "Internal Server Error")
    }
}

} // verus!

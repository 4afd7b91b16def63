//! Responses and their form on the wire.

use crate::listener::number::{decimal, write_decimal};
use crate::listener::text::{ascii_fold, eq_ignore_ascii_case};
use vstd::prelude::*;
use vstd::string::*;
use vstd::utf8::*;

verus! {

/// A response as the dispatcher hands it to the writer.
#[derive(Debug)]
pub struct HttpResponse {
    pub status_code: u16,
    pub status_line: String,
    pub headers: Vec<(String, String)>,
    pub content: Vec<u8>,
}

/// What a response holds, as plain values.
pub ghost struct ResponseModel {
    pub status_code: u16,
    pub status_line: Seq<char>,
    pub headers: Seq<(Seq<char>, Seq<char>)>,
    pub content: Seq<u8>,
}

/// The key and value texts of a header list.
pub open spec fn header_texts(headers: Seq<(String, String)>) -> Seq<(Seq<char>, Seq<char>)> {
    Seq::new(headers.len(), |i: int| (headers[i].0@, headers[i].1@))
}

impl View for HttpResponse {
    type V = ResponseModel;

    open spec fn view(&self) -> ResponseModel {
        ResponseModel {
            status_code: self.status_code,
            status_line: self.status_line@,
            headers: header_texts(self.headers@),
            content: self.content@,
        }
    }
}

/// Whether `key` names the content length, whatever the case of its letters.
pub open spec fn names_content_length(key: Seq<char>) -> bool {
    ascii_fold(key) == ascii_fold("content-length"@)
}

/// Whether some header of the list names the content length.
pub open spec fn declares_length(headers: Seq<(Seq<char>, Seq<char>)>) -> bool {
    exists|i: int| 0 <= i < headers.len() && names_content_length(#[trigger] headers[i].0)
}

/// The line terminator.
pub open spec fn crlf() -> Seq<u8> {
    seq![13u8, 10u8]
}

/// One header as a line on the wire.
pub open spec fn header_line(key: Seq<char>, value: Seq<char>) -> Seq<u8> {
    encode_utf8(key) + encode_utf8(": "@) + encode_utf8(value) + crlf()
}

/// The headers as lines on the wire, in list order.
pub open spec fn header_lines(headers: Seq<(Seq<char>, Seq<char>)>) -> Seq<u8>
    decreases headers.len(),
{
    if headers.len() == 0 {
        Seq::empty()
    } else {
        header_lines(headers.drop_last()) + header_line(headers.last().0, headers.last().1)
    }
}

/// The status line on the wire.
pub open spec fn status_bytes(status_code: u16, status_line: Seq<char>) -> Seq<u8> {
    encode_utf8("HTTP/1.1 "@) + decimal(status_code as nat) + encode_utf8(" "@) + encode_utf8(
        status_line,
    ) + crlf()
}

/// The content-length line that the writer adds for a body of `len` bytes.
pub open spec fn length_line(len: nat) -> Seq<u8> {
    encode_utf8("content-length: "@) + decimal(len) + crlf()
}

/// A response on the wire: the status line, a content-length line where the
/// response declares none, its headers, a blank line and the content.
pub open spec fn wire(r: ResponseModel) -> Seq<u8> {
    status_bytes(r.status_code, r.status_line) + (if declares_length(r.headers) {
        Seq::empty()
    } else {
        length_line(r.content.len())
    }) + header_lines(r.headers) + crlf() + r.content
}

impl HttpResponse {
    /// A response with the given status, no header and no content.
    pub fn status(status_code: u16, status_line: &str) -> (r: Self)
        ensures
            r@ == (ResponseModel {
                status_code,
                status_line: status_line@,
                headers: Seq::empty(),
                content: Seq::empty(),
            }),
    {
        let r = Self {
            status_code,
            status_line: String::from_str(status_line),
            headers: Vec::new(),
            content: Vec::new(),
        };
        assert(r@.headers =~= Seq::empty());
        r
    }

    /// A `200 OK` response with the given content and its type.
    pub fn ok(content_type: &str, content: Vec<u8>) -> (r: Self)
        ensures
            r@ == (ResponseModel {
                status_code: 200,
                status_line: "OK"@,
                headers: seq![("content-type"@, content_type@)],
                content: content@,
            }),
    {
        let mut headers: Vec<(String, String)> = Vec::new();
        headers.push((String::from_str("content-type"), String::from_str(content_type)));
        let r = Self { status_code: 200, status_line: String::from_str("OK"), headers, content };
        assert(r@.headers =~= seq![("content-type"@, content_type@)]);
        r
    }

    /// A `200 OK` response with the given content and headers.
    pub fn ok_with_headers(content: Vec<u8>, headers: Vec<(String, String)>) -> (r: Self)
        ensures
            r@ == (ResponseModel {
                status_code: 200,
                status_line: "OK"@,
                headers: header_texts(headers@),
                content: content@,
            }),
    {
        Self { status_code: 200, status_line: String::from_str("OK"), headers, content }
    }

    /// Whether a header names the content length, whatever the case of its letters.
    pub fn has_content_length(&self) -> (r: bool)
        ensures
            r == declares_length(self@.headers),
    {
        let mut i: usize = 0;
        while i < self.headers.len()
            invariant
                i <= self.headers.len(),
                forall|j: int| 0 <= j < i ==> !names_content_length(#[trigger] self@.headers[j].0),
            decreases self.headers.len() - i,
        {
            if eq_ignore_ascii_case(self.headers[i].0.as_str(), "content-length") {
                assert(names_content_length(self@.headers[i as int].0));
                return true;
            }
            i += 1;
        }
        false
    }
    /// The response on the wire.
    pub fn serialize(&self) -> (out: Vec<u8>)
        ensures
            out@ == wire(self@),
    {
        let mut out: Vec<u8> = Vec::new();
        out.extend_from_slice("HTTP/1.1 ".as_bytes());
        write_decimal(&mut out, self.status_code as usize);
        out.extend_from_slice(" ".as_bytes());
        out.extend_from_slice(self.status_line.as_str().as_bytes());
        out.push(13);
        out.push(10);
        assert(out@ =~= status_bytes(self.status_code, self.status_line@));
        if !self.has_content_length() {
            out.extend_from_slice("content-length: ".as_bytes());
            write_decimal(&mut out, self.content.len());
            out.push(13);
            out.push(10);
            assert(out@ =~= status_bytes(self.status_code, self.status_line@) + length_line(
                self.content.len() as nat,
            ));
        }
        let ghost head = out@;
        let ghost texts = self@.headers;
        assert(texts.take(0) =~= Seq::empty());
        let mut i: usize = 0;
        while i < self.headers.len()
            invariant
                i <= self.headers.len(),
                texts == self@.headers,
                out@ == head + header_lines(texts.take(i as int)),
            decreases self.headers.len() - i,
        {
            let ghost before = out@;
            out.extend_from_slice(self.headers[i].0.as_str().as_bytes());
            out.extend_from_slice(": ".as_bytes());
            out.extend_from_slice(self.headers[i].1.as_str().as_bytes());
            out.push(13);
            out.push(10);
            proof {
                let t = texts.take(i + 1);
                assert(t.drop_last() =~= texts.take(i as int));
                assert(t.last() == texts[i as int]);
                assert(out@ =~= before + header_line(texts[i as int].0, texts[i as int].1));
                assert(out@ =~= head + header_lines(t));
            }
            i += 1;
        }
        assert(texts.take(i as int) =~= texts);
        out.push(13);
        out.push(10);
        out.extend_from_slice(self.content.as_slice());
        assert(out@ =~= wire(self@));
        out
    }
}

/// A response that declares no content length goes out with a line that
/// gives the exact number of bytes of its content, right after the status line.
pub proof fn lemma_length_is_synthesized(r: ResponseModel)
    requires
        !declares_length(r.headers),
    ensures
        wire(r) == status_bytes(r.status_code, r.status_line) + length_line(r.content.len())
            + header_lines(r.headers) + crlf() + r.content,
{
}

/// A response that declares a content length goes out with its own headers only.
pub proof fn lemma_declared_length_is_kept(r: ResponseModel)
    requires
        declares_length(r.headers),
    ensures
        wire(r) == status_bytes(r.status_code, r.status_line) + header_lines(r.headers) + crlf()
            + r.content,
{
    assert(status_bytes(r.status_code, r.status_line) + Seq::<u8>::empty() =~= status_bytes(
        r.status_code,
        r.status_line,
    ));
}

} // verus!

//! Requests and their framing on the wire.

use crate::listener::headers::{
    collect, collect_onto, header_key, lemma_collect_from_empty, lookup, texts, with_header,
    HeaderMap, Headers,
};
use crate::listener::number::{parse_length, parse_usize};
use crate::listener::reader::{lemma_line_len, line_len, ByteReader};
use crate::listener::text::{
    chars_of, find_char, lowercase, position, slice_text, text_eq, to_lowercase, trim, trim_bounds,
    trim_end, trim_end_bound, trimmed,
};
use vstd::prelude::*;
use vstd::string::*;
use vstd::utf8::{decode_utf8, valid_utf8};

verus! {

/// Why a request could not be read. The reason stays with the server: the
/// peer only learns that the request was bad.
#[derive(Debug)]
pub struct HttpRequestError(Option<String>);

impl View for HttpRequestError {
    type V = Option<Seq<char>>;

    closed spec fn view(&self) -> Option<Seq<char>> {
        match self.0 {
            Some(message) => Some(message@),
            None => None,
        }
    }
}

impl HttpRequestError {
    /// The error that gives no reason.
    pub fn opaque() -> (e: Self)
        ensures
            e@ is None,
    {
        HttpRequestError(None)
    }

    /// An error with the given reason, if any.
    pub fn new(reason: Option<String>) -> (e: Self)
        ensures
            e@ == match reason {
                Some(message) => Some(message@),
                None => None,
            },
    {
        HttpRequestError(reason)
    }

    /// The reason, if the error has one.
    pub fn reason(&self) -> (r: Option<&String>)
        ensures
            match r {
                Some(message) => self@ == Some(message@),
                None => self@ is None,
            },
    {
        match &self.0 {
            Some(message) => Some(message),
            None => None,
        }
    }

    /// The status text that stands for this error.
    pub open spec fn text(reason: Option<Seq<char>>) -> Seq<char> {
        match reason {
            Some(message) => "HTTP 400 "@ + message,
            None => "HTTP 400 Bad Request"@,
        }
    }

    /// The status text that stands for this error.
    pub fn to_string(&self) -> (s: String)
        ensures
            s@ == Self::text(self@),
    {
        match &self.0 {
            Some(message) => String::from_str("HTTP 400 ").concat(message.as_str()),
            None => String::from_str("HTTP 400 Bad Request"),
        }
    }
}

/// The first line of a request.
#[derive(Debug)]
pub struct RequestLine {
    pub method: String,
    pub target: String,
    pub version: String,
}

/// The three parts of a request line, as plain values.
pub ghost struct LineModel {
    pub method: Seq<char>,
    pub target: Seq<char>,
    pub version: Seq<char>,
}

impl View for RequestLine {
    type V = LineModel;

    open spec fn view(&self) -> LineModel {
        LineModel { method: self.method@, target: self.target@, version: self.version@ }
    }
}

/// The parts of a request line: the method ends at the first space, the target
/// at the next one, and the version is the rest. Without two spaces there are none.
pub open spec fn request_line_parts(s: Seq<char>) -> Option<LineModel> {
    let i = position(s, ' ');
    let rest = s.skip(i + 1);
    let k = position(rest, ' ');
    if i < s.len() && k < rest.len() {
        Some(LineModel { method: s.take(i), target: rest.take(k), version: rest.skip(k + 1) })
    } else {
        None
    }
}

impl RequestLine {
    /// Splits a request line into method, target and version.
    pub fn from_str(s: &str) -> (r: Result<Self, HttpRequestError>)
        ensures
            match request_line_parts(s@) {
                Some(parts) => r is Ok && r->Ok_0@ == parts,
                None => r is Err && r->Err_0@ is None,
            },
    {
        let chars = chars_of(s);
        let n = chars.len();
        let i = find_char(chars.as_slice(), 0, ' ');
        assert(chars@.skip(0) =~= s@);
        if i == n {
            return Err(HttpRequestError::opaque());
        }
        let k = find_char(chars.as_slice(), i + 1, ' ');
        if k == n {
            return Err(HttpRequestError::opaque());
        }
        let line = RequestLine {
            method: slice_text(s, 0, i),
            target: slice_text(s, i + 1, k),
            version: slice_text(s, k + 1, n),
        };
        proof {
            let rest = s@.skip(i + 1);
            assert(s@.take(i as int) =~= s@.subrange(0, i as int));
            assert(rest.take(k - i - 1) =~= s@.subrange(i + 1, k as int));
            assert(rest.skip(k - i) =~= s@.subrange(k + 1, n as int));
        }
        Ok(line)
    }
}

/// One header of a request.
#[derive(Debug)]
pub struct HttpHeader {
    pub key: String,
    pub value: String,
}

impl View for HttpHeader {
    type V = (Seq<char>, Seq<char>);

    open spec fn view(&self) -> (Seq<char>, Seq<char>) {
        (self.key@, self.value@)
    }
}

/// The key and value of a header line: the key is what stands before the first
/// colon, in lower case and trimmed; the value is the rest, trimmed. Without a
/// colon there are none.
pub open spec fn header_parts(s: Seq<char>) -> Option<(Seq<char>, Seq<char>)> {
    let i = position(s, ':');
    if i < s.len() {
        Some((header_key(s.take(i)), trim(s.skip(i + 1))))
    } else {
        None
    }
}

impl HttpHeader {
    /// The header of a key that is already in lower case and a value as it
    /// stood on the line: both trimmed.
    pub fn from_parts(lowered_key: &str, raw_value: &str) -> (h: Self)
        ensures
            h@ == (trim(lowered_key@), trim(raw_value@)),
    {
        HttpHeader { key: trimmed(lowered_key), value: trimmed(raw_value) }
    }

    /// Splits a header line at its first colon.
    pub fn from_str(s: &str) -> (r: Result<Self, HttpRequestError>)
        ensures
            match header_parts(s@) {
                Some(parts) => r is Ok && r->Ok_0@ == parts,
                None => r is Err && r->Err_0@ is None,
            },
    {
        let chars = chars_of(s);
        let n = chars.len();
        let i = find_char(chars.as_slice(), 0, ':');
        assert(chars@.skip(0) =~= s@);
        if i == n {
            return Err(HttpRequestError::opaque());
        }
        let raw_key = s.substring_char(0, i);
        let raw_value = s.substring_char(i + 1, n);
        proof {
            assert(s@.take(i as int) =~= s@.subrange(0, i as int));
            assert(s@.skip(i + 1) =~= s@.subrange(i + 1, n as int));
        }
        let lowered = to_lowercase(raw_key);
        Ok(HttpHeader::from_parts(lowered.as_str(), raw_value))
    }
}

/// Two header lines whose names have the same lower-case form are stored
/// under one key, and a lookup by either name finds that key.
pub proof fn lemma_header_names_share_key(a: Seq<char>, b: Seq<char>, m: HeaderMap)
    requires
        header_parts(a) is Some,
        header_parts(b) is Some,
        lowercase(a.take(position(a, ':'))) == lowercase(b.take(position(b, ':'))),
    ensures
        header_parts(a)->Some_0.0 == header_parts(b)->Some_0.0,
        lookup(m, a.take(position(a, ':'))) == lookup(m, b.take(position(b, ':'))),
        m.contains_key(header_parts(a)->Some_0.0) ==> lookup(m, a.take(position(a, ':')))
            == Some(m[header_parts(a)->Some_0.0]),
{
}

/// A request as the dispatcher receives it.
#[derive(Debug)]
pub struct HttpRequest {
    pub method: String,
    pub target: String,
    pub version: String,
    pub headers: Headers,
    pub body: Vec<u8>,
}

/// What a request holds, as plain values.
pub ghost struct RequestModel {
    pub method: Seq<char>,
    pub target: Seq<char>,
    pub version: Seq<char>,
    pub headers: HeaderMap,
    pub body: Seq<u8>,
}

impl View for HttpRequest {
    type V = RequestModel;

    open spec fn view(&self) -> RequestModel {
        RequestModel {
            method: self.method@,
            target: self.target@,
            version: self.version@,
            headers: self.headers@,
            body: self.body@,
        }
    }
}

/// The request made of a request line, headers and a body.
pub open spec fn assembled(line: LineModel, headers: HeaderMap, body: Seq<u8>) -> RequestModel {
    RequestModel {
        method: line.method,
        target: line.target,
        version: line.version,
        headers,
        body,
    }
}

/// How reading one request ends: with a request, with the end of the stream
/// (`None`), or with an error.
pub type Outcome = Result<Option<RequestModel>, Option<Seq<char>>>;

/// The outcome of a read, as plain values.
pub open spec fn outcome_view(r: Result<Option<HttpRequest>, HttpRequestError>) -> Outcome {
    match r {
        Ok(Some(request)) => Ok(Some(request@)),
        Ok(None) => Ok(None),
        Err(e) => Err(e@),
    }
}

/// Where the reading of a request stands, as plain values.
pub ghost enum StepModel {
    /// The request line is read; a header line is wanted.
    Headers(LineModel, HeaderMap),
    /// The headers are read; a body of exactly this many bytes is wanted.
    Exact(LineModel, HeaderMap, usize),
    /// The headers are read; the rest of the stream is the body.
    ToEnd(LineModel, HeaderMap),
    /// Nothing more is wanted.
    Done(Outcome),
}

/// What follows the header block: a `GET` request has no body; another one has
/// the body that the last `content-length` value announces, or, without that
/// header, the rest of the stream.
pub open spec fn framing(line: LineModel, headers: HeaderMap) -> StepModel {
    if line.method == "GET"@ {
        StepModel::Done(Ok(Some(assembled(line, headers, Seq::empty()))))
    } else if headers.contains_key("content-length"@) {
        match parse_length(headers["content-length"@].last()) {
            Some(n) => StepModel::Exact(line, headers, n),
            None => StepModel::Done(Err(None)),
        }
    } else {
        StepModel::ToEnd(line, headers)
    }
}

/// The step after the first line. No line at all is the end of the stream.
pub open spec fn begin_step(text: Seq<char>) -> StepModel {
    if text.len() == 0 {
        StepModel::Done(Ok(None))
    } else {
        match request_line_parts(trim_end(text)) {
            Some(line) => StepModel::Headers(line, Map::empty()),
            None => StepModel::Done(Err(None)),
        }
    }
}

/// The step after one more line of the header block. A blank line ends the block.
pub open spec fn feed_step(line: LineModel, headers: HeaderMap, text: Seq<char>) -> StepModel {
    if trim(text).len() == 0 {
        framing(line, headers)
    } else {
        match header_parts(text) {
            Some(parts) => StepModel::Headers(line, with_header(headers, parts.0, parts.1)),
            None => StepModel::Done(Err(None)),
        }
    }
}

/// A request whose header block is being read.
#[derive(Debug)]
pub struct HeaderBlock {
    pub line: RequestLine,
    pub headers: Headers,
}

/// A request whose body is still to come.
#[derive(Debug)]
pub struct PendingBody {
    pub line: RequestLine,
    pub headers: Headers,
}

/// Where the reading of a request stands, and so what is to be read next.
#[derive(Debug)]
pub enum Step {
    /// Read a line and feed it to the block.
    Headers(HeaderBlock),
    /// Read exactly this many bytes and finish with them.
    Exact(PendingBody, usize),
    /// Read the stream to its end and finish with that.
    ToEnd(PendingBody),
    /// Reading has ended.
    Done(Result<Option<HttpRequest>, HttpRequestError>),
}

impl View for Step {
    type V = StepModel;

    open spec fn view(&self) -> StepModel {
        match self {
            Step::Headers(block) => StepModel::Headers(block.line@, block.headers@),
            Step::Exact(pending, n) => StepModel::Exact(pending.line@, pending.headers@, *n),
            Step::ToEnd(pending) => StepModel::ToEnd(pending.line@, pending.headers@),
            Step::Done(r) => StepModel::Done(outcome_view(*r)),
        }
    }
}

/// Takes the first line of a request, as it was read, terminator included.
/// An empty text says that the stream had ended.
pub fn begin(text: &str) -> (step: Step)
    ensures
        step@ == begin_step(text@),
{
    let chars = chars_of(text);
    if chars.len() == 0 {
        return Step::Done(Ok(None));
    }
    let end = trim_end_bound(chars.as_slice(), 0, chars.len());
    assert(chars@.subrange(0, chars.len() as int) =~= text@);
    match RequestLine::from_str(text.substring_char(0, end)) {
        Ok(line) => Step::Headers(HeaderBlock { line, headers: Headers::new() }),
        Err(e) => Step::Done(Err(e)),
    }
}

/// Decides what follows the header block.
pub fn frame(line: RequestLine, headers: Headers) -> (step: Step)
    ensures
        step@ == framing(line@, headers@),
{
    if text_eq(line.method.as_str(), "GET") {
        let request = HttpRequest {
            method: line.method,
            target: line.target,
            version: line.version,
            headers,
            body: Vec::new(),
        };
        return Step::Done(Ok(Some(request)));
    }
    let length = match headers.get("content-length") {
        Some(values) => {
            let last = &values[values.len() - 1];
            assert(texts(values@).last() == last@);
            let digits = chars_of(last.as_str());
            Some(parse_usize(digits.as_slice()))
        },
        None => None,
    };
    match length {
        Some(Some(n)) => Step::Exact(PendingBody { line, headers }, n),
        Some(None) => Step::Done(Err(HttpRequestError::opaque())),
        None => Step::ToEnd(PendingBody { line, headers }),
    }
}

impl HeaderBlock {
    /// Takes the next line of the header block, as it was read, terminator
    /// included. An empty text says that the stream had ended.
    pub fn feed(self, text: &str) -> (step: Step)
        ensures
            step@ == feed_step(self.line@, self.headers@, text@),
    {
        let chars = chars_of(text);
        let (from, to) = trim_bounds(chars.as_slice(), 0, chars.len());
        assert(chars@.subrange(0, chars.len() as int) =~= text@);
        if from == to {
            return frame(self.line, self.headers);
        }
        match HttpHeader::from_str(text) {
            Ok(header) => Step::Headers(
                HeaderBlock {
                    line: self.line,
                    headers: self.headers.append(header.key, header.value),
                },
            ),
            Err(e) => Step::Done(Err(e)),
        }
    }
}

impl PendingBody {
    /// The request, now that its body is read.
    pub fn finish(self, body: Vec<u8>) -> (request: HttpRequest)
        ensures
            request@ == assembled(self.line@, self.headers@, body@),
    {
        HttpRequest {
            method: self.line.method,
            target: self.line.target,
            version: self.line.version,
            headers: self.headers,
            body,
        }
    }
}

/// How a step that wants no more header lines ends on the bytes `rest`, and
/// how many of them it consumes. A body cut short by the end of the stream is
/// an error, and what was there is consumed.
pub open spec fn settle(step: StepModel, rest: Seq<u8>) -> (Outcome, int) {
    match step {
        StepModel::Done(outcome) => (outcome, 0),
        StepModel::Exact(line, headers, n) => if n <= rest.len() {
            (Ok(Some(assembled(line, headers, rest.take(n as int)))), n as int)
        } else {
            (Err(None), rest.len() as int)
        },
        StepModel::ToEnd(line, headers) => (
            Ok(Some(assembled(line, headers, rest))),
            rest.len() as int,
        ),
        StepModel::Headers(line, headers) => (Err(None), 0),
    }
}

/// How reading goes on from within the header block, on the bytes `rest`, and
/// how many of them it consumes. A line that is not valid UTF-8 is an error.
pub open spec fn read_headers(line: LineModel, headers: HeaderMap, rest: Seq<u8>) -> (Outcome, int)
    decreases rest.len(),
{
    let n = line_len(rest);
    let text = rest.take(n);
    if n <= 0 {
        settle(framing(line, headers), rest)
    } else if n > rest.len() || !valid_utf8(text) {
        (Err(None), n)
    } else {
        match feed_step(line, headers, decode_utf8(text)) {
            StepModel::Headers(l, h) => {
                let (outcome, m) = read_headers(l, h, rest.skip(n));
                (outcome, n + m)
            },
            step => {
                let (outcome, m) = settle(step, rest.skip(n));
                (outcome, n + m)
            },
        }
    }
}

/// How reading one request from the bytes `input` ends, and how many of them
/// it consumes.
pub open spec fn read_outcome(input: Seq<u8>) -> (Outcome, int) {
    let n = line_len(input);
    let text = input.take(n);
    if !valid_utf8(text) {
        (Err(None), n)
    } else {
        match begin_step(decode_utf8(text)) {
            StepModel::Headers(l, h) => {
                let (outcome, m) = read_headers(l, h, input.skip(n));
                (outcome, n + m)
            },
            step => {
                let (outcome, m) = settle(step, input.skip(n));
                (outcome, n + m)
            },
        }
    }
}

/// Ends the reading of a request whose header block is over.
fn conclude(step: Step, reader: &mut ByteReader) -> (r: Result<Option<HttpRequest>, HttpRequestError>)
    requires
        !(step@ is Headers),
    ensures
        outcome_view(r) == settle(step@, old(reader).remaining()).0,
        final(reader).remaining() == old(reader).remaining().skip(
            settle(step@, old(reader).remaining()).1,
        ),
{
    match step {
        Step::Done(r) => {
            assert(reader.remaining().skip(0) =~= reader.remaining());
            r
        },
        Step::Exact(pending, n) => match reader.read_exact(n) {
            Some(body) => Ok(Some(pending.finish(body))),
            None => {
                assert(old(reader).remaining().skip(old(reader).remaining().len() as int)
                    =~= Seq::<u8>::empty());
                Err(HttpRequestError::opaque())
            },
        },
        Step::ToEnd(pending) => {
            assert(old(reader).remaining().skip(old(reader).remaining().len() as int)
                =~= Seq::<u8>::empty());
            Ok(Some(pending.finish(reader.read_to_end())))
        },
        Step::Headers(block) => Err(HttpRequestError::opaque()),
    }
}

/// Reads one request from the front of the stream.
pub fn read(reader: &mut ByteReader) -> (r: Result<Option<HttpRequest>, HttpRequestError>)
    ensures
        outcome_view(r) == read_outcome(old(reader).remaining()).0,
        final(reader).remaining() == old(reader).remaining().skip(
            read_outcome(old(reader).remaining()).1,
        ),
{
    let ghost input = reader.remaining();
    let first = match reader.read_line() {
        Some(text) => begin(text.as_str()),
        None => {
            return Err(HttpRequestError::opaque());
        },
    };
    let ghost used = line_len(input);
    let mut block = match first {
        Step::Headers(block) => block,
        step => {
            let ghost rest = reader.remaining();
            let r = conclude(step, reader);
            assert(rest.skip(settle(step@, rest).1) =~= input.skip(
                used + settle(step@, rest).1,
            ));
            return r;
        },
    };
    loop
        invariant
            0 <= used <= input.len(),
            input == old(reader).remaining(),
            reader.remaining() == input.skip(used),
            read_outcome(input) == (
                read_headers(block.line@, block.headers@, reader.remaining()).0,
                used + read_headers(block.line@, block.headers@, reader.remaining()).1,
            ),
        decreases reader.remaining().len(),
    {
        let ghost rest = reader.remaining();
        let ghost n = line_len(rest);
        let next = match reader.read_line() {
            Some(text) => block.feed(text.as_str()),
            None => {
                proof {
                    assert(rest.skip(n) =~= input.skip(used + n));
                    if n == 0 {
                        assert(rest.take(0) =~= Seq::<u8>::empty());
                        assert(valid_utf8(Seq::<u8>::empty()));
                    }
                }
                return Err(HttpRequestError::opaque());
            },
        };
        match next {
            Step::Headers(b) => {
                proof {
                    assert(n > 0) by {
                        if n == 0 {
                            assert(rest.take(0) =~= Seq::<u8>::empty());
                            assert(decode_utf8(Seq::<u8>::empty()) =~= Seq::<char>::empty());
                        }
                    }
                    assert(rest.skip(n) =~= input.skip(used + n));
                    used = used + n;
                }
                block = b;
            },
            step => {
                let ghost after = reader.remaining();
                let r = conclude(step, reader);
                proof {
                    assert(after.skip(settle(step@, after).1) =~= input.skip(
                        used + n + settle(step@, after).1,
                    ));
                    if n == 0 {
                        assert(rest.take(0) =~= Seq::<u8>::empty());
                        assert(decode_utf8(Seq::<u8>::empty()) =~= Seq::<char>::empty());
                        assert(rest.skip(0) =~= rest);
                    }
                }
                return r;
            },
        }
    }
}

/// Whether the body of a request is as long as its framing says, with `left`
/// bytes of the stream remaining behind it: empty for `GET`; otherwise as
/// long as the last `content-length` value says; without that header, all
/// that the stream held.
pub open spec fn well_framed(request: RequestModel, left: int) -> bool {
    if request.method == "GET"@ {
        request.body.len() == 0
    } else if request.headers.contains_key("content-length"@) {
        parse_length(request.headers["content-length"@].last()) == Some(
            request.body.len() as usize,
        )
    } else {
        left == 0
    }
}

/// A request that comes out of the header block is well framed, and what was
/// consumed lies within the input.
proof fn lemma_read_headers(line: LineModel, headers: HeaderMap, rest: Seq<u8>)
    ensures
        0 <= read_headers(line, headers, rest).1 <= rest.len(),
        read_headers(line, headers, rest).0 matches Ok(Some(request)) ==> well_framed(
            request,
            rest.len() - read_headers(line, headers, rest).1,
        ),
    decreases rest.len(),
{
    lemma_line_len(rest);
    let n = line_len(rest);
    let text = rest.take(n);
    if n > 0 && valid_utf8(text) {
        match feed_step(line, headers, decode_utf8(text)) {
            StepModel::Headers(l, h) => {
                lemma_read_headers(l, h, rest.skip(n));
            },
            _ => {},
        }
    }
}

/// Reading consumes no more than there is.
pub proof fn lemma_read_within_input(input: Seq<u8>)
    ensures
        0 <= read_outcome(input).1 <= input.len(),
{
    lemma_line_len(input);
    let n = line_len(input);
    if valid_utf8(input.take(n)) {
        match begin_step(decode_utf8(input.take(n))) {
            StepModel::Headers(l, h) => {
                lemma_read_headers(l, h, input.skip(n));
            },
            _ => {},
        }
    }
}

/// The headers that stand on the lines at the front of `rest`: they end at
/// a blank line, at the end of the stream, or at a line that is no header.
pub open spec fn headers_on(rest: Seq<u8>) -> Seq<(Seq<char>, Seq<char>)>
    decreases rest.len(),
{
    let n = line_len(rest);
    let text = rest.take(n);
    if n <= 0 || n > rest.len() || !valid_utf8(text) || trim(decode_utf8(text)).len() == 0 {
        Seq::empty()
    } else {
        match header_parts(decode_utf8(text)) {
            Some(parts) => seq![parts] + headers_on(rest.skip(n)),
            None => Seq::empty(),
        }
    }
}

/// A request that comes out of the header block has the request line that
/// went in, and the headers that went in with those of the lines added.
proof fn lemma_read_headers_collects(line: LineModel, headers: HeaderMap, rest: Seq<u8>)
    ensures
        read_headers(line, headers, rest).0 matches Ok(Some(request)) ==> {
            &&& request.method == line.method
            &&& request.target == line.target
            &&& request.version == line.version
            &&& request.headers == collect_onto(headers, headers_on(rest))
        },
    decreases rest.len(),
{
    lemma_line_len(rest);
    let n = line_len(rest);
    let text = rest.take(n);
    if n > 0 && valid_utf8(text) {
        match feed_step(line, headers, decode_utf8(text)) {
            StepModel::Headers(l, h) => {
                lemma_read_headers_collects(l, h, rest.skip(n));
                let parts = header_parts(decode_utf8(text))->Some_0;
                let run = headers_on(rest);
                assert(run[0] == parts);
                assert(run.skip(1) =~= headers_on(rest.skip(n)));
            },
            _ => {},
        }
    }
}

/// A request that is read has the parts of its first line, and under each
/// key the values of the header lines that followed, in their order.
pub proof fn lemma_read_collects_headers(input: Seq<u8>, request: RequestModel)
    requires
        read_outcome(input).0 == Ok::<Option<RequestModel>, Option<Seq<char>>>(Some(request)),
    ensures
        request_line_parts(trim_end(decode_utf8(input.take(line_len(input))))) == Some(
            LineModel {
                method: request.method,
                target: request.target,
                version: request.version,
            },
        ),
        request.headers == collect(headers_on(input.skip(line_len(input)))),
{
    lemma_line_len(input);
    let n = line_len(input);
    match begin_step(decode_utf8(input.take(n))) {
        StepModel::Headers(l, h) => {
            lemma_read_headers_collects(l, h, input.skip(n));
            lemma_collect_from_empty(headers_on(input.skip(n)));
        },
        _ => {},
    }
}

/// Every request that is read is well framed: a `GET` request has no body, a
/// request with a `content-length` header has a body of exactly the length
/// that the header's last value declares, and any other request has taken
/// the stream to its end.
pub proof fn lemma_read_is_well_framed(input: Seq<u8>, request: RequestModel)
    requires
        read_outcome(input).0 == Ok::<Option<RequestModel>, Option<Seq<char>>>(Some(request)),
    ensures
        well_framed(request, input.len() - read_outcome(input).1),
{
    lemma_line_len(input);
    let n = line_len(input);
    match begin_step(decode_utf8(input.take(n))) {
        StepModel::Headers(l, h) => {
            lemma_read_headers(l, h, input.skip(n));
        },
        _ => {},
    }
}

/// A request other than `GET` that declares a content length has a body of
/// exactly that many bytes.
pub proof fn lemma_declared_length_is_body_length(input: Seq<u8>, request: RequestModel)
    requires
        read_outcome(input).0 == Ok::<Option<RequestModel>, Option<Seq<char>>>(Some(request)),
        request.method != "GET"@,
        request.headers.contains_key("content-length"@),
    ensures
        parse_length(request.headers["content-length"@].last()) == Some(
            request.body.len() as usize,
        ),
{
    lemma_read_is_well_framed(input, request);
}

/// A request other than `GET` that declares no content length takes all that
/// is left of the stream, so that the next read finds its end.
pub proof fn lemma_undeclared_length_takes_all(input: Seq<u8>, request: RequestModel)
    requires
        read_outcome(input).0 == Ok::<Option<RequestModel>, Option<Seq<char>>>(Some(request)),
        request.method != "GET"@,
        !request.headers.contains_key("content-length"@),
    ensures
        read_outcome(input).1 == input.len(),
        read_outcome(input.skip(read_outcome(input).1)) == (
            Ok::<Option<RequestModel>, Option<Seq<char>>>(None),
            0int,
        ),
{
    lemma_read_is_well_framed(input, request);
    lemma_read_at_end();
    assert(input.skip(input.len() as int) =~= Seq::<u8>::empty());
}

/// At the end of the stream a read gives no request and consumes nothing.
pub proof fn lemma_read_at_end()
    ensures
        read_outcome(Seq::<u8>::empty()) == (
            Ok::<Option<RequestModel>, Option<Seq<char>>>(None),
            0int,
        ),
{
    let input = Seq::<u8>::empty();
    assert(line_len(input) == 0);
    assert(input.take(0) =~= input);
    assert(valid_utf8(input));
    assert(decode_utf8(input) =~= Seq::<char>::empty());
}

} // verus!

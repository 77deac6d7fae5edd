//! States a request and an answer without naming a transport.

use crate::http::method::{HttpMethod, HttpStatus, BAD_REQUEST, INTERNAL, METHOD_NOT_ALLOWED, NOT_FOUND};
use crate::text::{append_decimal, ascii_lower, ascii_text, decimal};
use vstd::prelude::*;
use vstd::slice::slice_to_vec;
use vstd::string::*;
use vstd::utf8::{decode_utf8, encode_utf8, valid_utf8};

verus! {

/// What `str::to_lowercase` makes of a text.
pub uninterp spec fn lowercased(text: Seq<char>) -> Seq<char>;

/// What `String::from_utf8_lossy` makes of bytes.
pub uninterp spec fn lossy_decoded(bytes: Seq<u8>) -> Seq<char>;

/// Calls `str::to_lowercase`. Its result is named, not stated in full: Unicode case mapping can
/// change a text's length. The contract claims that the result is a function of the text, and that
/// an ASCII text has each letter `A` to `Z` made `a` to `z` and every other character kept.
#[verifier::external_body]
pub(crate) fn lower_text(text: &str) -> (r: String)
    ensures
        r@ == lowercased(text@),
        ascii_text(text@) ==> r@ == text@.map_values(|c: char| ascii_lower(c)),
{
    text.to_lowercase()
}

/// Calls `String::from_utf8_lossy`. The contract claims that the result is a function of the
/// bytes, and that bytes which are valid UTF-8 read as the text they encode; what replaces an
/// invalid sequence is left unsaid.
#[verifier::external_body]
pub(crate) fn lossy_text(bytes: &[u8]) -> (r: String)
    ensures
        r@ == lossy_decoded(bytes@),
        valid_utf8(bytes@) ==> r@ == decode_utf8(bytes@),
{
    String::from_utf8_lossy(bytes).into_owned()
}

/// The bytes a text is encoded as.
pub fn utf8_bytes(text: &str) -> (r: Vec<u8>)
    ensures
        r@ == encode_utf8(text@),
{
    slice_to_vec(text.as_bytes())
}

/// A copy of bytes.
pub fn copy_bytes(bytes: &[u8]) -> (r: Vec<u8>)
    ensures
        r@ == bytes@,
{
    slice_to_vec(bytes)
}

/// A header list, as text.
pub open spec fn headers_view(headers: Seq<(String, String)>) -> Seq<(Seq<char>, Seq<char>)> {
    headers.map_values(|header: (String, String)| (header.0@, header.1@))
}

/// The value of the first header stated under a name.
pub open spec fn header_value(headers: Seq<(Seq<char>, Seq<char>)>, name: Seq<char>) -> Option<
    Seq<char>,
>
    decreases headers.len(),
{
    if headers.len() == 0 {
        None
    } else if headers[0].0 == name {
        Some(headers[0].1)
    } else {
        header_value(headers.drop_first(), name)
    }
}

/// A text without the `?`s it starts with.
pub open spec fn without_leading_question(text: Seq<char>) -> Seq<char>
    decreases text.len(),
{
    if text.len() > 0 && text[0] == '?' {
        without_leading_question(text.drop_first())
    } else {
        text
    }
}

/// Finds the first header stated under a name, which the caller has already lower-cased.
fn find_header<'a>(headers: &'a [(String, String)], name: &String) -> (r: Option<&'a str>)
    ensures
        match r {
            Some(value) => header_value(headers_view(headers@), name@) == Some(value@),
            None => header_value(headers_view(headers@), name@) is None,
        },
{
    let ghost all = headers_view(headers@);
    let mut i: usize = 0;
    assert(all.skip(0) =~= all);
    while i < headers.len()
        invariant
            i <= headers.len(),
            all == headers_view(headers@),
            header_value(all, name@) == header_value(all.skip(i as int), name@),
        decreases headers.len() - i,
    {
        proof {
            assert(all.skip(i as int)[0] == all[i as int]);
            assert(all.skip(i as int).drop_first() =~= all.skip(i + 1));
        }
        if headers[i].0 == *name {
            return Some(headers[i].1.as_str());
        }
        i = i + 1;
    }
    proof {
        assert(all.skip(i as int).len() == 0);
    }
    None
}

/// A copy of a header list.
fn copy_headers(headers: &[(String, String)]) -> (r: Vec<(String, String)>)
    ensures
        headers_view(r@) == headers_view(headers@),
{
    let mut r: Vec<(String, String)> = Vec::new();
    let mut i: usize = 0;
    while i < headers.len()
        invariant
            i <= headers.len(),
            r@.len() == i,
            headers_view(r@) == headers_view(headers@.take(i as int)),
        decreases headers.len() - i,
    {
        let name = headers[i].0.clone();
        let value = headers[i].1.clone();
        let ghost before = r@;
        r.push((name, value));
        proof {
            assert(r@ == before.push((name, value)));
            assert forall|k: int| 0 <= k < i + 1 implies #[trigger] headers_view(r@)[k]
                == headers_view(headers@.take(i + 1))[k] by {
                if k < i {
                    assert(headers_view(before)[k] == headers_view(headers@.take(i as int))[k]);
                }
            }
            assert(headers_view(r@) =~= headers_view(headers@.take(i + 1)));
        }
        i = i + 1;
    }
    proof {
        assert(headers@.take(i as int) =~= headers@);
    }
    r
}

/// What a caller sent, as values.
pub ghost struct RequestView {
    /// The method it was sent under, where one was stated.
    pub method: Option<HttpMethod>,
    /// The path it asks for.
    pub path: Seq<char>,
    /// The query string, without its leading separator.
    pub query: Seq<char>,
    /// Each header, its name lower-cased, in the order stated.
    pub headers: Seq<(Seq<char>, Seq<char>)>,
    /// The body.
    pub body: Seq<u8>,
}

/// What a caller sent, stated without a transport.
///
/// Whatever moves bytes decides how a request arrives; this is only what arrived.
#[derive(Debug)]
pub struct DirectRequest {
    method: Option<HttpMethod>,
    path: String,
    query: String,
    headers: Vec<(String, String)>,
    body: Vec<u8>,
}

impl View for DirectRequest {
    type V = RequestView;

    closed spec fn view(&self) -> RequestView {
        RequestView {
            method: self.method,
            path: self.path@,
            query: self.query@,
            headers: headers_view(self.headers@),
            body: self.body@,
        }
    }
}

impl Default for DirectRequest {
    fn default() -> (r: Self)
        ensures
            r@ == (RequestView {
                method: None,
                path: Seq::empty(),
                query: Seq::empty(),
                headers: Seq::empty(),
                body: Seq::empty(),
            }),
    {
        let r = DirectRequest {
            method: None,
            path: String::new(),
            query: String::new(),
            headers: Vec::new(),
            body: Vec::new(),
        };
        proof {
            assert(headers_view(r.headers@) =~= Seq::empty());
        }
        r
    }
}

impl Clone for DirectRequest {
    fn clone(&self) -> (r: Self)
        ensures
            r@ == self@,
    {
        DirectRequest {
            method: self.method,
            path: self.path.clone(),
            query: self.query.clone(),
            headers: copy_headers(self.headers.as_slice()),
            body: slice_to_vec(self.body.as_slice()),
        }
    }
}

impl DirectRequest {
    /// States a request for one path under one method.
    pub fn new(method: HttpMethod, path: &str) -> (r: Self)
        ensures
            r@ == (RequestView {
                method: Some(method),
                path: path@,
                query: Seq::empty(),
                headers: Seq::empty(),
                body: Seq::empty(),
            }),
    {
        let r = DirectRequest {
            method: Some(method),
            path: path.to_owned(),
            query: String::new(),
            headers: Vec::new(),
            body: Vec::new(),
        };
        proof {
            assert(headers_view(r.headers@) =~= Seq::empty());
        }
        r
    }

    /// States the query string the caller sent, without its leading separator.
    pub fn with_query(self, query: &str) -> (r: Self)
        ensures
            r@ == (RequestView { query: without_leading_question(query@), ..self@ }),
    {
        let n = query.unicode_len();
        let mut start: usize = 0;
        assert(query@.skip(0) =~= query@);
        while start < n && query.get_char(start) == '?'
            invariant
                start <= n,
                n == query@.len(),
                without_leading_question(query@) == without_leading_question(
                    query@.skip(start as int),
                ),
            decreases n - start,
        {
            proof {
                assert(query@.skip(start as int).drop_first() =~= query@.skip(start + 1));
            }
            start = start + 1;
        }
        proof {
            assert(query@.subrange(start as int, n as int) =~= query@.skip(start as int));
        }
        let mut this = self;
        this.query = query.substring_char(start, n).to_owned();
        this
    }

    /// States one header the caller sent, its name lower-cased.
    pub fn with_header(self, name: &str, value: &str) -> (r: Self)
        ensures
            r@ == (RequestView {
                headers: self@.headers.push((lowercased(name@), value@)),
                ..self@
            }),
    {
        let mut this = self;
        let ghost before = this.headers@;
        let header = (lower_text(name), value.to_owned());
        this.headers.push(header);
        proof {
            assert(headers_view(this.headers@) =~= headers_view(before).push(
                (lowercased(name@), value@),
            ));
        }
        this
    }

    /// States the body the caller sent.
    pub fn with_body(self, body: Vec<u8>) -> (r: Self)
        ensures
            r@ == (RequestView { body: body@, ..self@ }),
    {
        let mut this = self;
        this.body = body;
        this
    }

    /// Returns the method this request was sent under.
    pub fn method(&self) -> (r: Option<HttpMethod>)
        ensures
            r == self@.method,
    {
        self.method
    }

    /// Returns the path this request asks for.
    pub fn path(&self) -> (r: &str)
        ensures
            r@ == self@.path,
    {
        self.path.as_str()
    }

    /// Returns the query string this request carries.
    pub fn query(&self) -> (r: &str)
        ensures
            r@ == self@.query,
    {
        self.query.as_str()
    }

    /// Returns the value of the first header stated under a name, matched without regard to case.
    pub fn header(&self, name: &str) -> (r: Option<&str>)
        ensures
            match r {
                Some(value) => header_value(self@.headers, lowercased(name@)) == Some(value@),
                None => header_value(self@.headers, lowercased(name@)) is None,
            },
    {
        let name = lower_text(name);
        find_header(self.headers.as_slice(), &name)
    }

    /// Returns every header this request carries, in the order it states them.
    pub fn headers(&self) -> (r: &[(String, String)])
        ensures
            headers_view(r@) == self@.headers,
    {
        self.headers.as_slice()
    }

    /// Returns the body this request carries.
    pub fn body(&self) -> (r: &[u8])
        ensures
            r@ == self@.body,
    {
        self.body.as_slice()
    }
}

/// What an answer carries, which is either bytes already in hand or what produces them over time.
pub enum DirectBody<Chunks> {
    /// Bytes that are already there.
    Stated(Vec<u8>),
    /// Bytes produced over time, and what produces them.
    Produced(Chunks),
}

impl<Chunks> Default for DirectBody<Chunks> {
    fn default() -> (r: Self)
        ensures
            r matches DirectBody::Stated(body) && body@ == Seq::<u8>::empty(),
    {
        DirectBody::Stated(Vec::new())
    }
}

/// What a surface answered, as values: the bytes it carries are `None` while they are still to
/// come.
pub ghost struct ResponseView {
    /// The status.
    pub status: HttpStatus,
    /// Each header, its name lower-cased, in the order stated.
    pub headers: Seq<(Seq<char>, Seq<char>)>,
    /// The body, where it is already in hand.
    pub stated: Option<Seq<u8>>,
}

/// What a surface answered, stated without a transport.
pub struct DirectResponse<Chunks> {
    status: HttpStatus,
    headers: Vec<(String, String)>,
    body: DirectBody<Chunks>,
}

impl<Chunks> View for DirectResponse<Chunks> {
    type V = ResponseView;

    closed spec fn view(&self) -> ResponseView {
        ResponseView {
            status: self.status,
            headers: headers_view(self.headers@),
            stated: match self.body {
                DirectBody::Stated(body) => Some(body@),
                DirectBody::Produced(_) => None,
            },
        }
    }
}

impl<Chunks> DirectResponse<Chunks> {
    /// Answers with a status and nothing else.
    pub fn new(status: HttpStatus) -> (r: Self)
        ensures
            r@ == (ResponseView {
                status,
                headers: Seq::empty(),
                stated: Some(Seq::empty()),
            }),
    {
        let r = DirectResponse { status, headers: Vec::new(), body: DirectBody::default() };
        proof {
            assert(headers_view(r.headers@) =~= Seq::empty());
        }
        r
    }

    /// Answers with a status, a content type, and a body.
    pub fn content(status: HttpStatus, content_type: &str, body: Vec<u8>) -> (r: Self)
        ensures
            r@ == (ResponseView {
                status,
                headers: seq![(lowercased("content-type"@), content_type@)],
                stated: Some(body@),
            }),
    {
        let r = Self::new(status).with_header("content-type", content_type).with_body(body);
        proof {
            assert(Seq::<(Seq<char>, Seq<char>)>::empty().push(
                (lowercased("content-type"@), content_type@),
            ) =~= seq![(lowercased("content-type"@), content_type@)]);
        }
        r
    }

    /// States one header on this answer, its name lower-cased.
    pub fn with_header(self, name: &str, value: &str) -> (r: Self)
        ensures
            r@ == (ResponseView {
                headers: self@.headers.push((lowercased(name@), value@)),
                ..self@
            }),
    {
        let mut this = self;
        let ghost before = this.headers@;
        let header = (lower_text(name), value.to_owned());
        this.headers.push(header);
        proof {
            assert(headers_view(this.headers@) =~= headers_view(before).push(
                (lowercased(name@), value@),
            ));
        }
        this
    }

    /// States the body of this answer.
    pub fn with_body(self, body: Vec<u8>) -> (r: Self)
        ensures
            r@ == (ResponseView { stated: Some(body@), ..self@ }),
    {
        let mut this = self;
        this.body = DirectBody::Stated(body);
        this
    }

    /// States a body this answer produces over time.
    pub fn with_chunks(self, chunks: Chunks) -> (r: Self)
        ensures
            r@ == (ResponseView { stated: None, ..self@ }),
            r.into_body_spec() == DirectBody::Produced(chunks),
    {
        let mut this = self;
        this.body = DirectBody::Produced(chunks);
        this
    }

    /// What this answer carries.
    pub closed spec fn into_body_spec(self) -> DirectBody<Chunks> {
        self.body
    }

    /// Returns what this answer carries, which is either bytes or what produces them.
    pub fn into_body(self) -> (r: DirectBody<Chunks>)
        ensures
            r == self.into_body_spec(),
            match r {
                DirectBody::Stated(body) => self@.stated == Some(body@),
                DirectBody::Produced(_) => self@.stated is None,
            },
    {
        self.body
    }

    /// Answers the same thing with its body read whole: the bytes read, or, where reading failed,
    /// the failure's text under `INTERNAL`. A body already in hand is already collected.
    pub fn collected(self, read: Result<Vec<u8>, String>) -> (r: Self)
        ensures
            self@.stated is Some ==> r@ == self@,
            self@.stated is None ==> match read {
                Ok(bytes) => r@ == (ResponseView { stated: Some(bytes@), ..self@ }),
                Err(error) => r@ == (ResponseView {
                    status: INTERNAL,
                    stated: Some(encode_utf8(error@)),
                    ..self@
                }),
            },
    {
        let mut this = self;
        match this.body {
            DirectBody::Stated(_) => this,
            DirectBody::Produced(_) => match read {
                Ok(bytes) => {
                    this.body = DirectBody::Stated(bytes);
                    this
                },
                Err(error) => {
                    this.body = DirectBody::Stated(utf8_bytes(error.as_str()));
                    this.status = INTERNAL;
                    this
                },
            },
        }
    }

    /// Answers the same thing under a different status.
    pub fn with_status(self, status: HttpStatus) -> (r: Self)
        ensures
            r@ == (ResponseView { status, ..self@ }),
    {
        let mut this = self;
        this.status = status;
        this
    }

    /// Returns the status this answer carries.
    pub fn status(&self) -> (r: HttpStatus)
        ensures
            r == self@.status,
    {
        self.status
    }

    /// Returns the value of the first header stated under a name, matched without regard to case.
    pub fn header(&self, name: &str) -> (r: Option<&str>)
        ensures
            match r {
                Some(value) => header_value(self@.headers, lowercased(name@)) == Some(value@),
                None => header_value(self@.headers, lowercased(name@)) is None,
            },
    {
        let name = lower_text(name);
        find_header(self.headers.as_slice(), &name)
    }

    /// Returns every header this answer carries, in the order it states them.
    pub fn headers(&self) -> (r: &[(String, String)])
        ensures
            headers_view(r@) == self@.headers,
    {
        self.headers.as_slice()
    }

    /// Returns the bytes this answer already carries, which a body still to come has none of.
    pub fn body(&self) -> (r: &[u8])
        ensures
            r@ == match self@.stated {
                Some(body) => body,
                None => Seq::empty(),
            },
    {
        match &self.body {
            DirectBody::Stated(body) => body.as_slice(),
            DirectBody::Produced(_) => &[],
        }
    }

    /// Returns the body read as text, however it was encoded.
    pub fn text(&self) -> (r: String)
        ensures
            r@ == lossy_decoded(self.body_bytes()),
            valid_utf8(self.body_bytes()) ==> r@ == decode_utf8(self.body_bytes()),
    {
        lossy_text(self.body())
    }

    /// The bytes this answer already carries.
    pub open spec fn body_bytes(&self) -> Seq<u8> {
        match self@.stated {
            Some(body) => body,
            None => Seq::empty(),
        }
    }
}

/// Where reading a produced body stands after one more piece was asked for.
#[derive(Debug)]
pub enum Gathering {
    /// Still reading: the bytes read so far.
    Reading(Vec<u8>),
    /// Done: every byte read, or the failure that stopped reading.
    Read(Result<Vec<u8>, String>),
}

/// What reading a body produced as pieces gives: the pieces joined in order, or the failure of the
/// first piece that failed.
pub open spec fn gathered(pieces: Seq<Result<Seq<u8>, Seq<char>>>) -> Result<Seq<u8>, Seq<char>>
    decreases pieces.len(),
{
    if pieces.len() == 0 {
        Ok(Seq::empty())
    } else {
        match pieces[0] {
            Err(failure) => Err(failure),
            Ok(piece) => match gathered(pieces.drop_first()) {
                Ok(rest) => Ok(piece + rest),
                Err(failure) => Err(failure),
            },
        }
    }
}

/// Reading the pieces one step at a time, as `gather` does, from what was read so far: a piece
/// read is added to what was read, the first failure stops reading, and the end of the pieces
/// gives what was read.
pub open spec fn gathered_from(
    read: Seq<u8>,
    pieces: Seq<Result<Seq<u8>, Seq<char>>>,
) -> Result<Seq<u8>, Seq<char>>
    decreases pieces.len(),
{
    if pieces.len() == 0 {
        Ok(read)
    } else {
        match pieces[0] {
            Err(failure) => Err(failure),
            Ok(piece) => gathered_from(read + piece, pieces.drop_first()),
        }
    }
}

/// Takes one more piece of a produced body: a piece is added to what was read, a failure ends
/// reading with that failure, and no piece left ends reading with what was read.
pub fn gather(read: Vec<u8>, piece: Option<Result<Vec<u8>, String>>) -> (r: Gathering)
    ensures
        match piece {
            None => r matches Gathering::Read(Ok(bytes)) && bytes@ == read@,
            Some(Ok(more)) => r matches Gathering::Reading(bytes) && bytes@ == read@ + more@,
            Some(Err(failure)) => r matches Gathering::Read(Err(stated)) && stated@ == failure@,
        },
{
    match piece {
        None => Gathering::Read(Ok(read)),
        Some(Ok(more)) => {
            let mut read = read;
            let mut more = more;
            read.append(&mut more);
            Gathering::Reading(read)
        },
        Some(Err(failure)) => Gathering::Read(Err(failure)),
    }
}

/// Reading a produced body a piece at a time from nothing read gives the pieces joined in order,
/// or the failure of the first piece that failed, no piece after it being read.
pub proof fn law_gathering_reads_to_first_failure(pieces: Seq<Result<Seq<u8>, Seq<char>>>)
    ensures
        gathered_from(Seq::empty(), pieces) == gathered(pieces),
{
    lemma_gathered_from(Seq::empty(), pieces);
    if let Ok(bytes) = gathered(pieces) {
        assert(Seq::<u8>::empty() + bytes =~= bytes);
    }
}

/// Reading on from bytes already read adds them before what the pieces give.
proof fn lemma_gathered_from(read: Seq<u8>, pieces: Seq<Result<Seq<u8>, Seq<char>>>)
    ensures
        gathered_from(read, pieces) == match gathered(pieces) {
            Ok(bytes) => Ok::<Seq<u8>, Seq<char>>(read + bytes),
            Err(failure) => Err(failure),
        },
    decreases pieces.len(),
{
    if pieces.len() == 0 {
        assert(read + Seq::<u8>::empty() =~= read);
    } else {
        if let Ok(piece) = pieces[0] {
            lemma_gathered_from(read + piece, pieces.drop_first());
            if let Ok(rest) = gathered(pieces.drop_first()) {
                assert(read + piece + rest =~= read + (piece + rest));
            }
        }
    }
}

/// A failure that states the status it is answered with and a message.
pub trait HttpErrorAlg {
    /// The status the failure is answered with.
    spec fn spec_http_status(&self) -> HttpStatus;

    /// The message the failure states.
    spec fn spec_http_message(&self) -> Seq<char>;

    /// Returns the status the failure is answered with.
    fn http_status(&self) -> (r: HttpStatus)
        ensures
            r == self.spec_http_status(),
    ;

    /// Returns the message the failure states.
    fn http_message(&self) -> (r: String)
        ensures
            r@ == self.spec_http_message(),
    ;
}

/// What the interpretation itself answers when no handler can be reached.
///
/// A domain states its own failures; these are the ones routing and reading a request produce.
#[derive(Debug)]
pub struct DirectError {
    status: HttpStatus,
    message: String,
}

/// A failure, as values: its status and its message.
pub ghost struct ErrorView {
    /// The status it is answered with.
    pub status: HttpStatus,
    /// The message it states.
    pub message: Seq<char>,
}

impl View for DirectError {
    type V = ErrorView;

    closed spec fn view(&self) -> ErrorView {
        ErrorView { status: self.status, message: self.message@ }
    }
}

/// The message stating that nothing is declared at a path.
pub open spec fn not_found_message(path: Seq<char>) -> Seq<char> {
    "nothing answers at `"@ + path + "`"@
}

/// The message stating that a path does not answer the method asked for.
pub open spec fn method_not_allowed_message(path: Seq<char>) -> Seq<char> {
    "`"@ + path + "` does not answer this method"@
}

/// The message stating that an argument could not be read.
pub open spec fn unreadable_message(role: Seq<char>, reason: Seq<char>) -> Seq<char> {
    "the "@ + role + " could not be read: "@ + reason
}

impl DirectError {
    /// States a failure with the status it is answered with.
    pub fn new(status: HttpStatus, message: String) -> (r: Self)
        ensures
            r@ == (ErrorView { status, message: message@ }),
    {
        DirectError { status, message }
    }

    /// States that nothing is declared at a path.
    pub fn not_found(path: &str) -> (r: Self)
        ensures
            r@ == (ErrorView { status: NOT_FOUND, message: not_found_message(path@) }),
    {
        let mut message = String::from_str("nothing answers at `");
        message.append(path);
        message.append("`");
        DirectError { status: NOT_FOUND, message }
    }

    /// States that something is declared at a path, but not under this method.
    pub fn method_not_allowed(path: &str) -> (r: Self)
        ensures
            r@ == (ErrorView {
                status: METHOD_NOT_ALLOWED,
                message: method_not_allowed_message(path@),
            }),
    {
        let mut message = String::from_str("`");
        message.append(path);
        message.append("` does not answer this method");
        DirectError { status: METHOD_NOT_ALLOWED, message }
    }

    /// States that an argument could not be read from where its role says it comes from.
    pub fn unreadable(role: &str, reason: &str) -> (r: Self)
        ensures
            r@ == (ErrorView { status: BAD_REQUEST, message: unreadable_message(role@, reason@) }),
    {
        let mut message = String::from_str("the ");
        message.append(role);
        message.append(" could not be read: ");
        message.append(reason);
        DirectError { status: BAD_REQUEST, message }
    }

    /// The failure written out: its message, then its status code in brackets.
    pub fn describe(&self) -> (r: String)
        ensures
            r@ == self@.message + " ("@ + decimal(self@.status as nat) + ")"@,
    {
        let mut r = self.message.clone();
        r.append(" (");
        append_decimal(&mut r, self.status as u64);
        r.append(")");
        r
    }

    /// Answers with what this failure states: its status, as plain text.
    pub fn into_response<Chunks>(self) -> (r: DirectResponse<Chunks>)
        ensures
            r@ == (ResponseView {
                status: self@.status,
                headers: seq![(lowercased("content-type"@), "text/plain; charset=utf-8"@)],
                stated: Some(encode_utf8(self@.message)),
            }),
    {
        let body = utf8_bytes(self.message.as_str());
        DirectResponse::content(self.status, "text/plain; charset=utf-8", body)
    }
}

impl HttpErrorAlg for DirectError {
    open spec fn spec_http_status(&self) -> HttpStatus {
        self@.status
    }

    open spec fn spec_http_message(&self) -> Seq<char> {
        self@.message
    }

    fn http_status(&self) -> (r: HttpStatus) {
        self.status
    }

    fn http_message(&self) -> (r: String) {
        self.message.clone()
    }
}

/// Reading a header after stating it gives the first value stated under its name: the new value
/// where none was stated before, and the earlier one otherwise.
pub proof fn law_header_read_after_write(
    headers: Seq<(Seq<char>, Seq<char>)>,
    name: Seq<char>,
    value: Seq<char>,
)
    ensures
        header_value(headers.push((name, value)), name) == match header_value(headers, name) {
            Some(earlier) => Some(earlier),
            None => Some(value),
        },
    decreases headers.len(),
{
    if headers.len() > 0 {
        assert(headers.push((name, value)).drop_first() =~= headers.drop_first().push(
            (name, value),
        ));
        law_header_read_after_write(headers.drop_first(), name, value);
    }
}

/// Stating a header under one name leaves what is read under every other name as it was.
pub proof fn law_header_other_name(
    headers: Seq<(Seq<char>, Seq<char>)>,
    name: Seq<char>,
    value: Seq<char>,
    other: Seq<char>,
)
    requires
        other != name,
    ensures
        header_value(headers.push((name, value)), other) == header_value(headers, other),
    decreases headers.len(),
{
    if headers.len() > 0 {
        assert(headers.push((name, value)).drop_first() =~= headers.drop_first().push(
            (name, value),
        ));
        law_header_other_name(headers.drop_first(), name, value, other);
        assert(headers.push((name, value))[0] == headers[0]);
    } else {
        let pushed = headers.push((name, value));
        assert(pushed.drop_first() =~= headers);
        assert(pushed[0].0 == name);
        assert(header_value(headers, other) is None);
    }
}

} // verus!

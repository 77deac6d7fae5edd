//! Renders each output kind as the answer it states.
//!
//! What a value is written as (its JSON encoding, its text) is worked out where the value's type is
//! known; each renderer here takes what that gave and states the whole answer.

use crate::http::message::{
    lowercased, utf8_bytes, DirectResponse, HttpErrorAlg, ResponseView,
};
use crate::http::method::{HttpStatus, INTERNAL, NO_CONTENT, OK, SEE_OTHER};
use core::marker::PhantomData;
use vstd::prelude::*;
use vstd::string::*;
use vstd::utf8::encode_utf8;

verus! {

/// The answer stating a body under a status and a content type.
pub open spec fn content_view(status: HttpStatus, content_type: Seq<char>, body: Seq<u8>) -> ResponseView {
    ResponseView {
        status,
        headers: seq![(lowercased("content-type"@), content_type)],
        stated: Some(body),
    }
}

/// The plain-text content type.
pub open spec fn plain_text() -> Seq<char> {
    "text/plain; charset=utf-8"@
}

/// Renders a semantic result as a JSON answer.
pub struct DirectJsonOutput;

impl DirectJsonOutput {
    /// Answers with the encoded value as JSON, or with why it could not be encoded.
    pub fn render<Chunks>(encoded: Result<Vec<u8>, String>) -> (r: DirectResponse<Chunks>)
        ensures
            r@ == match encoded {
                Ok(body) => content_view(OK, "application/json"@, body@),
                Err(error) => content_view(INTERNAL, plain_text(), encode_utf8(error@)),
            },
    {
        match encoded {
            Ok(body) => DirectResponse::content(OK, "application/json", body),
            Err(error) => {
                let body = utf8_bytes(error.as_str());
                DirectResponse::content(INTERNAL, "text/plain; charset=utf-8", body)
            },
        }
    }
}

/// Renders a semantic result as a plain-text answer.
pub struct DirectTextOutput;

impl DirectTextOutput {
    /// Answers with the text.
    pub fn render<Chunks>(text: &str) -> (r: DirectResponse<Chunks>)
        ensures
            r@ == content_view(OK, plain_text(), encode_utf8(text@)),
    {
        DirectResponse::content(OK, "text/plain; charset=utf-8", utf8_bytes(text))
    }
}

/// Renders a semantic result as an HTML answer.
pub struct DirectHtmlOutput;

impl DirectHtmlOutput {
    /// Answers with the page.
    pub fn render<Chunks>(page: &str) -> (r: DirectResponse<Chunks>)
        ensures
            r@ == content_view(OK, "text/html; charset=utf-8"@, encode_utf8(page@)),
    {
        DirectResponse::content(OK, "text/html; charset=utf-8", utf8_bytes(page))
    }
}

/// Renders a semantic result as a raw-byte answer.
pub struct DirectBytesOutput;

impl DirectBytesOutput {
    /// Answers with the bytes.
    pub fn render<Chunks>(bytes: Vec<u8>) -> (r: DirectResponse<Chunks>)
        ensures
            r@ == content_view(OK, "application/octet-stream"@, bytes@),
    {
        DirectResponse::content(OK, "application/octet-stream", bytes)
    }
}

/// Renders a handler that returns nothing as an answer with no body.
pub struct DirectEmptyOutput;

impl DirectEmptyOutput {
    /// Answers with nothing.
    pub fn render<Chunks>() -> (r: DirectResponse<Chunks>)
        ensures
            r@ == (ResponseView { status: NO_CONTENT, headers: Seq::empty(), stated: Some(Seq::empty()) }),
    {
        DirectResponse::new(NO_CONTENT)
    }
}

/// Renders a semantic location as a redirect.
pub struct DirectRedirectOutput;

impl DirectRedirectOutput {
    /// Answers that what was asked for is found at the location.
    pub fn render<Chunks>(location: &str) -> (r: DirectResponse<Chunks>)
        ensures
            r@ == (ResponseView {
                status: SEE_OTHER,
                headers: seq![(lowercased("location"@), location@)],
                stated: Some(Seq::empty()),
            }),
    {
        let r = DirectResponse::new(SEE_OTHER).with_header("location", location);
        proof {
            assert(Seq::<(Seq<char>, Seq<char>)>::empty().push((lowercased("location"@), location@))
                =~= seq![(lowercased("location"@), location@)]);
        }
        r
    }
}

/// A file name with every carriage return, line feed and double quote written as `_`, so it can
/// stand in a quoted header value.
pub open spec fn sanitized(name: Seq<char>) -> Seq<char> {
    name.map_values(|c: char| if c == '\r' || c == '\n' || c == '"' { '_' } else { c })
}

/// The header value offering a file under a name.
pub open spec fn disposition(name: Seq<char>) -> Seq<char> {
    "attachment; filename=\""@ + sanitized(name) + "\""@
}

/// Writes a file name so it can stand in a quoted header value.
fn sanitize(name: &str) -> (r: String)
    ensures
        r@ == sanitized(name@),
{
    let n = name.unicode_len();
    let mut r = String::new();
    let mut i: usize = 0;
    while i < n
        invariant
            i <= n,
            n == name@.len(),
            r@ == sanitized(name@.take(i as int)),
        decreases n - i,
    {
        let c = name.get_char(i);
        if c == '\r' || c == '\n' || c == '"' {
            r.append("_");
            proof {
                reveal_strlit("_");
            }
        } else {
            r.append(name.substring_char(i, i + 1));
        }
        proof {
            assert(sanitized(name@.take(i + 1)) =~= sanitized(name@.take(i as int)).push(
                if c == '\r' || c == '\n' || c == '"' {
                    '_'
                } else {
                    c
                },
            ));
        }
        i = i + 1;
    }
    proof {
        assert(name@.take(n as int) =~= name@);
    }
    r
}

/// Renders a semantic file result as a downloadable answer.
pub struct DirectFileOutput;

impl DirectFileOutput {
    /// Answers with the file, offered under its name, or with the status its failure states.
    pub fn render<Chunks, Error: HttpErrorAlg>(file: Result<Vec<u8>, Error>, name: &str) -> (r:
        DirectResponse<Chunks>)
        ensures
            r@ == match file {
                Ok(bytes) => (ResponseView {
                    status: OK,
                    headers: seq![
                        (lowercased("content-type"@), "application/octet-stream"@),
                        (lowercased("content-disposition"@), disposition(name@)),
                    ],
                    stated: Some(bytes@),
                }),
                Err(error) => (ResponseView {
                    status: error.spec_http_status(),
                    headers: Seq::empty(),
                    stated: Some(Seq::empty()),
                }),
            },
    {
        match file {
            Ok(bytes) => {
                let mut offered = String::from_str("attachment; filename=\"");
                let safe = sanitize(name);
                offered.append(safe.as_str());
                offered.append("\"");
                let r = DirectResponse::content(OK, "application/octet-stream", bytes).with_header(
                    "content-disposition",
                    offered.as_str(),
                );
                proof {
                    assert(offered@ == disposition(name@));
                    assert(seq![(lowercased("content-type"@), "application/octet-stream"@)].push(
                        (lowercased("content-disposition"@), disposition(name@)),
                    ) =~= seq![
                        (lowercased("content-type"@), "application/octet-stream"@),
                        (lowercased("content-disposition"@), disposition(name@)),
                    ]);
                }
                r
            },
            Err(error) => DirectResponse::new(error.http_status()),
        }
    }
}

/// Answers with a body produced over time.
///
/// Nothing is collected here: the answer carries what produces the bytes, and whatever moves them
/// drives it.
pub struct DirectStreamOutput;

impl DirectStreamOutput {
    /// Answers with what produces the body.
    pub fn render<Chunks>(chunks: Chunks) -> (r: DirectResponse<Chunks>)
        ensures
            r@ == (ResponseView {
                status: OK,
                headers: seq![(lowercased("content-type"@), "application/octet-stream"@)],
                stated: None,
            }),
    {
        let r = DirectResponse::new(OK).with_header("content-type", "application/octet-stream").with_chunks(
            chunks,
        );
        proof {
            assert(Seq::<(Seq<char>, Seq<char>)>::empty().push(
                (lowercased("content-type"@), "application/octet-stream"@),
            ) =~= seq![(lowercased("content-type"@), "application/octet-stream"@)]);
        }
        r
    }
}

/// Answers with a header the handler stated, beside the body it stated.
pub struct DirectHeaderOutput<Inner, Name>(PhantomData<(Inner, Name)>);

impl<Inner, Name> DirectHeaderOutput<Inner, Name> {
    /// Answers with what the inner output answered, and the header.
    pub fn render<Chunks>(inner: DirectResponse<Chunks>, name: &str, value: &str) -> (r:
        DirectResponse<Chunks>)
        ensures
            r@ == (ResponseView {
                headers: inner@.headers.push((lowercased(name@), value@)),
                ..inner@
            }),
    {
        inner.with_header(name, value)
    }
}

/// Answers with the status an endpoint declared, around the body it already states.
pub struct DirectStatusOutput<Inner, const CODE: u16>(PhantomData<Inner>);

impl<Inner, const CODE: u16> DirectStatusOutput<Inner, CODE> {
    /// Answers with what the inner output answered, under the declared status.
    pub fn render<Chunks>(inner: DirectResponse<Chunks>) -> (r: DirectResponse<Chunks>)
        ensures
            r@ == (ResponseView { status: CODE, ..inner@ }),
    {
        inner.with_status(CODE)
    }
}

/// Answers with what a failure means when the handler failed, and with the body it states otherwise.
pub struct DirectResultOutput<Inner, Error>(PhantomData<(Inner, Error)>);

impl<Inner, Error: HttpErrorAlg> DirectResultOutput<Inner, Error> {
    /// Answers with what the inner output answered, or with the failure's status and message.
    pub fn render<Chunks>(result: Result<DirectResponse<Chunks>, Error>) -> (r: DirectResponse<Chunks>)
        ensures
            match result {
                Ok(inner) => r@ == inner@,
                Err(error) => r@ == content_view(
                    error.spec_http_status(),
                    plain_text(),
                    encode_utf8(error.spec_http_message()),
                ),
            },
    {
        match result {
            Ok(inner) => inner,
            Err(error) => {
                let message = error.http_message();
                let status = error.http_status();
                DirectResponse::content(status, "text/plain; charset=utf-8", utf8_bytes(message.as_str()))
            },
        }
    }
}

/// Whether a character could end or break a quoted header value: a carriage return, a line feed or
/// a double quote.
pub open spec fn breaks_quoting(c: char) -> bool {
    c == '\r' || c == '\n' || c == '"'
}

/// Making a name safe to offer keeps its length and every character that cannot break a quoted
/// header value, puts `_` in place of each one that can, and so leaves a name holding none of them
/// as it is.
pub proof fn law_sanitizing_replaces_only_what_breaks_quoting(name: Seq<char>)
    ensures
        sanitized(name).len() == name.len(),
        forall|i: int|
            0 <= i < name.len() ==> (!breaks_quoting(name[i]) ==> #[trigger] sanitized(name)[i] == name[i])
                && (breaks_quoting(name[i]) ==> sanitized(name)[i] == '_'),
        (forall|i: int| 0 <= i < name.len() ==> !breaks_quoting(#[trigger] name[i])) ==> sanitized(name)
            == name,
        forall|i: int| 0 <= i < name.len() ==> !breaks_quoting(#[trigger] sanitized(name)[i]),
{
    if forall|i: int| 0 <= i < name.len() ==> !breaks_quoting(#[trigger] name[i]) {
        assert(sanitized(name) =~= name);
    }
}

} // verus!

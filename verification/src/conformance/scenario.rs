//! What answering the declared surface must produce, whoever answers it.
//!
//! The scenario names nothing of the domain and nothing of any framework. It states requests and
//! what they must be answered with, so anything exposing the surface can be held to it.

use crate::http::message::{
    header_value, lossy_decoded, lowercased, DirectRequest, DirectResponse, RequestView,
};
use crate::http::method::{HttpMethod, HttpStatus, CREATED, NOT_FOUND, NO_CONTENT, OK, SEE_OTHER};
use crate::text::{append_decimal, decimal};
use vstd::prelude::*;
use vstd::string::*;

verus! {

/// One exchange: a request, and what answering it must produce.
#[derive(Debug)]
pub struct Exchange {
    /// What this exchange is checking.
    pub what: &'static str,
    /// The request a caller makes.
    pub request: DirectRequest,
    /// The status the answer must carry.
    pub status: HttpStatus,
    /// The body the answer must carry, where the exchange states one.
    pub body: Option<&'static str>,
    /// A header the answer must carry, where the exchange states one.
    pub header: Option<(&'static str, &'static str)>,
}

impl Clone for Exchange {
    fn clone(&self) -> (r: Self)
        ensures
            r.what == self.what,
            r.request@ == self.request@,
            r.status == self.status,
            r.body == self.body,
            r.header == self.header,
    {
        Exchange {
            what: self.what,
            request: self.request.clone(),
            status: self.status,
            body: self.body,
            header: self.header,
        }
    }
}

/// A status that disagrees with the one stated, written out.
pub open spec fn status_disagreement(what: Seq<char>, answered: HttpStatus, stated: HttpStatus) -> Seq<
    char,
> {
    what + ": answered "@ + decimal(answered as nat) + " where "@ + decimal(stated as nat)
        + " was stated"@
}

/// A body that disagrees with the one stated, written out.
pub open spec fn body_disagreement(what: Seq<char>, answered: Seq<char>, stated: Seq<char>) -> Seq<
    char,
> {
    what + ": answered `"@ + answered + "` where `"@ + stated + "` was stated"@
}

/// A header that disagrees with the one stated, written out.
pub open spec fn header_disagreement(
    what: Seq<char>,
    name: Seq<char>,
    answered: Seq<char>,
    stated: Seq<char>,
) -> Seq<char> {
    what + ": answered `"@ + name + ": "@ + answered + "` where `"@ + name + ": "@ + stated
        + "` was stated"@
}

/// Where an answer disagrees with what an exchange states: its status, then its body read as text,
/// then the header the exchange names, each only where the exchange states one.
pub open spec fn disagreements_with<Chunks>(exchange: Exchange, answer: DirectResponse<Chunks>) -> Seq<
    Seq<char>,
> {
    let what = exchange.what@;
    let by_status = if answer@.status != exchange.status {
        seq![status_disagreement(what, answer@.status, exchange.status)]
    } else {
        Seq::empty()
    };
    let text = lossy_decoded(answer.body_bytes());
    let by_body = match exchange.body {
        Some(body) => if text != body@ {
            seq![body_disagreement(what, text, body@)]
        } else {
            Seq::empty()
        },
        None => Seq::empty(),
    };
    let by_header = match exchange.header {
        Some((name, value)) => match header_value(answer@.headers, lowercased(name@)) {
            Some(answered) => if answered != value@ {
                seq![header_disagreement(what, name@, answered, value@)]
            } else {
                Seq::empty()
            },
            None => seq![header_disagreement(what, name@, "nothing"@, value@)],
        },
        None => Seq::empty(),
    };
    by_status + by_body + by_header
}

impl Exchange {
    /// States an exchange asking for something, with no body sent.
    pub fn asked(what: &'static str, method: HttpMethod, path: &str, status: HttpStatus) -> (r: Self)
        ensures
            r.what == what,
            r.request@ == (RequestView {
                method: Some(method),
                path: path@,
                query: Seq::empty(),
                headers: Seq::empty(),
                body: Seq::empty(),
            }),
            r.status == status,
            r.body is None,
            r.header is None,
    {
        Exchange { what, request: DirectRequest::new(method, path), status, body: None, header: None }
    }

    /// States one header the caller sends.
    pub fn sending(self, name: &str, value: &str) -> (r: Self)
        ensures
            r.what == self.what,
            r.request@ == (RequestView {
                headers: self.request@.headers.push((lowercased(name@), value@)),
                ..self.request@
            }),
            r.status == self.status,
            r.body == self.body,
            r.header == self.header,
    {
        let Exchange { what, request, status, body, header } = self;
        Exchange { what, request: request.with_header(name, value), status, body, header }
    }

    /// States an exchange sending something of a stated media type.
    pub fn sent(
        what: &'static str,
        method: HttpMethod,
        path: &str,
        content_type: &str,
        body: &'static str,
        status: HttpStatus,
    ) -> (r: Self)
        ensures
            r.what == what,
            r.request@ == (RequestView {
                method: Some(method),
                path: path@,
                query: Seq::empty(),
                headers: seq![(lowercased("content-type"@), content_type@)],
                body: vstd::utf8::encode_utf8(body@),
            }),
            r.status == status,
            r.body is None,
            r.header is None,
    {
        let sent_body = crate::http::message::utf8_bytes(body);
        let request = DirectRequest::new(method, path).with_header("content-type", content_type).with_body(
            sent_body,
        );
        proof {
            assert(Seq::<(Seq<char>, Seq<char>)>::empty().push(
                (lowercased("content-type"@), content_type@),
            ) =~= seq![(lowercased("content-type"@), content_type@)]);
        }
        Exchange { what, request, status, body: None, header: None }
    }

    /// States the body this exchange must be answered with.
    pub fn answering(self, body: &'static str) -> (r: Self)
        ensures
            r.what == self.what,
            r.request@ == self.request@,
            r.status == self.status,
            r.body == Some(body),
            r.header == self.header,
    {
        let mut this = self;
        this.body = Some(body);
        this
    }

    /// States a header this exchange must be answered with.
    pub fn carrying(self, name: &'static str, value: &'static str) -> (r: Self)
        ensures
            r.what == self.what,
            r.request@ == self.request@,
            r.status == self.status,
            r.body == self.body,
            r.header == Some((name, value)),
    {
        let mut this = self;
        this.header = Some((name, value));
        this
    }

    /// Returns where an answer disagreed with what this exchange states.
    pub fn disagreements<Chunks>(&self, answer: &DirectResponse<Chunks>) -> (r: Vec<String>)
        ensures
            r@.map_values(|found: String| found@) == disagreements_with(*self, *answer),
    {
        let mut found: Vec<String> = Vec::new();
        let ghost what = self.what@;
        if answer.status() != self.status {
            let mut line = String::from_str(self.what);
            line.append(": answered ");
            append_decimal(&mut line, answer.status() as u64);
            line.append(" where ");
            append_decimal(&mut line, self.status as u64);
            line.append(" was stated");
            found.push(line);
        }
        let ghost after_status = found@.map_values(|found: String| found@);
        match self.body {
            Some(body) => {
                let text = answer.text();
                let stated = String::from_str(body);
                if !(text == stated) {
                    let mut line = String::from_str(self.what);
                    line.append(": answered `");
                    line.append(text.as_str());
                    line.append("` where `");
                    line.append(body);
                    line.append("` was stated");
                    found.push(line);
                }
            },
            None => {},
        }
        let ghost after_body = found@.map_values(|found: String| found@);
        match self.header {
            Some((name, value)) => {
                let answered = answer.header(name);
                let agrees = match answered {
                    Some(answered) => {
                        let answered_text = String::from_str(answered);
                        let stated = String::from_str(value);
                        answered_text == stated
                    },
                    None => false,
                };
                if !agrees {
                    let mut line = String::from_str(self.what);
                    line.append(": answered `");
                    line.append(name);
                    line.append(": ");
                    match answered {
                        Some(answered) => line.append(answered),
                        None => line.append("nothing"),
                    }
                    line.append("` where `");
                    line.append(name);
                    line.append(": ");
                    line.append(value);
                    line.append("` was stated");
                    found.push(line);
                }
            },
            None => {},
        }
        proof {
            assert(found@.map_values(|found: String| found@) =~= disagreements_with(*self, *answer));
        }
        found
    }
}

/// A request asking for a path, with nothing sent.
pub open spec fn asking(method: HttpMethod, path: Seq<char>) -> RequestView {
    RequestView {
        method: Some(method),
        path,
        query: Seq::empty(),
        headers: Seq::empty(),
        body: Seq::empty(),
    }
}

/// A request sending a body of a media type.
pub open spec fn sending_body(
    method: HttpMethod,
    path: Seq<char>,
    content_type: Seq<char>,
    body: Seq<char>,
) -> RequestView {
    RequestView {
        method: Some(method),
        path,
        query: Seq::empty(),
        headers: seq![(lowercased("content-type"@), content_type)],
        body: vstd::utf8::encode_utf8(body),
    }
}

/// A request with one more header sent.
pub open spec fn with_sent(request: RequestView, name: Seq<char>, value: Seq<char>) -> RequestView {
    RequestView { headers: request.headers.push((lowercased(name), value)), ..request }
}

/// Whether an exchange states what is given: what it checks, its request, the status, and the body
/// and header the answer must carry, where it states them.
pub open spec fn states(
    exchange: Exchange,
    what: Seq<char>,
    request: RequestView,
    status: HttpStatus,
    body: Option<Seq<char>>,
    header: Option<(Seq<char>, Seq<char>)>,
) -> bool {
    &&& exchange.what@ == what
    &&& exchange.request@ == request
    &&& exchange.status == status
    &&& match (exchange.body, body) {
        (Some(stated), Some(expected)) => stated@ == expected,
        (None, None) => true,
        _ => false,
    }
    &&& match (exchange.header, header) {
        (Some((name, value)), Some((expected_name, expected_value))) => name@ == expected_name
            && value@ == expected_value,
        (None, None) => true,
        _ => false,
    }
}

/// Every exchange the declared surface must satisfy.
pub fn exchanges() -> (r: Vec<Exchange>)
    ensures
        r@.len() == 13,
        states(r@[0], "a reading as it stands"@, asking(HttpMethod::Get, "/items"@), OK, Some("[7]"@), None),
        states(r@[1], "a path binding one segment"@, asking(HttpMethod::Get, "/item/1"@), OK, Some("7"@), None),
        states(
            r@[2],
            "what a failure means"@,
            asking(HttpMethod::Get, "/item/9"@),
            NOT_FOUND,
            Some("no such reading"@),
            None,
        ),
        states(
            r@[3],
            "a body read as a document, under a declared status"@,
            sending_body(HttpMethod::Post, "/items"@, "application/json"@, "7"@),
            CREATED,
            Some("7"@),
            None,
        ),
        states(
            r@[4],
            "a body read as a form"@,
            sending_body(HttpMethod::Put, "/items"@, "application/x-www-form-urlencoded"@, "value=7"@),
            OK,
            Some("7"@),
            None,
        ),
        states(
            r@[5],
            "a body taken as it arrived"@,
            sending_body(HttpMethod::Patch, "/items"@, "text/plain"@, "seven"@),
            OK,
            Some("noted seven"@),
            None,
        ),
        states(r@[6], "an answer with no body"@, asking(HttpMethod::Delete, "/items"@), NO_CONTENT, Some(""@), None),
        states(
            r@[7],
            "a redirect"@,
            asking(HttpMethod::Get, "/home"@),
            SEE_OTHER,
            None,
            Some(("location"@, "/items"@)),
        ),
        states(
            r@[8],
            "a page"@,
            asking(HttpMethod::Get, "/page"@),
            OK,
            Some("<p>7</p>"@),
            Some(("content-type"@, "text/html; charset=utf-8"@)),
        ),
        states(r@[9], "the readings as stored"@, asking(HttpMethod::Get, "/stored"@), OK, Some("seven"@), None),
        states(
            r@[10],
            "what the cookies a caller sent state"@,
            with_sent(asking(HttpMethod::Get, "/session"@), "cookie"@, "session=abc; theme=dark"@),
            OK,
            Some("known as abc"@),
            None,
        ),
        states(
            r@[11],
            "a header an answer carries"@,
            asking(HttpMethod::Get, "/cached"@),
            OK,
            Some("[7]"@),
            Some(("cache-control"@, "max-age=60"@)),
        ),
        states(
            r@[12],
            "what the headers a caller sent state"@,
            with_sent(asking(HttpMethod::Get, "/agent"@), "user-agent"@, "probe"@),
            OK,
            Some("sent by probe"@),
            None,
        ),
{
    let mut r: Vec<Exchange> = Vec::new();
    r.push(Exchange::asked("a reading as it stands", HttpMethod::Get, "/items", OK).answering("[7]"));
    r.push(Exchange::asked("a path binding one segment", HttpMethod::Get, "/item/1", OK).answering("7"));
    r.push(
        Exchange::asked("what a failure means", HttpMethod::Get, "/item/9", NOT_FOUND).answering(
            "no such reading",
        ),
    );
    r.push(
        Exchange::sent(
            "a body read as a document, under a declared status",
            HttpMethod::Post,
            "/items",
            "application/json",
            "7",
            CREATED,
        ).answering("7"),
    );
    r.push(
        Exchange::sent(
            "a body read as a form",
            HttpMethod::Put,
            "/items",
            "application/x-www-form-urlencoded",
            "value=7",
            OK,
        ).answering("7"),
    );
    r.push(
        Exchange::sent("a body taken as it arrived", HttpMethod::Patch, "/items", "text/plain", "seven", OK)
            .answering("noted seven"),
    );
    r.push(Exchange::asked("an answer with no body", HttpMethod::Delete, "/items", NO_CONTENT).answering(""));
    r.push(Exchange::asked("a redirect", HttpMethod::Get, "/home", SEE_OTHER).carrying("location", "/items"));
    r.push(
        Exchange::asked("a page", HttpMethod::Get, "/page", OK).answering("<p>7</p>").carrying(
            "content-type",
            "text/html; charset=utf-8",
        ),
    );
    r.push(Exchange::asked("the readings as stored", HttpMethod::Get, "/stored", OK).answering("seven"));
    r.push(
        Exchange::asked("what the cookies a caller sent state", HttpMethod::Get, "/session", OK).sending(
            "cookie",
            "session=abc; theme=dark",
        ).answering("known as abc"),
    );
    r.push(
        Exchange::asked("a header an answer carries", HttpMethod::Get, "/cached", OK).answering(
            "[7]",
        ).carrying("cache-control", "max-age=60"),
    );
    r.push(
        Exchange::asked("what the headers a caller sent state", HttpMethod::Get, "/agent", OK).sending(
            "user-agent",
            "probe",
        ).answering("sent by probe"),
    );
    r
}

/// Every exchange the streamed surface must satisfy.
pub fn stream_exchanges() -> (r: Vec<Exchange>)
    ensures
        r@.len() == 1,
        states(
            r@[0],
            "a body produced a piece at a time"@,
            asking(HttpMethod::Get, "/ticks"@),
            OK,
            Some("onetwothree"@),
            None,
        ),
{
    let mut r: Vec<Exchange> = Vec::new();
    r.push(
        Exchange::asked("a body produced a piece at a time", HttpMethod::Get, "/ticks", OK).answering(
            "onetwothree",
        ),
    );
    r
}

/// The boundary the parts a caller sends are separated by.
pub const BOUNDARY: &'static str = "alux";

/// The media type a caller sends its parts under, naming their boundary.
pub const PARTS_TYPE: &'static str = "multipart/form-data; boundary=alux";

/// The body a caller sends as parts.
pub const PARTS: &'static str = "--alux\r\nContent-Disposition: form-data; name=\"one\"\r\n\r\n1\r\n--alux\r\nContent-Disposition: form-data; name=\"two\"\r\n\r\n2\r\n--alux--\r\n";

/// Every exchange the parts surface must satisfy.
pub fn multipart_exchanges() -> (r: Vec<Exchange>)
    ensures
        r@.len() == 1,
        states(
            r@[0],
            "a body arriving as parts"@,
            sending_body(HttpMethod::Post, "/upload"@, PARTS_TYPE@, PARTS@),
            OK,
            Some("one=1,two=2"@),
            None,
        ),
{
    let mut r: Vec<Exchange> = Vec::new();
    r.push(
        Exchange::sent("a body arriving as parts", HttpMethod::Post, "/upload", PARTS_TYPE, PARTS, OK)
            .answering("one=1,two=2"),
    );
    r
}

/// Whether an answer carries what an exchange states: its status, its body read as text where the
/// exchange states one, and the very value of the header the exchange names, where it names one.
pub open spec fn carries_what_is_stated<Chunks>(exchange: Exchange, answer: DirectResponse<Chunks>) -> bool {
    &&& answer@.status == exchange.status
    &&& (exchange.body matches Some(body) ==> lossy_decoded(answer.body_bytes()) == body@)
    &&& (exchange.header matches Some((name, value)) ==> header_value(
        answer@.headers,
        lowercased(name@),
    ) == Some(value@))
}

/// An answer is found to disagree with nothing exactly when it carries what the exchange states;
/// each way it fails to is found once, so there are never more than three disagreements.
pub proof fn law_no_disagreement_means_agreement<Chunks>(exchange: Exchange, answer: DirectResponse<Chunks>)
    ensures
        disagreements_with(exchange, answer).len() == 0 <==> carries_what_is_stated(exchange, answer),
        disagreements_with(exchange, answer).len() <= 3,
        answer@.status != exchange.status ==> disagreements_with(exchange, answer).len() > 0,
{
}

} // verus!

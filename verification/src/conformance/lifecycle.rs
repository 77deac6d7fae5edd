//! What a request in flight amounted to when its server was closed, read from the bytes that
//! arrived, and measurements of what closing did.

use crate::conformance::span::{span_bound, Span};
use crate::http::input::{parse_u16, parse_usize, parsed_u16, parsed_usize};
use crate::http::message::{lossy_decoded, lossy_text, lower_text, lowercased};
use crate::shape::algebra::words_seq;
use crate::text::{append_decimal, decimal, holds_text, holds_text_spec, trim_text, trimmed, white_space};
use vstd::prelude::*;
use vstd::slice::slice_subrange;
use vstd::string::*;
use vstd::utf8::{decode_utf8, valid_utf8};

verus! {

/// A text split at every `sep`, empty pieces kept: one piece more than there are `sep`s.
pub open spec fn split_at_each(text: Seq<char>, sep: char) -> Seq<Seq<char>>
    decreases text.len(),
{
    if text.len() == 0 {
        seq![Seq::empty()]
    } else {
        let before = split_at_each(text.drop_last(), sep);
        if text.last() == sep {
            before.push(Seq::empty())
        } else {
            before.update(before.len() - 1, before.last().push(text.last()))
        }
    }
}

/// A line without the carriage return it ends with, where it ends with one.
pub open spec fn without_return(line: Seq<char>) -> Seq<char> {
    if line.len() > 0 && line.last() == '\r' {
        line.drop_last()
    } else {
        line
    }
}

/// The lines `str::lines` reads a text as: the text is split at each `\n`, a final `\n` ending the
/// last line rather than starting another, and a line ended by `\r\n` does not keep the `\r`. A
/// last line that no `\n` ends keeps a `\r` it ends with. An empty text has no lines.
pub open spec fn lines_of(text: Seq<char>) -> Seq<Seq<char>> {
    if text.len() == 0 {
        Seq::empty()
    } else {
        let newline_ended = text.last() == '\n';
        let ended = if newline_ended {
            text.drop_last()
        } else {
            text
        };
        let pieces = split_at_each(ended, '\n');
        pieces.map(
            |i: int, line: Seq<char>|
                if i < pieces.len() - 1 || newline_ended {
                    without_return(line)
                } else {
                    line
                },
        )
    }
}

/// The characters of a text after its last white space.
pub open spec fn trailing_word(text: Seq<char>) -> Seq<char>
    decreases text.len(),
{
    if text.len() == 0 || white_space(text.last()) {
        Seq::empty()
    } else {
        trailing_word(text.drop_last()).push(text.last())
    }
}

/// The words of a text that white space has already closed, in order.
pub open spec fn closed_words(text: Seq<char>) -> Seq<Seq<char>>
    decreases text.len(),
{
    if text.len() == 0 {
        Seq::empty()
    } else if white_space(text.last()) && trailing_word(text.drop_last()).len() > 0 {
        closed_words(text.drop_last()).push(trailing_word(text.drop_last()))
    } else {
        closed_words(text.drop_last())
    }
}

/// The words `str::split_whitespace` reads a text as: its non-empty runs of characters that are
/// not white space, in order.
pub open spec fn whitespace_words(text: Seq<char>) -> Seq<Seq<char>> {
    if trailing_word(text).len() > 0 {
        closed_words(text).push(trailing_word(text))
    } else {
        closed_words(text)
    }
}

/// Calls `str::lines` and collects the lines: the text split at each `\n`, a final `\n` starting no
/// further line, and `\r` dropped where it comes just before the `\n`.
#[verifier::external_body]
fn text_lines(text: &str) -> (r: Vec<&str>)
    ensures
        words_seq(r@) == lines_of(text@),
{
    text.lines().collect()
}

/// Calls `str::split_whitespace` and collects the words: the non-empty runs of characters without
/// the Unicode `White_Space` property.
#[verifier::external_body]
fn split_words(text: &str) -> (r: Vec<&str>)
    ensures
        words_seq(r@) == whitespace_words(text@),
{
    text.split_whitespace().collect()
}

/// Calls `str::from_utf8`, which reads bytes that are valid UTF-8 as the text they encode and
/// refuses any others.
#[verifier::external_body]
fn utf8_str(bytes: &[u8]) -> (r: Option<&str>)
    ensures
        r is Some <==> valid_utf8(bytes@),
        r matches Some(text) ==> text@ == decode_utf8(bytes@),
{
    core::str::from_utf8(bytes).ok()
}

/// What became of a request that was in flight when its server was closed.
///
/// A close can land between the head of an answer and the end of its body, leaving the caller a
/// status it can read and an answer it cannot use, so that is stated as what it is.
#[derive(Debug, Clone, Copy, PartialEq, Eq, Structural)]
pub enum InFlight {
    /// The server answered in full, carrying this status.
    Answered(u16),
    /// The head arrived carrying this status, and the body was cut off before it was complete.
    CutOff(u16),
    /// The connection ended with nothing on it, so closing ran out of drain first.
    Ended,
    /// Neither happened inside the limit, so the measurement states nothing.
    Unfinished,
}

/// What became of a request, written out.
pub open spec fn in_flight_text(in_flight: InFlight) -> Seq<char> {
    match in_flight {
        InFlight::Answered(status) => "answered "@ + decimal(status as nat),
        InFlight::CutOff(status) => decimal(status as nat) + " cut off mid-answer"@,
        InFlight::Ended => "ended unanswered"@,
        InFlight::Unfinished => "still waiting"@,
    }
}

impl InFlight {
    /// Whether the caller was left with an answer it can use.
    pub fn is_answered(self) -> (r: bool)
        ensures
            r <==> self is Answered,
    {
        match self {
            InFlight::Answered(_) => true,
            _ => false,
        }
    }

    /// What became of the request, written out.
    pub fn describe(self) -> (r: String)
        ensures
            r@ == in_flight_text(self),
    {
        match self {
            InFlight::Answered(status) => {
                let mut r = String::from_str("answered ");
                append_decimal(&mut r, status as u64);
                r
            },
            InFlight::CutOff(status) => {
                let mut r = String::new();
                append_decimal(&mut r, status as u64);
                r.append(" cut off mid-answer");
                r
            },
            InFlight::Ended => String::from_str("ended unanswered"),
            InFlight::Unfinished => String::from_str("still waiting"),
        }
    }
}

/// Whether a blank line (`\r\n\r\n`) starts at this position.
pub open spec fn blank_line_at(bytes: Seq<u8>, at: int) -> bool {
    &&& 0 <= at
    &&& at + 4 <= bytes.len()
    &&& bytes[at] == 13u8
    &&& bytes[at + 1] == 10u8
    &&& bytes[at + 2] == 13u8
    &&& bytes[at + 3] == 10u8
}

/// Where the first blank line at or after `from` starts.
pub open spec fn blank_line_from(bytes: Seq<u8>, from: int) -> Option<int>
    decreases bytes.len() - from,
{
    if from < 0 || from + 4 > bytes.len() {
        None
    } else if blank_line_at(bytes, from) {
        Some(from)
    } else {
        blank_line_from(bytes, from + 1)
    }
}

/// Where the head of an answer ends: the first blank line.
pub open spec fn head_end(bytes: Seq<u8>) -> Option<int> {
    blank_line_from(bytes, 0)
}

/// The length the first `content-length:` line of a head states, reading on past a line whose value
/// is not a length.
pub open spec fn length_stated(lines: Seq<Seq<char>>) -> Option<usize>
    decreases lines.len(),
{
    if lines.len() == 0 {
        None
    } else {
        let line = lines[0];
        let prefix = "content-length:"@;
        if line.len() >= prefix.len() && line.take(prefix.len() as int) == prefix {
            match parsed_usize(trimmed(line.skip(prefix.len() as int))) {
                Some(length) => Some(length),
                None => length_stated(lines.drop_first()),
            }
        } else {
            length_stated(lines.drop_first())
        }
    }
}

/// The head's text as it is read: decoded, whatever the bytes, and lower-cased.
pub open spec fn head_text(bytes: Seq<u8>) -> Seq<char> {
    lowercased(lossy_decoded(bytes))
}

/// Whether a body ends with the last chunk of a chunked answer.
pub open spec fn ends_with_last_chunk(body: Seq<u8>) -> bool {
    &&& body.len() >= 5
    &&& body[body.len() - 5] == 48u8
    &&& body[body.len() - 4] == 13u8
    &&& body[body.len() - 3] == 10u8
    &&& body[body.len() - 2] == 13u8
    &&& body[body.len() - 1] == 10u8
}

/// Whether bytes carry one answer, all of it: a head stating a length the body reaches, or a
/// chunked answer whose last chunk arrived.
pub open spec fn whole_answer(bytes: Seq<u8>) -> bool {
    match head_end(bytes) {
        None => false,
        Some(end) => {
            let head = head_text(bytes.take(end + 4));
            let body = bytes.skip(end + 4);
            match length_stated(lines_of(head)) {
                Some(length) => body.len() >= length,
                None => holds_text_spec(head, "transfer-encoding: chunked"@) && ends_with_last_chunk(
                    body,
                ),
            }
        },
    }
}

/// A blank line found in some bytes is found at the same place once more bytes follow them.
proof fn lemma_blank_line_kept(bytes: Seq<u8>, more: Seq<u8>, from: int)
    requires
        blank_line_from(bytes, from) is Some,
    ensures
        blank_line_from(bytes + more, from) == blank_line_from(bytes, from),
        blank_line_from(bytes, from) matches Some(at) && 0 <= at && at + 4 <= bytes.len(),
    decreases bytes.len() - from,
{
    let longer = bytes + more;
    if blank_line_at(bytes, from) {
        assert(longer[from] == bytes[from] && longer[from + 1] == bytes[from + 1]);
        assert(longer[from + 2] == bytes[from + 2] && longer[from + 3] == bytes[from + 3]);
    } else {
        if from + 4 <= bytes.len() {
            assert(longer[from] == bytes[from] && longer[from + 1] == bytes[from + 1]);
            assert(longer[from + 2] == bytes[from + 2] && longer[from + 3] == bytes[from + 3]);
        }
        lemma_blank_line_kept(bytes, more, from + 1);
    }
}

/// An answer that stated its length and is whole stays whole however many more bytes arrive after
/// it: its head is where it was, and its body only grows.
pub proof fn law_whole_answer_stays_whole(bytes: Seq<u8>, more: Seq<u8>)
    requires
        whole_answer(bytes),
        head_end(bytes) matches Some(end) && length_stated(lines_of(head_text(bytes.take(end + 4))))
            is Some,
    ensures
        whole_answer(bytes + more),
{
    let end = head_end(bytes)->0;
    lemma_blank_line_kept(bytes, more, 0);
    assert((bytes + more).take(end + 4) =~= bytes.take(end + 4));
    assert((bytes + more).skip(end + 4).len() >= bytes.skip(end + 4).len());
}

/// Where the first carriage return at or after `from` is, or the end of the bytes.
pub open spec fn line_end_from(bytes: Seq<u8>, from: int) -> int
    decreases bytes.len() - from,
{
    if from < 0 || from >= bytes.len() {
        bytes.len() as int
    } else if bytes[from] == 13u8 {
        from
    } else {
        line_end_from(bytes, from + 1)
    }
}

/// The status an answer's first line carries: its second word, read as a number, where the line is
/// text at all.
pub open spec fn status_stated(bytes: Seq<u8>) -> Option<u16> {
    let line = bytes.take(line_end_from(bytes, 0));
    if valid_utf8(line) {
        let words = whitespace_words(decode_utf8(line));
        if words.len() >= 2 {
            parsed_u16(words[1])
        } else {
            None
        }
    } else {
        None
    }
}

/// What bytes read from a connection amount to.
pub open spec fn answer_read(bytes: Seq<u8>) -> InFlight {
    match status_stated(bytes) {
        None => InFlight::Ended,
        Some(status) => if whole_answer(bytes) {
            InFlight::Answered(status)
        } else {
            match head_end(bytes) {
                Some(end) => {
                    let head = head_text(bytes.take(end));
                    if length_stated(lines_of(head)) is None && !holds_text_spec(
                        head,
                        "transfer-encoding: chunked"@,
                    ) {
                        InFlight::Answered(status)
                    } else {
                        InFlight::CutOff(status)
                    }
                },
                None => InFlight::CutOff(status),
            }
        },
    }
}

/// Finds where the head of an answer ends.
fn find_head_end(bytes: &[u8]) -> (r: Option<usize>)
    ensures
        match r {
            Some(end) => head_end(bytes@) == Some(end as int) && end + 4 <= bytes@.len(),
            None => head_end(bytes@) is None,
        },
{
    let n = bytes.len();
    let mut at: usize = 0;
    while at < n && n - at >= 4
        invariant
            at <= n,
            n == bytes@.len(),
            head_end(bytes@) == blank_line_from(bytes@, at as int),
        decreases n - at,
    {
        if bytes[at] == 13u8 && bytes[at + 1] == 10u8 && bytes[at + 2] == 13u8 && bytes[at + 3] == 10u8 {
            return Some(at);
        }
        at = at + 1;
    }
    None
}

/// Finds where the first line of bytes ends.
fn find_line_end(bytes: &[u8]) -> (r: usize)
    ensures
        r == line_end_from(bytes@, 0),
        r <= bytes@.len(),
{
    let n = bytes.len();
    let mut at: usize = 0;
    while at < n
        invariant
            at <= n,
            n == bytes@.len(),
            line_end_from(bytes@, 0) == line_end_from(bytes@, at as int),
        decreases n - at,
    {
        if bytes[at] == 13u8 {
            return at;
        }
        at = at + 1;
    }
    n
}

/// Reads how long an answer says its body is, where it says at all.
fn stated_length(head: &str) -> (r: Option<usize>)
    ensures
        r == length_stated(lines_of(head@)),
{
    let lines = text_lines(head);
    let ghost all = lines_of(head@);
    let prefix = "content-length:";
    let wanted = String::from_str(prefix);
    let k = prefix.unicode_len();
    let mut i: usize = 0;
    assert(all.skip(0) =~= all);
    while i < lines.len()
        invariant
            i <= lines.len(),
            all == words_seq(lines@),
            all == lines_of(head@),
            k == prefix@.len(),
            wanted@ == prefix@,
            prefix@ == "content-length:"@,
            length_stated(all) == length_stated(all.skip(i as int)),
        decreases lines.len() - i,
    {
        let line = lines[i];
        proof {
            assert(all.skip(i as int)[0] == line@);
            assert(all.skip(i as int).drop_first() =~= all.skip(i + 1));
        }
        let n = line.unicode_len();
        if n >= k {
            let start = String::from_str(line.substring_char(0, k));
            proof {
                assert(line@.subrange(0, k as int) =~= line@.take(k as int));
            }
            if start == wanted {
                let rest = line.substring_char(k, n);
                proof {
                    assert(line@.subrange(k as int, n as int) =~= line@.skip(k as int));
                }
                let value = trim_text(rest);
                match parse_usize(value) {
                    Some(length) => {
                        return Some(length);
                    },
                    None => {},
                }
            }
        }
        i = i + 1;
    }
    proof {
        assert(all.skip(i as int).len() == 0);
    }
    None
}

/// Reads the status an answer carries, where it carries one at all.
fn stated_status(answer: &[u8]) -> (r: Option<u16>)
    ensures
        r == status_stated(answer@),
{
    let end = find_line_end(answer);
    let line = slice_subrange(answer, 0, end);
    proof {
        assert(line@ =~= answer@.take(end as int));
    }
    match utf8_str(line) {
        None => None,
        Some(text) => {
            let words = split_words(text);
            if words.len() >= 2 {
                proof {
                    assert(words_seq(words@)[1] == words@[1]@);
                }
                parse_u16(words[1])
            } else {
                None
            }
        },
    }
}

/// Reads a head's text: decoded, whatever the bytes, and lower-cased.
fn read_head(bytes: &[u8]) -> (r: String)
    ensures
        r@ == head_text(bytes@),
{
    let decoded = lossy_text(bytes);
    lower_text(decoded.as_str())
}

/// Whether these bytes carry one answer, all of it.
///
/// Only where the answer stated how long it would be, or is chunked and its last chunk arrived. One
/// that did neither is whole when the connection ends, which these bytes cannot say.
pub fn states_a_whole_answer(answer: &[u8]) -> (r: bool)
    ensures
        r == whole_answer(answer@),
{
    let total = answer.len();
    let end = match find_head_end(answer) {
        Some(end) => end,
        None => {
            return false;
        },
    };
    assert(end + 4 <= total);
    let head_bytes = slice_subrange(answer, 0, end + 4);
    let body = slice_subrange(answer, end + 4, answer.len());
    proof {
        assert(head_bytes@ =~= answer@.take(end + 4));
        assert(body@ =~= answer@.skip(end + 4));
    }
    let head = read_head(head_bytes);
    match stated_length(head.as_str()) {
        Some(stated) => body.len() >= stated,
        None => {
            let n = body.len();
            holds_text(head.as_str(), "transfer-encoding: chunked") && n >= 5 && body[n - 5] == 48u8
                && body[n - 4] == 13u8 && body[n - 3] == 10u8 && body[n - 2] == 13u8 && body[n - 1]
                == 10u8
        },
    }
}

/// Reads bytes as the answer they amount to, whole or cut off.
///
/// An answer stating no length of its own ends where the connection does, so reading this far is
/// reading all of it. Anything else stated a length it did not reach.
pub fn read_as_answer(answer: &[u8]) -> (r: InFlight)
    ensures
        r == answer_read(answer@),
{
    let status = match stated_status(answer) {
        Some(status) => status,
        None => {
            return InFlight::Ended;
        },
    };
    if states_a_whole_answer(answer) {
        return InFlight::Answered(status);
    }
    match find_head_end(answer) {
        Some(end) => {
            let head_bytes = slice_subrange(answer, 0, end);
            proof {
                assert(head_bytes@ =~= answer@.take(end as int));
            }
            let head = read_head(head_bytes);
            if stated_length(head.as_str()).is_none() && !holds_text(
                head.as_str(),
                "transfer-encoding: chunked",
            ) {
                InFlight::Answered(status)
            } else {
                InFlight::CutOff(status)
            }
        },
        None => InFlight::CutOff(status),
    }
}

/// One measurement of what closing did.
#[derive(Debug, Clone, Copy)]
pub struct Measured {
    /// What the held connection asked for.
    pub asked: &'static str,
    /// How long closing took to return.
    pub closed: Span,
    /// How long until ending returned as well, counted from the same start.
    pub ended: Span,
    /// What became of the request in flight.
    pub in_flight: InFlight,
    /// When that became known, measured from when closing started.
    pub at: Span,
    /// Whether the address could be taken again once closing had returned.
    pub reusable: bool,
}

/// Several measurements of the same thing, taken together.
///
/// One measurement of a close is one sample of a machine, so a comparison worth reading is a mean.
/// The range comes with it, because a mean says nothing on its own about whether the rounds agreed.
#[derive(Debug, Clone, Copy)]
pub struct Averaged {
    /// What the held connection asked for.
    pub asked: &'static str,
    /// How many measurements this is the mean of.
    pub rounds: usize,
    /// How long closing took to return, meaned.
    pub closed: Span,
    /// How long until ending returned as well, meaned.
    pub ended: Span,
    /// The spread between the slowest and fastest close, which says how much the mean is worth.
    pub range: Span,
    /// What became of the request in flight, which every round agreed on.
    pub in_flight: InFlight,
    /// When that became known, meaned.
    pub at: Span,
    /// Whether the address came back, which every round agreed on.
    pub reusable: bool,
}

/// Why measurements could not be averaged.
#[derive(Debug, Clone, Copy, PartialEq, Eq)]
pub enum AveragingError {
    /// There were no measurements.
    Nothing,
    /// Two rounds disagreed about what became of the request, or about whether the address came
    /// back: what the first round asked for, what became of its request, and what became of the
    /// request in the first round that disagreed.
    Disagreeing(&'static str, InFlight, InFlight),
}

impl AveragingError {
    /// The failure written out.
    pub fn message(&self) -> (r: String)
        ensures
            r@ == match *self {
                AveragingError::Nothing => "averaging nothing"@,
                AveragingError::Disagreeing(asked, first, differs) => asked@ + " was "@
                    + in_flight_text(first) + " in one round and "@ + in_flight_text(differs)
                    + " in another"@,
            },
    {
        match *self {
            AveragingError::Nothing => String::from_str("averaging nothing"),
            AveragingError::Disagreeing(asked, first, differs) => {
                let mut r = String::from_str(asked);
                r.append(" was ");
                let first_text = first.describe();
                r.append(first_text.as_str());
                r.append(" in one round and ");
                let differs_text = differs.describe();
                r.append(differs_text.as_str());
                r.append(" in another");
                r
            },
        }
    }
}

/// The lengths of a sequence of spans, added up.
pub open spec fn total_of(spans: Seq<Span>) -> nat
    decreases spans.len(),
{
    if spans.len() == 0 {
        0
    } else {
        total_of(spans.drop_last()) + spans.last().total()
    }
}

/// The mean of however many spans, rounded down to the nanosecond: no time where there are none,
/// or more than a `u32` counts.
pub open spec fn mean_of(spans: Seq<Span>) -> nat {
    if spans.len() == 0 || spans.len() > u32::MAX {
        0
    } else {
        total_of(spans) / spans.len()
    }
}

/// Takes the mean of however many spans, which is nothing where there are none.
fn meaned(spans: &Vec<Span>) -> (r: Span)
    requires
        total_of(spans@) < span_bound(),
    ensures
        r.total() == mean_of(spans@),
{
    let n = spans.len();
    if n > 4_294_967_295usize {
        return Span::zero();
    }
    let mut sum = Span::zero();
    let mut i: usize = 0;
    while i < n
        invariant
            i <= n,
            n == spans@.len(),
            total_of(spans@) < span_bound(),
            sum.total() == total_of(spans@.take(i as int)),
        decreases n - i,
    {
        proof {
            assert(spans@.take(i + 1).drop_last() =~= spans@.take(i as int));
            lemma_total_of_prefix(spans@, i + 1);
        }
        sum = match sum.checked_add(spans[i]) {
            Some(added) => added,
            None => {
                return Span::zero();
            },
        };
        i = i + 1;
    }
    proof {
        assert(spans@.take(n as int) =~= spans@);
    }
    match sum.checked_div(n as u32) {
        Some(mean) => mean,
        None => Span::zero(),
    }
}

/// Spans each no shorter than `shortest` and no longer than `longest` add up to between as many
/// shortest and as many longest spans as there are.
proof fn lemma_total_within(spans: Seq<Span>, shortest: nat, longest: nat)
    requires
        forall|k: int| 0 <= k < spans.len() ==> shortest <= #[trigger] spans[k].total() <= longest,
    ensures
        spans.len() * shortest <= total_of(spans) <= spans.len() * longest,
    decreases spans.len(),
{
    if spans.len() > 0 {
        let before = spans.drop_last();
        assert forall|k: int| 0 <= k < before.len() implies shortest <= #[trigger] before[k].total()
            <= longest by {
            assert(before[k] == spans[k]);
        }
        lemma_total_within(before, shortest, longest);
        assert(spans.last() == spans[spans.len() - 1]);
        let n = spans.len();
        assert((n - 1) * shortest + shortest == n * shortest) by (nonlinear_arith);
        assert((n - 1) * longest + longest == n * longest) by (nonlinear_arith);
    }
}

/// A mean lies between the shortest and the longest of the spans it is the mean of.
pub proof fn law_mean_within(spans: Seq<Span>, shortest: nat, longest: nat)
    requires
        0 < spans.len() <= u32::MAX,
        forall|k: int| 0 <= k < spans.len() ==> shortest <= #[trigger] spans[k].total() <= longest,
    ensures
        shortest <= mean_of(spans) <= longest,
{
    lemma_total_within(spans, shortest, longest);
    let n = spans.len();
    let total = total_of(spans);
    assert(shortest <= total / n <= longest) by (nonlinear_arith)
        requires
            n > 0,
            n * shortest <= total <= n * longest,
    ;
}

/// A prefix of spans lasts no longer than all of them.
proof fn lemma_total_of_prefix(spans: Seq<Span>, k: int)
    requires
        0 <= k <= spans.len(),
    ensures
        total_of(spans.take(k)) <= total_of(spans),
    decreases spans.len() - k,
{
    if k < spans.len() {
        lemma_total_of_prefix(spans, k + 1);
        assert(spans.take(k + 1).drop_last() =~= spans.take(k));
    } else {
        assert(spans.take(k) =~= spans);
    }
}

/// Whether a round disagrees with the first about what became of the request or the address.
pub open spec fn disagrees(round: Measured, first: Measured) -> bool {
    round.in_flight != first.in_flight || round.reusable != first.reusable
}

/// The close of each round.
pub open spec fn closes(rounds: Seq<Measured>) -> Seq<Span> {
    rounds.map_values(|round: Measured| round.closed)
}

/// The end of each round.
pub open spec fn ends(rounds: Seq<Measured>) -> Seq<Span> {
    rounds.map_values(|round: Measured| round.ended)
}

/// When each round's request became known.
pub open spec fn knowns(rounds: Seq<Measured>) -> Seq<Span> {
    rounds.map_values(|round: Measured| round.at)
}

/// Whether a span is as long as the longest of some spans.
pub open spec fn is_longest(span: Span, spans: Seq<Span>) -> bool {
    &&& exists|k: int| 0 <= k < spans.len() && spans[k].total() == span.total()
    &&& forall|k: int| 0 <= k < spans.len() ==> #[trigger] spans[k].total() <= span.total()
}

/// Whether a span is as short as the shortest of some spans.
pub open spec fn is_shortest(span: Span, spans: Seq<Span>) -> bool {
    &&& exists|k: int| 0 <= k < spans.len() && spans[k].total() == span.total()
    &&& forall|k: int| 0 <= k < spans.len() ==> #[trigger] spans[k].total() >= span.total()
}

impl Averaged {
    /// Takes the mean of several measurements of the same thing.
    ///
    /// Refuses rounds with nothing in them, and rounds disagreeing about what became of the request
    /// or about whether the address came back: a mean over those would hide the thing worth knowing,
    /// which is that a provider did not do the same thing twice. Otherwise every span is meaned, and
    /// the range is how much slower the slowest close was than the quickest.
    pub fn over(rounds: &[Measured]) -> (r: Result<Averaged, AveragingError>)
        requires
            agreeing(rounds@) ==> total_of(closes(rounds@)) < span_bound(),
            agreeing(rounds@) ==> total_of(ends(rounds@)) < span_bound(),
            agreeing(rounds@) ==> total_of(knowns(rounds@)) < span_bound(),
        ensures
            rounds@.len() == 0 ==> r == Err::<Averaged, AveragingError>(AveragingError::Nothing),
            rounds@.len() > 0 ==> match r {
                Err(error) => exists|k: int|
                    0 < k < rounds@.len() && disagrees(#[trigger] rounds@[k], rounds@[0]) && (forall|
                        j: int,
                    | 0 < j < k ==> !disagrees(#[trigger] rounds@[j], rounds@[0])) && error
                        == AveragingError::Disagreeing(
                        rounds@[0].asked,
                        rounds@[0].in_flight,
                        rounds@[k].in_flight,
                    ),
                Ok(averaged) => {
                    &&& forall|k: int|
                        0 <= k < rounds@.len() ==> !disagrees(#[trigger] rounds@[k], rounds@[0])
                    &&& averaged.asked == rounds@[0].asked
                    &&& averaged.rounds == rounds@.len()
                    &&& averaged.closed.total() == mean_of(closes(rounds@))
                    &&& averaged.ended.total() == mean_of(ends(rounds@))
                    &&& averaged.at.total() == mean_of(knowns(rounds@))
                    &&& averaged.in_flight == rounds@[0].in_flight
                    &&& averaged.reusable == rounds@[0].reusable
                    &&& exists|slowest: Span, quickest: Span|
                        is_longest(slowest, closes(rounds@)) && is_shortest(
                            quickest,
                            closes(rounds@),
                        ) && averaged.range.total() == slowest.total() - quickest.total()
                },
            },
    {
        if rounds.len() == 0 {
            return Err(AveragingError::Nothing);
        }
        let first = rounds[0];
        let mut k: usize = 1;
        while k < rounds.len()
            invariant
                1 <= k <= rounds.len(),
                first == rounds@[0],
                forall|j: int| 0 < j < k ==> !disagrees(#[trigger] rounds@[j], rounds@[0]),
            decreases rounds.len() - k,
        {
            let round = rounds[k];
            if round.in_flight != first.in_flight || round.reusable != first.reusable {
                return Err(AveragingError::Disagreeing(first.asked, first.in_flight, round.in_flight));
            }
            k = k + 1;
        }
        proof {
            assert(agreeing(rounds@)) by {
                assert forall|j: int| 0 <= j < rounds@.len() implies !disagrees(
                    #[trigger] rounds@[j],
                    rounds@[0],
                ) by {
                    if j == 0 {
                        assert(!disagrees(rounds@[0], rounds@[0]));
                    }
                }
            }
        }
        let mut closed: Vec<Span> = Vec::new();
        let mut ended: Vec<Span> = Vec::new();
        let mut known: Vec<Span> = Vec::new();
        let mut slowest = first.closed;
        let mut quickest = first.closed;
        let mut i: usize = 0;
        while i < rounds.len()
            invariant
                i <= rounds.len(),
                rounds@.len() > 0,
                first == rounds@[0],
                closed@ == closes(rounds@.take(i as int)),
                ended@ == ends(rounds@.take(i as int)),
                known@ == knowns(rounds@.take(i as int)),
                exists|s: int| 0 <= s < rounds@.len() && rounds@[s].closed == slowest,
                exists|q: int| 0 <= q < rounds@.len() && rounds@[q].closed == quickest,
                forall|j: int|
                    0 <= j < i ==> #[trigger] rounds@[j].closed.total() <= slowest.total()
                        && quickest.total() <= rounds@[j].closed.total(),
            decreases rounds.len() - i,
        {
            let round = rounds[i];
            closed.push(round.closed);
            ended.push(round.ended);
            known.push(round.at);
            if slowest.no_longer_than(round.closed) {
                slowest = round.closed;
            }
            if round.closed.no_longer_than(quickest) {
                quickest = round.closed;
            }
            proof {
                assert(closed@ =~= closes(rounds@.take(i + 1)));
                assert(ended@ =~= ends(rounds@.take(i + 1)));
                assert(known@ =~= knowns(rounds@.take(i + 1)));
            }
            i = i + 1;
        }
        proof {
            assert(rounds@.take(i as int) =~= rounds@);
            let s = choose|s: int| 0 <= s < rounds@.len() && rounds@[s].closed == slowest;
            let q = choose|q: int| 0 <= q < rounds@.len() && rounds@[q].closed == quickest;
            assert(closes(rounds@)[s].total() == slowest.total());
            assert(closes(rounds@)[q].total() == quickest.total());
            assert forall|j: int| 0 <= j < closes(rounds@).len() implies #[trigger] closes(
                rounds@,
            )[j].total() <= slowest.total() by {
                assert(closes(rounds@)[j] == rounds@[j].closed);
            }
            assert forall|j: int| 0 <= j < closes(rounds@).len() implies #[trigger] closes(
                rounds@,
            )[j].total() >= quickest.total() by {
                assert(closes(rounds@)[j] == rounds@[j].closed);
            }
            assert(is_longest(slowest, closes(rounds@)));
            assert(is_shortest(quickest, closes(rounds@)));
        }
        let range = slowest.saturating_sub(quickest);
        Ok(
            Averaged {
                asked: first.asked,
                rounds: rounds.len(),
                closed: meaned(&closed),
                ended: meaned(&ended),
                range,
                in_flight: first.in_flight,
                at: meaned(&known),
                reusable: first.reusable,
            },
        )
    }
}

/// The longest a close or an end may take before the scenario calls it one that never returns.
pub fn limit() -> (r: Span)
    ensures
        r.total() == 20_000_000_000,
{
    Span::from_millis(20_000)
}

/// States that what took this long was bounded by the server rather than by the limit.
///
/// Awaiting inside the limit is not the same as being bounded by the interpretation: one that took
/// the whole limit was bounded by the scenario, and says nothing about its own drain.
pub fn bounded_by_the_server(elapsed: Span, what: &str) -> (r: Result<(), String>)
    ensures
        elapsed.total() >= 20_000_000_000 <==> r is Err,
        r matches Err(message) ==> message@ == what@
            + " was bounded by the scenario rather than by the server"@,
{
    if limit().no_longer_than(elapsed) {
        let mut message = String::from_str(what);
        message.append(" was bounded by the scenario rather than by the server");
        Err(message)
    } else {
        Ok(())
    }
}

/// Whether every round agrees with the first about what became of the request and the address.
pub open spec fn agreeing(rounds: Seq<Measured>) -> bool {
    forall|k: int| 0 <= k < rounds.len() ==> !disagrees(#[trigger] rounds[k], rounds[0])
}

/// Spans add up to the same whichever one is taken out and added back.
proof fn lemma_total_of_removed(spans: Seq<Span>, j: int)
    requires
        0 <= j < spans.len(),
    ensures
        total_of(spans) == total_of(spans.remove(j)) + spans[j].total(),
    decreases spans.len(),
{
    if j == spans.len() - 1 {
        assert(spans.remove(j) =~= spans.drop_last());
    } else {
        lemma_total_of_removed(spans.drop_last(), j);
        assert(spans.remove(j).drop_last() =~= spans.drop_last().remove(j));
        assert(spans.remove(j).last() == spans.last());
    }
}

/// Every measurement one of two reorderings holds, the other holds too.
proof fn lemma_held_by_both(rounds: Seq<Measured>, reordered: Seq<Measured>, k: int)
    requires
        reordered.to_multiset() == rounds.to_multiset(),
        0 <= k < reordered.len(),
    ensures
        rounds.contains(reordered[k]),
{
    rounds.to_multiset_ensures();
    reordered.to_multiset_ensures();
    let x = reordered[k];
    assert(reordered.contains(x));
    assert(reordered.to_multiset().count(x) > 0);
    assert(rounds.to_multiset().count(x) > 0);
}

/// A quantity read off each round adds up to the same over two orderings of the same rounds.
proof fn lemma_reordered_total(rounds: Seq<Measured>, reordered: Seq<Measured>, f: spec_fn(Measured) -> Span)
    requires
        reordered.to_multiset() == rounds.to_multiset(),
    ensures
        total_of(reordered.map_values(f)) == total_of(rounds.map_values(f)),
    decreases rounds.len(),
{
    rounds.to_multiset_ensures();
    reordered.to_multiset_ensures();
    assert(reordered.len() == rounds.len());
    if rounds.len() == 0 {
        assert(reordered.map_values(f) =~= rounds.map_values(f));
    } else {
        let last = rounds.last();
        let before = rounds.drop_last();
        before.to_multiset_ensures();
        assert(before.push(last) =~= rounds);
        assert(rounds.to_multiset() =~= before.to_multiset().insert(last));
        assert(rounds.contains(last)) by {
            assert(rounds[rounds.len() - 1] == last);
        }
        assert(reordered.to_multiset().count(last) > 0);
        assert(reordered.contains(last));
        let j = choose|j: int| 0 <= j < reordered.len() && reordered[j] == last;
        let rest = reordered.remove(j);
        rest.to_multiset_ensures();
        assert(rest.to_multiset() =~= reordered.to_multiset().remove(last));
        assert(rest.to_multiset() =~= before.to_multiset());
        lemma_reordered_total(before, rest, f);
        let mapped = reordered.map_values(f);
        lemma_total_of_removed(mapped, j);
        assert(mapped.remove(j) =~= rest.map_values(f));
        assert(rounds.map_values(f).drop_last() =~= before.map_values(f));
        assert(rounds.map_values(f).last() == f(last));
    }
}

/// The longest of a quantity read off each round is the same over two orderings of the same rounds,
/// and so is the shortest.
proof fn lemma_reordered_extremes(rounds: Seq<Measured>, reordered: Seq<Measured>, span: Span)
    requires
        reordered.to_multiset() == rounds.to_multiset(),
    ensures
        is_longest(span, closes(reordered)) ==> is_longest(span, closes(rounds)),
        is_shortest(span, closes(reordered)) ==> is_shortest(span, closes(rounds)),
{
    rounds.to_multiset_ensures();
    reordered.to_multiset_ensures();
    assert(reordered.len() == rounds.len());
    if is_longest(span, closes(reordered)) || is_shortest(span, closes(reordered)) {
        let k = choose|k: int| 0 <= k < closes(reordered).len() && closes(reordered)[k].total() == span.total();
        lemma_held_by_both(rounds, reordered, k);
        let j = choose|j: int| 0 <= j < rounds.len() && rounds[j] == reordered[k];
        assert(closes(rounds)[j].total() == span.total());
        assert forall|i: int| 0 <= i < closes(rounds).len() implies (is_longest(span, closes(reordered))
            ==> #[trigger] closes(rounds)[i].total() <= span.total()) && (is_shortest(
            span,
            closes(reordered),
        ) ==> closes(rounds)[i].total() >= span.total()) by {
            lemma_held_by_both(reordered, rounds, i);
            let m = choose|m: int| 0 <= m < reordered.len() && reordered[m] == rounds[i];
            assert(closes(reordered)[m] == closes(rounds)[i]);
        }
    }
}

/// The order the rounds were taken in does not matter: two orderings of the same rounds both agree
/// or both disagree, and where they agree they are averaged alike, to the same means, the same
/// slowest and quickest close, and the same first round's verdicts.
pub proof fn law_averaging_ignores_order(rounds: Seq<Measured>, reordered: Seq<Measured>)
    requires
        reordered.to_multiset() == rounds.to_multiset(),
        rounds.len() > 0,
        forall|k: int| 0 <= k < rounds.len() ==> (#[trigger] rounds[k]).asked == rounds[0].asked,
    ensures
        reordered.len() == rounds.len(),
        agreeing(reordered) <==> agreeing(rounds),
        agreeing(rounds) ==> {
            &&& reordered[0].asked == rounds[0].asked
            &&& reordered[0].in_flight == rounds[0].in_flight
            &&& reordered[0].reusable == rounds[0].reusable
        },
        mean_of(closes(reordered)) == mean_of(closes(rounds)),
        mean_of(ends(reordered)) == mean_of(ends(rounds)),
        mean_of(knowns(reordered)) == mean_of(knowns(rounds)),
        forall|span: Span| #[trigger] is_longest(span, closes(reordered)) <==> is_longest(span, closes(rounds)),
        forall|span: Span| #[trigger] is_shortest(span, closes(reordered)) <==> is_shortest(span, closes(rounds)),
{
    rounds.to_multiset_ensures();
    reordered.to_multiset_ensures();
    assert(reordered.len() == rounds.len());
    lemma_held_by_both(rounds, reordered, 0);
    let first = choose|j: int| 0 <= j < rounds.len() && rounds[j] == reordered[0];
    assert(rounds.len() > 0);
    lemma_held_by_both(reordered, rounds, 0);
    let back = choose|j: int| 0 <= j < reordered.len() && reordered[j] == rounds[0];
    assert(reordered[0].asked == rounds[0].asked) by {
        assert(rounds[first].asked == rounds[0].asked);
    }
    if agreeing(rounds) {
        assert(!disagrees(rounds[first], rounds[0]));
        assert forall|k: int| 0 <= k < reordered.len() implies !disagrees(
            #[trigger] reordered[k],
            reordered[0],
        ) by {
            lemma_held_by_both(rounds, reordered, k);
            let j = choose|j: int| 0 <= j < rounds.len() && rounds[j] == reordered[k];
            assert(!disagrees(rounds[j], rounds[0]));
        }
    }
    if agreeing(reordered) {
        assert(!disagrees(reordered[back], reordered[0]));
        assert forall|k: int| 0 <= k < rounds.len() implies !disagrees(
            #[trigger] rounds[k],
            rounds[0],
        ) by {
            lemma_held_by_both(reordered, rounds, k);
            let j = choose|j: int| 0 <= j < reordered.len() && reordered[j] == rounds[k];
            assert(!disagrees(reordered[j], reordered[0]));
        }
    }
    let closed = |round: Measured| round.closed;
    let ended = |round: Measured| round.ended;
    let known = |round: Measured| round.at;
    lemma_reordered_total(rounds, reordered, closed);
    lemma_reordered_total(rounds, reordered, ended);
    lemma_reordered_total(rounds, reordered, known);
    assert(closes(rounds) =~= rounds.map_values(closed));
    assert(closes(reordered) =~= reordered.map_values(closed));
    assert(ends(rounds) =~= rounds.map_values(ended));
    assert(ends(reordered) =~= reordered.map_values(ended));
    assert(knowns(rounds) =~= rounds.map_values(known));
    assert(knowns(reordered) =~= reordered.map_values(known));
    assert forall|span: Span| #[trigger] is_longest(span, closes(reordered)) <==> is_longest(span, closes(rounds))
        by {
        lemma_reordered_extremes(rounds, reordered, span);
        lemma_reordered_extremes(reordered, rounds, span);
    }
    assert forall|span: Span| #[trigger] is_shortest(span, closes(reordered)) <==> is_shortest(span, closes(rounds))
        by {
        lemma_reordered_extremes(rounds, reordered, span);
        lemma_reordered_extremes(reordered, rounds, span);
    }
}

} // verus!

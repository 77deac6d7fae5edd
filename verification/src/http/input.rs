//! Reads each handler argument from where its role says it comes from.
//!
//! Nothing here awaits anything. A request has already arrived in full, so reading an argument out
//! of it is a function.

use crate::http::message::{unreadable_message, DirectError, DirectRequest, ErrorView, RequestView};
use crate::http::method::BAD_REQUEST;
use crate::text::{pieces, split_nonempty, strings_view, trim_text, trimmed};
use core::marker::PhantomData;
use vstd::prelude::*;
use vstd::string::*;
use vstd::slice::slice_to_vec;
use vstd::utf8::{decode_utf8, valid_utf8};

verus! {

/// Whether a text is one or more decimal digits.
pub open spec fn all_digits(text: Seq<char>) -> bool {
    text.len() > 0 && forall|i: int| 0 <= i < text.len() ==> '0' <= #[trigger] text[i] <= '9'
}

/// The number decimal digits state.
pub open spec fn digits_value(digits: Seq<char>) -> nat
    decreases digits.len(),
{
    if digits.len() == 0 {
        0
    } else {
        digits_value(digits.drop_last()) * 10 + (digits.last() as nat - '0' as nat) as nat
    }
}

/// The whole number a text states: an optional `+`, then decimal digits.
pub open spec fn unsigned_stated(text: Seq<char>) -> Option<nat> {
    let digits = if text.len() > 0 && text[0] == '+' {
        text.drop_first()
    } else {
        text
    };
    if all_digits(digits) {
        Some(digits_value(digits))
    } else {
        None
    }
}

/// The integer a text states: an optional `+` or `-`, then decimal digits.
pub open spec fn signed_stated(text: Seq<char>) -> Option<int> {
    if text.len() > 0 && text[0] == '-' {
        if all_digits(text.drop_first()) {
            Some(-(digits_value(text.drop_first()) as int))
        } else {
            None
        }
    } else {
        match unsigned_stated(text) {
            Some(value) => Some(value as int),
            None => None,
        }
    }
}

/// What `u8::from_str` reads a text as: an optional `+` then decimal digits, stating a number
/// no larger than `u8::MAX`.
pub open spec fn parsed_u8(text: Seq<char>) -> Option<u8> {
    match unsigned_stated(text) {
        Some(value) => if value <= u8::MAX {
            Some(value as u8)
        } else {
            None
        },
        None => None,
    }
}

/// Calls `str::parse::<u8>`, which reads what `parsed_u8` states and refuses anything else.
#[verifier::external_body]
fn parse_u8(text: &str) -> (r: Option<u8>)
    ensures
        r == parsed_u8(text@),
{
    text.parse::<u8>().ok()
}

/// What `u16::from_str` reads a text as: an optional `+` then decimal digits, stating a number
/// no larger than `u16::MAX`.
pub open spec fn parsed_u16(text: Seq<char>) -> Option<u16> {
    match unsigned_stated(text) {
        Some(value) => if value <= u16::MAX {
            Some(value as u16)
        } else {
            None
        },
        None => None,
    }
}

/// Calls `str::parse::<u16>`, which reads what `parsed_u16` states and refuses anything else.
#[verifier::external_body]
pub(crate) fn parse_u16(text: &str) -> (r: Option<u16>)
    ensures
        r == parsed_u16(text@),
{
    text.parse::<u16>().ok()
}

/// What `u32::from_str` reads a text as: an optional `+` then decimal digits, stating a number
/// no larger than `u32::MAX`.
pub open spec fn parsed_u32(text: Seq<char>) -> Option<u32> {
    match unsigned_stated(text) {
        Some(value) => if value <= u32::MAX {
            Some(value as u32)
        } else {
            None
        },
        None => None,
    }
}

/// Calls `str::parse::<u32>`, which reads what `parsed_u32` states and refuses anything else.
#[verifier::external_body]
fn parse_u32(text: &str) -> (r: Option<u32>)
    ensures
        r == parsed_u32(text@),
{
    text.parse::<u32>().ok()
}

/// What `u64::from_str` reads a text as: an optional `+` then decimal digits, stating a number
/// no larger than `u64::MAX`.
pub open spec fn parsed_u64(text: Seq<char>) -> Option<u64> {
    match unsigned_stated(text) {
        Some(value) => if value <= u64::MAX {
            Some(value as u64)
        } else {
            None
        },
        None => None,
    }
}

/// Calls `str::parse::<u64>`, which reads what `parsed_u64` states and refuses anything else.
#[verifier::external_body]
fn parse_u64(text: &str) -> (r: Option<u64>)
    ensures
        r == parsed_u64(text@),
{
    text.parse::<u64>().ok()
}

/// What `usize::from_str` reads a text as: an optional `+` then decimal digits, stating a number
/// no larger than `usize::MAX`.
pub open spec fn parsed_usize(text: Seq<char>) -> Option<usize> {
    match unsigned_stated(text) {
        Some(value) => if value <= usize::MAX {
            Some(value as usize)
        } else {
            None
        },
        None => None,
    }
}

/// Calls `str::parse::<usize>`, which reads what `parsed_usize` states and refuses anything else.
#[verifier::external_body]
pub(crate) fn parse_usize(text: &str) -> (r: Option<usize>)
    ensures
        r == parsed_usize(text@),
{
    text.parse::<usize>().ok()
}

/// What `i8::from_str` reads a text as: an optional `+` or `-` then decimal digits, stating a
/// number from `i8::MIN` to `i8::MAX`.
pub open spec fn parsed_i8(text: Seq<char>) -> Option<i8> {
    match signed_stated(text) {
        Some(value) => if i8::MIN <= value <= i8::MAX {
            Some(value as i8)
        } else {
            None
        },
        None => None,
    }
}

/// Calls `str::parse::<i8>`, which reads what `parsed_i8` states and refuses anything else.
#[verifier::external_body]
fn parse_i8(text: &str) -> (r: Option<i8>)
    ensures
        r == parsed_i8(text@),
{
    text.parse::<i8>().ok()
}

/// What `i16::from_str` reads a text as: an optional `+` or `-` then decimal digits, stating a
/// number from `i16::MIN` to `i16::MAX`.
pub open spec fn parsed_i16(text: Seq<char>) -> Option<i16> {
    match signed_stated(text) {
        Some(value) => if i16::MIN <= value <= i16::MAX {
            Some(value as i16)
        } else {
            None
        },
        None => None,
    }
}

/// Calls `str::parse::<i16>`, which reads what `parsed_i16` states and refuses anything else.
#[verifier::external_body]
fn parse_i16(text: &str) -> (r: Option<i16>)
    ensures
        r == parsed_i16(text@),
{
    text.parse::<i16>().ok()
}

/// What `i32::from_str` reads a text as: an optional `+` or `-` then decimal digits, stating a
/// number from `i32::MIN` to `i32::MAX`.
pub open spec fn parsed_i32(text: Seq<char>) -> Option<i32> {
    match signed_stated(text) {
        Some(value) => if i32::MIN <= value <= i32::MAX {
            Some(value as i32)
        } else {
            None
        },
        None => None,
    }
}

/// Calls `str::parse::<i32>`, which reads what `parsed_i32` states and refuses anything else.
#[verifier::external_body]
fn parse_i32(text: &str) -> (r: Option<i32>)
    ensures
        r == parsed_i32(text@),
{
    text.parse::<i32>().ok()
}

/// What `i64::from_str` reads a text as: an optional `+` or `-` then decimal digits, stating a
/// number from `i64::MIN` to `i64::MAX`.
pub open spec fn parsed_i64(text: Seq<char>) -> Option<i64> {
    match signed_stated(text) {
        Some(value) => if i64::MIN <= value <= i64::MAX {
            Some(value as i64)
        } else {
            None
        },
        None => None,
    }
}

/// Calls `str::parse::<i64>`, which reads what `parsed_i64` states and refuses anything else.
#[verifier::external_body]
fn parse_i64(text: &str) -> (r: Option<i64>)
    ensures
        r == parsed_i64(text@),
{
    text.parse::<i64>().ok()
}

/// What `isize::from_str` reads a text as: an optional `+` or `-` then decimal digits, stating a
/// number from `isize::MIN` to `isize::MAX`.
pub open spec fn parsed_isize(text: Seq<char>) -> Option<isize> {
    match signed_stated(text) {
        Some(value) => if isize::MIN <= value <= isize::MAX {
            Some(value as isize)
        } else {
            None
        },
        None => None,
    }
}

/// Calls `str::parse::<isize>`, which reads what `parsed_isize` states and refuses anything else.
#[verifier::external_body]
fn parse_isize(text: &str) -> (r: Option<isize>)
    ensures
        r == parsed_isize(text@),
{
    text.parse::<isize>().ok()
}

/// Calls `str::parse::<bool>`, which reads `true` and `false` and nothing else.
#[verifier::external_body]
fn parse_bool(text: &str) -> (r: Option<bool>)
    ensures
        r == (if text@ == "true"@ {
            Some(true)
        } else if text@ == "false"@ {
            Some(false)
        } else {
            None
        }),
{
    text.parse::<bool>().ok()
}

/// Calls `str::parse::<char>`, which reads a text of exactly one character as that character.
#[verifier::external_body]
fn parse_char(text: &str) -> (r: Option<char>)
    ensures
        r == (if text@.len() == 1 {
            Some(text@[0])
        } else {
            None
        }),
{
    text.parse::<char>().ok()
}

/// Calls `String::from_utf8`, which reads bytes that are valid UTF-8 as the text they encode, and
/// refuses any others.
#[verifier::external_body]
fn utf8_text(bytes: Vec<u8>) -> (r: Option<String>)
    ensures
        r is Some <==> valid_utf8(bytes@),
        r matches Some(text) ==> text@ == decode_utf8(bytes@),
{
    String::from_utf8(bytes).ok()
}

/// Reads the handler argument a path's captured segments state.
pub trait FromCapturesAlg: Sized {
    /// Whether the segments state such an argument.
    spec fn readable(captures: Seq<Seq<char>>) -> bool;

    /// Whether the segments state this value.
    spec fn reads_as(captures: Seq<Seq<char>>, value: Self) -> bool;

    /// Reads the argument from the segments the path bound, in declaration order.
    fn from_captures(captures: &[String]) -> (r: Option<Self>)
        ensures
            r is Some <==> Self::readable(strings_view(captures@)),
            r matches Some(value) ==> Self::reads_as(strings_view(captures@), value),
    ;
}

/// A `u8` is read from the first segment a path bound.
impl FromCapturesAlg for u8 {
    open spec fn readable(captures: Seq<Seq<char>>) -> bool {
        captures.len() > 0 && parsed_u8(captures[0]) is Some
    }

    open spec fn reads_as(captures: Seq<Seq<char>>, value: Self) -> bool {
        captures.len() > 0 && parsed_u8(captures[0]) == Some(value)
    }

    fn from_captures(captures: &[String]) -> (r: Option<Self>) {
        if captures.len() == 0 {
            return None;
        }
        assert(strings_view(captures@)[0] == captures@[0]@);
        parse_u8(captures[0].as_str())
    }
}

/// A `u16` is read from the first segment a path bound.
impl FromCapturesAlg for u16 {
    open spec fn readable(captures: Seq<Seq<char>>) -> bool {
        captures.len() > 0 && parsed_u16(captures[0]) is Some
    }

    open spec fn reads_as(captures: Seq<Seq<char>>, value: Self) -> bool {
        captures.len() > 0 && parsed_u16(captures[0]) == Some(value)
    }

    fn from_captures(captures: &[String]) -> (r: Option<Self>) {
        if captures.len() == 0 {
            return None;
        }
        assert(strings_view(captures@)[0] == captures@[0]@);
        parse_u16(captures[0].as_str())
    }
}

/// A `u32` is read from the first segment a path bound.
impl FromCapturesAlg for u32 {
    open spec fn readable(captures: Seq<Seq<char>>) -> bool {
        captures.len() > 0 && parsed_u32(captures[0]) is Some
    }

    open spec fn reads_as(captures: Seq<Seq<char>>, value: Self) -> bool {
        captures.len() > 0 && parsed_u32(captures[0]) == Some(value)
    }

    fn from_captures(captures: &[String]) -> (r: Option<Self>) {
        if captures.len() == 0 {
            return None;
        }
        assert(strings_view(captures@)[0] == captures@[0]@);
        parse_u32(captures[0].as_str())
    }
}

/// A `u64` is read from the first segment a path bound.
impl FromCapturesAlg for u64 {
    open spec fn readable(captures: Seq<Seq<char>>) -> bool {
        captures.len() > 0 && parsed_u64(captures[0]) is Some
    }

    open spec fn reads_as(captures: Seq<Seq<char>>, value: Self) -> bool {
        captures.len() > 0 && parsed_u64(captures[0]) == Some(value)
    }

    fn from_captures(captures: &[String]) -> (r: Option<Self>) {
        if captures.len() == 0 {
            return None;
        }
        assert(strings_view(captures@)[0] == captures@[0]@);
        parse_u64(captures[0].as_str())
    }
}

/// A `usize` is read from the first segment a path bound.
impl FromCapturesAlg for usize {
    open spec fn readable(captures: Seq<Seq<char>>) -> bool {
        captures.len() > 0 && parsed_usize(captures[0]) is Some
    }

    open spec fn reads_as(captures: Seq<Seq<char>>, value: Self) -> bool {
        captures.len() > 0 && parsed_usize(captures[0]) == Some(value)
    }

    fn from_captures(captures: &[String]) -> (r: Option<Self>) {
        if captures.len() == 0 {
            return None;
        }
        assert(strings_view(captures@)[0] == captures@[0]@);
        parse_usize(captures[0].as_str())
    }
}

/// A `i8` is read from the first segment a path bound.
impl FromCapturesAlg for i8 {
    open spec fn readable(captures: Seq<Seq<char>>) -> bool {
        captures.len() > 0 && parsed_i8(captures[0]) is Some
    }

    open spec fn reads_as(captures: Seq<Seq<char>>, value: Self) -> bool {
        captures.len() > 0 && parsed_i8(captures[0]) == Some(value)
    }

    fn from_captures(captures: &[String]) -> (r: Option<Self>) {
        if captures.len() == 0 {
            return None;
        }
        assert(strings_view(captures@)[0] == captures@[0]@);
        parse_i8(captures[0].as_str())
    }
}

/// A `i16` is read from the first segment a path bound.
impl FromCapturesAlg for i16 {
    open spec fn readable(captures: Seq<Seq<char>>) -> bool {
        captures.len() > 0 && parsed_i16(captures[0]) is Some
    }

    open spec fn reads_as(captures: Seq<Seq<char>>, value: Self) -> bool {
        captures.len() > 0 && parsed_i16(captures[0]) == Some(value)
    }

    fn from_captures(captures: &[String]) -> (r: Option<Self>) {
        if captures.len() == 0 {
            return None;
        }
        assert(strings_view(captures@)[0] == captures@[0]@);
        parse_i16(captures[0].as_str())
    }
}

/// A `i32` is read from the first segment a path bound.
impl FromCapturesAlg for i32 {
    open spec fn readable(captures: Seq<Seq<char>>) -> bool {
        captures.len() > 0 && parsed_i32(captures[0]) is Some
    }

    open spec fn reads_as(captures: Seq<Seq<char>>, value: Self) -> bool {
        captures.len() > 0 && parsed_i32(captures[0]) == Some(value)
    }

    fn from_captures(captures: &[String]) -> (r: Option<Self>) {
        if captures.len() == 0 {
            return None;
        }
        assert(strings_view(captures@)[0] == captures@[0]@);
        parse_i32(captures[0].as_str())
    }
}

/// A `i64` is read from the first segment a path bound.
impl FromCapturesAlg for i64 {
    open spec fn readable(captures: Seq<Seq<char>>) -> bool {
        captures.len() > 0 && parsed_i64(captures[0]) is Some
    }

    open spec fn reads_as(captures: Seq<Seq<char>>, value: Self) -> bool {
        captures.len() > 0 && parsed_i64(captures[0]) == Some(value)
    }

    fn from_captures(captures: &[String]) -> (r: Option<Self>) {
        if captures.len() == 0 {
            return None;
        }
        assert(strings_view(captures@)[0] == captures@[0]@);
        parse_i64(captures[0].as_str())
    }
}

/// A `isize` is read from the first segment a path bound.
impl FromCapturesAlg for isize {
    open spec fn readable(captures: Seq<Seq<char>>) -> bool {
        captures.len() > 0 && parsed_isize(captures[0]) is Some
    }

    open spec fn reads_as(captures: Seq<Seq<char>>, value: Self) -> bool {
        captures.len() > 0 && parsed_isize(captures[0]) == Some(value)
    }

    fn from_captures(captures: &[String]) -> (r: Option<Self>) {
        if captures.len() == 0 {
            return None;
        }
        assert(strings_view(captures@)[0] == captures@[0]@);
        parse_isize(captures[0].as_str())
    }
}

/// A `bool` is read from the first segment a path bound.
impl FromCapturesAlg for bool {
    open spec fn readable(captures: Seq<Seq<char>>) -> bool {
        captures.len() > 0 && (captures[0] == "true"@ || captures[0] == "false"@)
    }

    open spec fn reads_as(captures: Seq<Seq<char>>, value: Self) -> bool {
        captures.len() > 0 && value == (captures[0] == "true"@)
    }

    fn from_captures(captures: &[String]) -> (r: Option<Self>) {
        if captures.len() == 0 {
            return None;
        }
        assert(strings_view(captures@)[0] == captures@[0]@);
        parse_bool(captures[0].as_str())
    }
}

/// A `char` is read from the first segment a path bound.
impl FromCapturesAlg for char {
    open spec fn readable(captures: Seq<Seq<char>>) -> bool {
        captures.len() > 0 && captures[0].len() == 1
    }

    open spec fn reads_as(captures: Seq<Seq<char>>, value: Self) -> bool {
        captures.len() > 0 && captures[0].len() == 1 && value == captures[0][0]
    }

    fn from_captures(captures: &[String]) -> (r: Option<Self>) {
        if captures.len() == 0 {
            return None;
        }
        assert(strings_view(captures@)[0] == captures@[0]@);
        parse_char(captures[0].as_str())
    }
}

/// A `String` is read from the first segment a path bound.
impl FromCapturesAlg for String {
    open spec fn readable(captures: Seq<Seq<char>>) -> bool {
        captures.len() > 0
    }

    open spec fn reads_as(captures: Seq<Seq<char>>, value: Self) -> bool {
        captures.len() > 0 && value@ == captures[0]
    }

    fn from_captures(captures: &[String]) -> (r: Option<Self>) {
        if captures.len() == 0 {
            return None;
        }
        assert(strings_view(captures@)[0] == captures@[0]@);
        Some(captures[0].clone())
    }
}

/// Reads the handler argument a request body states, taken as it arrived.
pub trait FromBodyAlg: Sized {
    /// Whether the bytes state such an argument.
    spec fn readable(body: Seq<u8>) -> bool;

    /// Whether the bytes state this value.
    spec fn reads_as(body: Seq<u8>, value: Self) -> bool;

    /// Reads the argument from the bytes the caller sent.
    fn from_body(body: &[u8]) -> (r: Option<Self>)
        ensures
            r is Some <==> Self::readable(body@),
            r matches Some(value) ==> Self::reads_as(body@, value),
    ;
}

/// The body's bytes, as they arrived.
impl FromBodyAlg for Vec<u8> {
    open spec fn readable(body: Seq<u8>) -> bool {
        true
    }

    open spec fn reads_as(body: Seq<u8>, value: Self) -> bool {
        value@ == body
    }

    fn from_body(body: &[u8]) -> (r: Option<Self>) {
        Some(slice_to_vec(body))
    }
}

/// The body's text, where its bytes are valid UTF-8.
impl FromBodyAlg for String {
    open spec fn readable(body: Seq<u8>) -> bool {
        valid_utf8(body)
    }

    open spec fn reads_as(body: Seq<u8>, value: Self) -> bool {
        value@ == decode_utf8(body)
    }

    fn from_body(body: &[u8]) -> (r: Option<Self>) {
        utf8_text(slice_to_vec(body))
    }
}

/// Reads the handler argument a request head states.
pub trait FromHeadAlg: Sized {
    /// Whether the head states such an argument.
    spec fn readable(request: RequestView) -> bool;

    /// Whether the head states this value.
    spec fn reads_as(request: RequestView, value: Self) -> bool;

    /// Reads the argument from everything that arrived before the body.
    fn from_head(request: &DirectRequest) -> (r: Option<Self>)
        ensures
            r is Some <==> Self::readable(request@),
            r matches Some(value) ==> Self::reads_as(request@, value),
    ;
}

/// The request itself.
impl FromHeadAlg for DirectRequest {
    open spec fn readable(request: RequestView) -> bool {
        true
    }

    open spec fn reads_as(request: RequestView, value: Self) -> bool {
        value@ == request
    }

    fn from_head(request: &DirectRequest) -> (r: Option<Self>) {
        Some(request.clone())
    }
}

/// The failure of an argument that could not be read from where its role says it comes from.
pub open spec fn unreadable_view(role: Seq<char>, reason: Seq<char>) -> ErrorView {
    ErrorView { status: BAD_REQUEST, message: unreadable_message(role, reason) }
}

/// Marks a value read from the segments a path bound.
pub struct DirectPathInput<Input>(PhantomData<Input>);

impl<Input: FromCapturesAlg> DirectPathInput<Input> {
    /// Reads the argument from the segments the path bound.
    pub fn extract(captures: &[String]) -> (r: Result<Input, DirectError>)
        ensures
            r is Ok <==> Input::readable(strings_view(captures@)),
            r matches Ok(value) ==> Input::reads_as(strings_view(captures@), value),
            r matches Err(error) ==> error@ == unreadable_view("path"@, "it states something else"@),
    {
        match Input::from_captures(captures) {
            Some(value) => Ok(value),
            None => Err(DirectError::unreadable("path", "it states something else")),
        }
    }
}

/// Marks the request body taken as it arrived.
pub struct DirectRawBodyInput<Input>(PhantomData<Input>);

impl<Input: FromBodyAlg> DirectRawBodyInput<Input> {
    /// Reads the argument from the body.
    pub fn extract(request: &DirectRequest) -> (r: Result<Input, DirectError>)
        ensures
            r is Ok <==> Input::readable(request@.body),
            r matches Ok(value) ==> Input::reads_as(request@.body, value),
            r matches Err(error) ==> error@ == unreadable_view("body"@, "it states something else"@),
    {
        match Input::from_body(request.body()) {
            Some(value) => Ok(value),
            None => Err(DirectError::unreadable("body", "it states something else")),
        }
    }
}

/// Marks a value read from the request head.
pub struct DirectHeadInput<Input>(PhantomData<Input>);

impl<Input: FromHeadAlg> DirectHeadInput<Input> {
    /// Reads the argument from the head.
    pub fn extract(request: &DirectRequest) -> (r: Result<Input, DirectError>)
        ensures
            r is Ok <==> Input::readable(request@),
            r matches Ok(value) ==> Input::reads_as(request@, value),
            r matches Err(error) ==> error@ == unreadable_view("head"@, "it states something else"@),
    {
        match Input::from_head(request) {
            Some(value) => Ok(value),
            None => Err(DirectError::unreadable("head", "it states something else")),
        }
    }
}

/// Marks a value read from the query string.
pub struct DirectQueryInput<Input>(PhantomData<Input>);

impl<Input> DirectQueryInput<Input> {
    /// Takes what decoding the query string gave, answering a failure as an unreadable query.
    pub fn extract(decoded: Result<Input, String>) -> (r: Result<Input, DirectError>)
        ensures
            match decoded {
                Ok(value) => r == Ok::<Input, DirectError>(value),
                Err(reason) => r matches Err(error) && error@ == unreadable_view("query"@, reason@),
            },
    {
        match decoded {
            Ok(value) => Ok(value),
            Err(reason) => Err(DirectError::unreadable("query", reason.as_str())),
        }
    }
}

/// Marks a JSON value read from the request body.
pub struct DirectBodyInput<Input>(PhantomData<Input>);

impl<Input> DirectBodyInput<Input> {
    /// Takes what decoding the body as JSON gave, answering a failure as an unreadable body.
    pub fn extract(decoded: Result<Input, String>) -> (r: Result<Input, DirectError>)
        ensures
            match decoded {
                Ok(value) => r == Ok::<Input, DirectError>(value),
                Err(reason) => r matches Err(error) && error@ == unreadable_view("body"@, reason@),
            },
    {
        match decoded {
            Ok(value) => Ok(value),
            Err(reason) => Err(DirectError::unreadable("body", reason.as_str())),
        }
    }
}

/// Marks a form-encoded value read from the request body.
pub struct DirectFormInput<Input>(PhantomData<Input>);

impl<Input> DirectFormInput<Input> {
    /// Takes what decoding the body as a form gave, answering a failure as an unreadable form.
    pub fn extract(decoded: Result<Input, String>) -> (r: Result<Input, DirectError>)
        ensures
            match decoded {
                Ok(value) => r == Ok::<Input, DirectError>(value),
                Err(reason) => r matches Err(error) && error@ == unreadable_view("form"@, reason@),
            },
    {
        match decoded {
            Ok(value) => Ok(value),
            Err(reason) => Err(DirectError::unreadable("form", reason.as_str())),
        }
    }
}

/// Marks a value read from the cookies a caller sent.
pub struct DirectCookieInput<Input>(PhantomData<Input>);

impl<Input> DirectCookieInput<Input> {
    /// Takes what decoding the cookies gave, answering a failure as unreadable cookies.
    pub fn extract(decoded: Result<Input, String>) -> (r: Result<Input, DirectError>)
        ensures
            match decoded {
                Ok(value) => r == Ok::<Input, DirectError>(value),
                Err(reason) => r matches Err(error) && error@ == unreadable_view("cookies"@, reason@),
            },
    {
        match decoded {
            Ok(value) => Ok(value),
            Err(reason) => Err(DirectError::unreadable("cookies", reason.as_str())),
        }
    }
}

/// Marks a value read from the headers a caller sent.
pub struct DirectHeaderInput<Input>(PhantomData<Input>);

impl<Input> DirectHeaderInput<Input> {
    /// Takes what decoding the headers gave, answering a failure as unreadable headers.
    pub fn extract(decoded: Result<Input, String>) -> (r: Result<Input, DirectError>)
        ensures
            match decoded {
                Ok(value) => r == Ok::<Input, DirectError>(value),
                Err(reason) => r matches Err(error) && error@ == unreadable_view("headers"@, reason@),
            },
    {
        match decoded {
            Ok(value) => Ok(value),
            Err(reason) => Err(DirectError::unreadable("headers", reason.as_str())),
        }
    }
}

/// Marks an argument read from a body arriving as parts.
pub struct DirectMultipartInput<Input>(PhantomData<Input>);

impl<Input> DirectMultipartInput<Input> {
    /// The media type a body of parts is read under, which the request must state.
    pub fn media_type(request: &DirectRequest) -> (r: Result<&str, DirectError>)
        ensures
            match r {
                Ok(media) => crate::http::message::header_value(
                    request@.headers,
                    crate::http::message::lowercased("content-type"@),
                ) == Some(media@),
                Err(error) => crate::http::message::header_value(
                    request@.headers,
                    crate::http::message::lowercased("content-type"@),
                ) is None && error@ == unreadable_view("parts"@, "the body states no media type"@),
            },
    {
        match request.header("content-type") {
            Some(media) => Ok(media),
            None => Err(DirectError::unreadable("parts", "the body states no media type")),
        }
    }

    /// Takes what reading the parts gave, answering a failure as unreadable parts.
    pub fn extract(decoded: Result<Input, String>) -> (r: Result<Input, DirectError>)
        ensures
            match decoded {
                Ok(value) => r == Ok::<Input, DirectError>(value),
                Err(reason) => r matches Err(error) && error@ == unreadable_view("parts"@, reason@),
            },
    {
        match decoded {
            Ok(value) => Ok(value),
            Err(reason) => Err(DirectError::unreadable("parts", reason.as_str())),
        }
    }
}

/// The name a header is read under as an argument's member: its words separated by `_`, where the
/// wire separates them by `-`.
pub open spec fn header_name_read(name: Seq<char>) -> Seq<char> {
    name.map_values(|c: char| if c == '-' { '_' } else { c })
}

/// Reads a header's name as the member of an argument it states.
pub fn read_header_name(name: &str) -> (r: String)
    ensures
        r@ == header_name_read(name@),
{
    let n = name.unicode_len();
    let mut r = String::new();
    let mut i: usize = 0;
    while i < n
        invariant
            i <= n,
            n == name@.len(),
            r@ == header_name_read(name@.take(i as int)),
        decreases n - i,
    {
        let c = name.get_char(i);
        if c == '-' {
            r.append("_");
            proof {
                reveal_strlit("_");
            }
        } else {
            r.append(name.substring_char(i, i + 1));
        }
        proof {
            assert(header_name_read(name@.take(i + 1)) =~= header_name_read(name@.take(i as int)).push(
                if c == '-' {
                    '_'
                } else {
                    c
                },
            ));
        }
        i = i + 1;
    }
    proof {
        assert(name@.take(n as int) =~= name@);
    }
    r
}

/// Where the first `=` of a text is, at or after `from`.
pub open spec fn equals_from(text: Seq<char>, from: int) -> Option<int>
    decreases text.len() - from,
{
    if from < 0 || from >= text.len() {
        None
    } else if text[from] == '=' {
        Some(from)
    } else {
        equals_from(text, from + 1)
    }
}

/// One cookie a piece of a `cookie` header states: what is before its first `=` and what is after,
/// once the piece is trimmed; a piece with no `=` states none.
pub open spec fn cookie_of(piece: Seq<char>) -> Option<(Seq<char>, Seq<char>)> {
    let text = trimmed(piece);
    match equals_from(text, 0) {
        Some(at) => Some((text.take(at), text.skip(at + 1))),
        None => None,
    }
}

/// The cookies the pieces of a header state, in order.
pub open spec fn cookies_of(pieces: Seq<Seq<char>>) -> Seq<(Seq<char>, Seq<char>)>
    decreases pieces.len(),
{
    if pieces.len() == 0 {
        Seq::empty()
    } else {
        match cookie_of(pieces.last()) {
            Some(cookie) => cookies_of(pieces.drop_last()).push(cookie),
            None => cookies_of(pieces.drop_last()),
        }
    }
}

/// Cookies as text.
pub open spec fn cookies_view(cookies: Seq<(String, String)>) -> Seq<(Seq<char>, Seq<char>)> {
    cookies.map_values(|cookie: (String, String)| (cookie.0@, cookie.1@))
}

/// Reads the cookies a `cookie` header states: each `;`-separated piece, trimmed, is a name and a
/// value around its first `=`.
pub fn read_cookies(header: &str) -> (r: Vec<(String, String)>)
    ensures
        cookies_view(r@) == cookies_of(pieces(header@, ';')),
{
    let stated = split_nonempty(header, ';');
    let ghost all = pieces(header@, ';');
    let mut r: Vec<(String, String)> = Vec::new();
    let mut i: usize = 0;
    while i < stated.len()
        invariant
            i <= stated.len(),
            all == crate::shape::algebra::words_seq(stated@),
            cookies_view(r@) == cookies_of(all.take(i as int)),
        decreases stated.len() - i,
    {
        proof {
            assert(all.take(i + 1).drop_last() =~= all.take(i as int));
            assert(all.take(i + 1).last() == stated@[i as int]@);
        }
        let text = trim_text(stated[i]);
        let n = text.unicode_len();
        let mut at: usize = 0;
        while at < n && text.get_char(at) != '='
            invariant
                at <= n,
                n == text@.len(),
                equals_from(text@, 0) == equals_from(text@, at as int),
            decreases n - at,
        {
            at = at + 1;
        }
        if at < n {
            let name = text.substring_char(0, at).to_owned();
            let value = text.substring_char(at + 1, n).to_owned();
            let ghost before = r@;
            r.push((name, value));
            proof {
                assert(text@.subrange(0, at as int) =~= text@.take(at as int));
                assert(text@.subrange(at + 1, n as int) =~= text@.skip(at + 1));
                assert(r@ == before.push((name, value)));
                assert(cookies_view(r@) =~= cookies_view(before).push((name@, value@)));
            }
        }
        i = i + 1;
    }
    proof {
        assert(all.take(i as int) =~= all);
    }
    r
}

} // verus!

//! Interprets a shape as a readable description: one line of text a person can check a term by.
//!
//! A name is written with its words joined by `_`, since a description states words rather than a
//! spelling.

use crate::shape::algebra::{views_of, words_view, FieldAlg, ShapeAlg, Sorts, Words};
use crate::text::{append_decimal, decimal, join_strings, join_words, joined, strings_view};
use vstd::prelude::*;
use vstd::string::*;

verus! {

/// Describes shapes as readable text.
#[derive(Debug, Clone, Copy, Default)]
pub struct Description;

impl Sorts for Description {
    type Ty = String;
    type Field = String;
}

/// A name, as its words joined by `_`.
pub open spec fn name_text(words: Seq<Seq<char>>) -> Seq<char> {
    joined(words, "_"@)
}

/// Writes a name as its words joined by `_`.
fn write_name(words: Words<'_>) -> (r: String)
    ensures
        r@ == name_text(words_view(words)),
{
    join_words(words, "_")
}

/// Writes `open`, the item, then `close`.
fn wrapped(open: &str, item: String, close: &str) -> (r: String)
    ensures
        r@ == open@ + item@ + close@,
{
    let mut r = String::from_str(open);
    r.append(item.as_str());
    r.append(close);
    r
}

impl ShapeAlg for Description {
    open spec fn spec_truth(&self) -> Seq<char> {
        "bool"@
    }

    open spec fn spec_unit(&self) -> Seq<char> {
        "null"@
    }

    open spec fn spec_text(&self) -> Seq<char> {
        "string"@
    }

    open spec fn spec_literal(&self, text: Seq<char>) -> Seq<char> {
        "'"@ + text + "'"@
    }

    open spec fn spec_name_word(&self, words: Seq<Seq<char>>) -> Seq<char> {
        "\""@ + name_text(words) + "\""@
    }

    open spec fn spec_integer(&self, signed: bool, bits: u16) -> Seq<char> {
        (if signed {
            "i"@
        } else {
            "u"@
        }) + decimal(bits as nat)
    }

    open spec fn spec_float(&self, bits: u16) -> Seq<char> {
        "f"@ + decimal(bits as nat)
    }

    open spec fn spec_bytes(&self, len: Option<usize>) -> Seq<char> {
        match len {
            Some(len) => "bytes["@ + decimal(len as nat) + "]"@,
            None => "bytes"@,
        }
    }

    open spec fn spec_hex(&self, item: Seq<char>) -> Seq<char> {
        "hex("@ + item + ")"@
    }

    open spec fn spec_decimal(&self, item: Seq<char>) -> Seq<char> {
        "decimal("@ + item + ")"@
    }

    open spec fn spec_base64(&self, item: Seq<char>) -> Seq<char> {
        "base64("@ + item + ")"@
    }

    open spec fn spec_opt(&self, item: Seq<char>) -> Seq<char> {
        item + "?"@
    }

    open spec fn spec_seq(&self, item: Seq<char>) -> Seq<char> {
        "["@ + item + "]"@
    }

    open spec fn spec_map(&self, key: Seq<char>, value: Seq<char>) -> Seq<char> {
        "{"@ + key + ": "@ + value + "}"@
    }

    open spec fn spec_product(&self, fields: Seq<Seq<char>>) -> Seq<char> {
        "{"@ + joined(fields, ", "@) + "}"@
    }

    open spec fn spec_choice(&self, alternatives: Seq<Seq<char>>) -> Seq<char> {
        joined(alternatives, " | "@)
    }

    open spec fn spec_named(&self, words: Seq<Seq<char>>, body: Seq<char>) -> Seq<char> {
        name_text(words) + "="@ + body
    }

    open spec fn spec_reference(&self, words: Seq<Seq<char>>) -> Seq<char> {
        "@"@ + name_text(words)
    }

    fn truth(&self) -> (r: String) {
        String::from_str("bool")
    }

    fn unit(&self) -> (r: String) {
        String::from_str("null")
    }

    fn text(&self) -> (r: String) {
        String::from_str("string")
    }

    fn literal(&self, text: &str) -> (r: String) {
        wrapped("'", String::from_str(text), "'")
    }

    fn name_word(&self, words: Words<'_>) -> (r: String) {
        wrapped("\"", write_name(words), "\"")
    }

    fn integer(&self, signed: bool, bits: u16) -> (r: String) {
        let mut r = if signed {
            String::from_str("i")
        } else {
            String::from_str("u")
        };
        append_decimal(&mut r, bits as u64);
        r
    }

    fn float(&self, bits: u16) -> (r: String) {
        let mut r = String::from_str("f");
        append_decimal(&mut r, bits as u64);
        r
    }

    fn bytes(&self, len: Option<usize>) -> (r: String) {
        match len {
            Some(len) => {
                let mut r = String::from_str("bytes[");
                append_decimal(&mut r, len as u64);
                r.append("]");
                r
            },
            None => String::from_str("bytes"),
        }
    }

    fn hex(&self, item: String) -> (r: String) {
        wrapped("hex(", item, ")")
    }

    fn decimal(&self, item: String) -> (r: String) {
        wrapped("decimal(", item, ")")
    }

    fn base64(&self, item: String) -> (r: String) {
        wrapped("base64(", item, ")")
    }

    fn opt(&self, item: String) -> (r: String) {
        let mut r = item;
        r.append("?");
        r
    }

    fn seq(&self, item: String) -> (r: String) {
        wrapped("[", item, "]")
    }

    fn map(&self, key: String, value: String) -> (r: String) {
        let mut r = String::from_str("{");
        r.append(key.as_str());
        r.append(": ");
        r.append(value.as_str());
        r.append("}");
        r
    }

    fn product(&self, fields: Vec<String>) -> (r: String) {
        proof {
            assert(views_of(fields@) =~= strings_view(fields@));
        }
        wrapped("{", join_strings(fields.as_slice(), ", "), "}")
    }

    fn choice(&self, alternatives: Vec<String>) -> (r: String) {
        proof {
            assert(views_of(alternatives@) =~= strings_view(alternatives@));
        }
        join_strings(alternatives.as_slice(), " | ")
    }

    fn named(&self, words: Words<'_>, body: String) -> (r: String) {
        let mut r = write_name(words);
        r.append("=");
        r.append(body.as_str());
        r
    }

    fn reference(&self, words: Words<'_>) -> (r: String) {
        let mut r = String::from_str("@");
        let name = write_name(words);
        r.append(name.as_str());
        r
    }
}

impl FieldAlg for Description {
    open spec fn spec_field(&self, words: Seq<Seq<char>>, shape: Seq<char>) -> Seq<char> {
        name_text(words) + ": "@ + shape
    }

    open spec fn spec_merge(&self, shape: Seq<char>) -> Seq<char> {
        ".."@ + shape
    }

    fn field(&self, words: Words<'_>, shape: String) -> (r: String) {
        let mut r = write_name(words);
        r.append(": ");
        r.append(shape.as_str());
        r
    }

    fn merge(&self, shape: String) -> (r: String) {
        let mut r = String::from_str("..");
        r.append(shape.as_str());
        r
    }
}

} // verus!

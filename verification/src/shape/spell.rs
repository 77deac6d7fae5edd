//! How an interpretation spells the words a name is made of.
//!
//! A spelling is not part of a term: the same name reads `displayName` under one interpretation
//! and `display_name` under another. What lives here is the vocabulary of spellings, the fold that
//! applies one, and the split that reads the words back out of a `_`-separated identifier.

use crate::shape::algebra::{words_seq, words_view, Words};
use crate::text::{
    ascii_lower, ascii_text, ascii_upper,
    cleanly_separated, joined, join_words, law_pieces_are_plain, law_pieces_of_joined,
    law_pieces_rejoin_clean_text, pieces, split_nonempty,
};
use vstd::prelude::*;
use vstd::string::*;

verus! {

/// What `str::to_uppercase` makes of a text.
pub uninterp spec fn uppercased(text: Seq<char>) -> Seq<char>;

/// What `char::to_uppercase` yields for one character.
pub uninterp spec fn char_uppercased(c: char) -> Seq<char>;

/// What `char::to_lowercase` yields for one character.
pub uninterp spec fn char_lowercased(c: char) -> Seq<char>;

/// Calls `str::to_uppercase`. Its result is named, not stated in full: Unicode case mapping can
/// change a text's length. The contract claims that the result is a function of the text, and that
/// an ASCII text has each letter `a` to `z` made `A` to `Z` and every other character kept.
#[verifier::external_body]
fn upper_text(text: &str) -> (r: String)
    ensures
        r@ == uppercased(text@),
        ascii_text(text@) ==> r@ == text@.map_values(|c: char| ascii_upper(c)),
{
    text.to_uppercase()
}

/// Calls `char::to_uppercase` and collects what it yields. The contract claims that the result is
/// a function of the character, and that an ASCII character yields its ASCII upper-case form alone.
#[verifier::external_body]
fn upper_char(c: char) -> (r: String)
    ensures
        r@ == char_uppercased(c),
        (c as u32) < 128 ==> r@ == seq![ascii_upper(c)],
{
    c.to_uppercase().collect()
}

/// Calls `char::to_lowercase` and collects what it yields. The contract claims that the result is
/// a function of the character, and that an ASCII character yields its ASCII lower-case form alone.
#[verifier::external_body]
fn lower_char(c: char) -> (r: String)
    ensures
        r@ == char_lowercased(c),
        (c as u32) < 128 ==> r@ == seq![ascii_lower(c)],
{
    c.to_lowercase().collect()
}

/// The spellings a name can be written in.
#[derive(Debug, Clone, Copy, PartialEq, Eq, Structural)]
pub enum Spelling {
    /// `display_name`
    Snake,
    /// `displayName`
    LowerCamel,
    /// `DisplayName`
    UpperCamel,
    /// `display-name`
    Kebab,
    /// `DISPLAY_NAME`
    Screaming,
}

/// One word with its first character upper- or lower-cased and the rest as it is.
pub open spec fn capitalized(word: Seq<char>, upper: bool) -> Seq<char> {
    if word.len() == 0 {
        Seq::empty()
    } else if upper {
        char_uppercased(word[0]) + word.drop_first()
    } else {
        char_lowercased(word[0]) + word.drop_first()
    }
}

/// The words run together, each after the first capitalized, and the first as `first_upper` says.
pub open spec fn camel_cased(words: Seq<Seq<char>>, first_upper: bool) -> Seq<char>
    decreases words.len(),
{
    if words.len() == 0 {
        Seq::empty()
    } else {
        camel_cased(words.drop_last(), first_upper) + capitalized(
            words.last(),
            words.len() > 1 || first_upper,
        )
    }
}

/// A name written in a spelling.
pub open spec fn spelled(spelling: Spelling, words: Seq<Seq<char>>) -> Seq<char> {
    match spelling {
        Spelling::Snake => joined(words, seq!['_']),
        Spelling::Kebab => joined(words, seq!['-']),
        Spelling::Screaming => uppercased(joined(words, seq!['_'])),
        Spelling::LowerCamel => camel_cased(words, false),
        Spelling::UpperCamel => camel_cased(words, true),
    }
}

/// The words an identifier states: its non-empty runs of characters between `_`s, in order.
pub open spec fn words_in(text: Seq<char>) -> Seq<Seq<char>> {
    pieces(text, '_')
}

/// Writes one word, capitalized or not.
fn capitalize(word: &str, upper: bool) -> (r: String)
    ensures
        r@ == capitalized(word@, upper),
{
    let n = word.unicode_len();
    if n == 0 {
        String::new()
    } else {
        let first = word.get_char(0);
        let mut r = if upper {
            upper_char(first)
        } else {
            lower_char(first)
        };
        r.append(word.substring_char(1, n));
        proof {
            assert(word@.subrange(1, n as int) =~= word@.drop_first());
        }
        r
    }
}

/// Writes the words run together, each after the first capitalized.
fn camel(words: Words<'_>, first_upper: bool) -> (r: String)
    ensures
        r@ == camel_cased(words_view(words), first_upper),
{
    let ghost all = words_view(words);
    let mut r = String::new();
    let mut i: usize = 0;
    while i < words.len()
        invariant
            i <= words.len(),
            all == words_view(words),
            r@ == camel_cased(all.take(i as int), first_upper),
        decreases words.len() - i,
    {
        proof {
            assert(all.take(i + 1).drop_last() =~= all.take(i as int));
        }
        let word = capitalize(words[i], i > 0 || first_upper);
        r.append(word.as_str());
        i = i + 1;
    }
    proof {
        assert(all.take(i as int) =~= all);
    }
    r
}

impl Spelling {
    /// Writes a name in this spelling.
    ///
    /// Words are joined, never re-segmented, so what a name is written as depends on its words and
    /// the spelling alone.
    pub fn spell(self, words: Words<'_>) -> (r: String)
        ensures
            r@ == spelled(self, words_view(words)),
    {
        proof {
            reveal_strlit("_");
            reveal_strlit("-");
            assert("_"@ =~= seq!['_']);
            assert("-"@ =~= seq!['-']);
        }
        match self {
            Spelling::Snake => join_words(words, "_"),
            Spelling::Kebab => join_words(words, "-"),
            Spelling::Screaming => {
                let joined_words = join_words(words, "_");
                upper_text(joined_words.as_str())
            },
            Spelling::LowerCamel => camel(words, false),
            Spelling::UpperCamel => camel(words, true),
        }
    }
}

/// Names the words an identifier states, splitting where it marks a boundary.
///
/// Only `_` separates, because it is the only boundary a snake-case identifier states explicitly;
/// empty runs between separators state no word.
pub fn words_of<'a>(identifier: &'a str) -> (r: Vec<&'a str>)
    ensures
        words_seq(r@) == words_in(identifier@),
{
    split_nonempty(identifier, '_')
}

/// Every word an identifier states is non-empty and holds no `_`.
pub proof fn law_words_are_plain(text: Seq<char>)
    ensures
        forall|k: int|
            0 <= k < words_in(text).len() ==> #[trigger] words_in(text)[k].len() > 0 && !words_in(
                text,
            )[k].contains('_'),
{
    law_pieces_are_plain(text, '_');
}

/// Reading the words back out of their snake spelling gives the words again, whenever each word is
/// non-empty and holds no `_`.
pub proof fn law_words_of_snake_spelling(words: Seq<Seq<char>>)
    requires
        forall|k: int| 0 <= k < words.len() ==> #[trigger] words[k].len() > 0 && !words[k].contains('_'),
    ensures
        words_in(spelled(Spelling::Snake, words)) == words,
{
    law_pieces_of_joined(words, '_');
}

/// An identifier survives being read as words and spelled again in snake case exactly when it
/// neither starts nor ends with `_` and holds no two `_` side by side.
pub proof fn law_snake_spelling_of_words(identifier: Seq<char>)
    ensures
        spelled(Spelling::Snake, words_in(identifier)) == identifier <==> cleanly_separated(
            identifier,
            '_',
        ),
{
    law_pieces_rejoin_clean_text(identifier, '_');
}

/// Camel spellings write each word after the first capitalized: spelling two runs of words
/// together in lower camel case is the first run in lower camel case followed by the second in upper
/// camel case, and in upper camel case it is the two runs each in upper camel case; one word alone is
/// capitalized as the spelling's first word is.
pub proof fn law_camel_spelling_capitalizes_every_later_word(
    words: Seq<Seq<char>>,
    more: Seq<Seq<char>>,
    word: Seq<char>,
)
    ensures
        words.len() > 0 ==> spelled(Spelling::LowerCamel, words + more) == spelled(
            Spelling::LowerCamel,
            words,
        ) + spelled(Spelling::UpperCamel, more),
        spelled(Spelling::UpperCamel, words + more) == spelled(Spelling::UpperCamel, words) + spelled(
            Spelling::UpperCamel,
            more,
        ),
        spelled(Spelling::LowerCamel, seq![word]) == capitalized(word, false),
        spelled(Spelling::UpperCamel, seq![word]) == capitalized(word, true),
{
    assert(seq![word].drop_last() =~= Seq::<Seq<char>>::empty());
    assert(Seq::<char>::empty() + capitalized(word, false) =~= capitalized(word, false));
    assert(Seq::<char>::empty() + capitalized(word, true) =~= capitalized(word, true));
    assert(seq![word].last() == word);
    let alone = seq![word];
    assert(alone.len() == 1);
    assert(camel_cased(alone.drop_last(), false) =~= Seq::<char>::empty());
    assert(camel_cased(alone.drop_last(), true) =~= Seq::<char>::empty());
    assert(camel_cased(alone, false) == camel_cased(alone.drop_last(), false) + capitalized(word, false));
    assert(camel_cased(alone, true) == camel_cased(alone.drop_last(), true) + capitalized(word, true));
    assert(camel_cased(seq![word], false) == capitalized(word, false));
    assert(camel_cased(seq![word], true) == capitalized(word, true));
    if words.len() > 0 {
        lemma_camel_joined(words, more, false);
    }
    if words.len() == 0 {
        assert(words + more =~= more);
        assert(Seq::<char>::empty() + camel_cased(more, true) =~= camel_cased(more, true));
    } else {
        lemma_camel_joined(words, more, true);
    }
}

/// Spelling a non-empty run of words and then more in camel case writes every later word
/// capitalized.
proof fn lemma_camel_joined(words: Seq<Seq<char>>, more: Seq<Seq<char>>, first_upper: bool)
    requires
        words.len() > 0,
    ensures
        camel_cased(words + more, first_upper) == camel_cased(words, first_upper) + camel_cased(more, true),
    decreases more.len(),
{
    if more.len() == 0 {
        assert(words + more =~= words);
        assert(camel_cased(words, first_upper) + Seq::<char>::empty() =~= camel_cased(words, first_upper));
    } else {
        let shorter = more.drop_last();
        lemma_camel_joined(words, shorter, first_upper);
        assert((words + more).drop_last() =~= words + shorter);
        assert((words + more).last() == more.last());
        assert(camel_cased(words, first_upper) + (camel_cased(shorter, true) + capitalized(more.last(), true))
            =~= (camel_cased(words, first_upper) + camel_cased(shorter, true)) + capitalized(
            more.last(),
            true,
        ));
    }
}

} // verus!

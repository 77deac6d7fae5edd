//! Words of a text: joining them with a separator, reading them back out, trimming, and writing a
//! number's decimal digits.
//!
//! A name is split on `_`, a path on `/`; both read the non-empty runs of characters between
//! separators, in order, and both are the inverse of joining such runs with the separator.

use crate::shape::algebra::{words_seq, words_view, Words};
use vstd::prelude::*;
use vstd::string::*;

verus! {

/// Whether every character of a text is ASCII.
pub open spec fn ascii_text(text: Seq<char>) -> bool {
    forall|i: int| 0 <= i < text.len() ==> (#[trigger] text[i] as u32) < 128
}

/// An ASCII letter's lower-case form: `A` to `Z` become `a` to `z`, and every other character stays.
pub open spec fn ascii_lower(c: char) -> char {
    if 'A' <= c <= 'Z' {
        ((c as u32) + 32) as char
    } else {
        c
    }
}

/// An ASCII letter's upper-case form: `a` to `z` become `A` to `Z`, and every other character stays.
pub open spec fn ascii_upper(c: char) -> char {
    if 'a' <= c <= 'z' {
        ((c as u32) - 32) as char
    } else {
        c
    }
}

/// Whether a character is white space: whether it has the Unicode `White_Space` property, which
/// is what `char::is_whitespace` tests.
pub open spec fn white_space(c: char) -> bool {
    ||| '\u{0009}' <= c <= '\u{000D}'
    ||| c == '\u{0020}'
    ||| c == '\u{0085}'
    ||| c == '\u{00A0}'
    ||| c == '\u{1680}'
    ||| '\u{2000}' <= c <= '\u{200A}'
    ||| c == '\u{2028}'
    ||| c == '\u{2029}'
    ||| c == '\u{202F}'
    ||| c == '\u{205F}'
    ||| c == '\u{3000}'
}

/// A text without the white space it starts with.
pub open spec fn trimmed_start(text: Seq<char>) -> Seq<char>
    decreases text.len(),
{
    if text.len() > 0 && white_space(text[0]) {
        trimmed_start(text.drop_first())
    } else {
        text
    }
}

/// A text without the white space it ends with.
pub open spec fn trimmed_end(text: Seq<char>) -> Seq<char>
    decreases text.len(),
{
    if text.len() > 0 && white_space(text.last()) {
        trimmed_end(text.drop_last())
    } else {
        text
    }
}

/// What `str::trim` leaves of a text: the text without the white space it starts and ends with.
pub open spec fn trimmed(text: Seq<char>) -> Seq<char> {
    trimmed_end(trimmed_start(text))
}

/// Calls `str::trim`, which removes the white space a text starts and ends with, white space being
/// what has the Unicode `White_Space` property.
#[verifier::external_body]
pub(crate) fn trim_text(text: &str) -> (r: &str)
    ensures
        r@ == trimmed(text@),
{
    text.trim()
}

/// The words written one after another, with `sep` between each two.
pub open spec fn joined(words: Seq<Seq<char>>, sep: Seq<char>) -> Seq<char>
    decreases words.len(),
{
    if words.len() == 0 {
        Seq::empty()
    } else if words.len() == 1 {
        words[0]
    } else {
        joined(words.drop_last(), sep) + sep + words.last()
    }
}

/// The characters of a text after its last `sep`.
pub open spec fn trailing_piece(text: Seq<char>, sep: char) -> Seq<char>
    decreases text.len(),
{
    if text.len() == 0 {
        Seq::empty()
    } else if text.last() == sep {
        Seq::empty()
    } else {
        trailing_piece(text.drop_last(), sep).push(text.last())
    }
}

/// The non-empty pieces of a text that a `sep` has already closed, in order.
pub open spec fn closed_pieces(text: Seq<char>, sep: char) -> Seq<Seq<char>>
    decreases text.len(),
{
    if text.len() == 0 {
        Seq::empty()
    } else if text.last() == sep && trailing_piece(text.drop_last(), sep).len() > 0 {
        closed_pieces(text.drop_last(), sep).push(trailing_piece(text.drop_last(), sep))
    } else {
        closed_pieces(text.drop_last(), sep)
    }
}

/// The non-empty runs of characters between `sep`s, in order.
pub open spec fn pieces(text: Seq<char>, sep: char) -> Seq<Seq<char>> {
    if trailing_piece(text, sep).len() > 0 {
        closed_pieces(text, sep).push(trailing_piece(text, sep))
    } else {
        closed_pieces(text, sep)
    }
}

/// The words joined with a separator.
pub fn join_words(words: Words<'_>, sep: &str) -> (r: String)
    ensures
        r@ == joined(words_view(words), sep@),
{
    let ghost all = words_view(words);
    let mut r = String::new();
    let mut i: usize = 0;
    while i < words.len()
        invariant
            i <= words.len(),
            all == words_view(words),
            r@ == joined(all.take(i as int), sep@),
        decreases words.len() - i,
    {
        proof {
            assert(all.take(i + 1).drop_last() =~= all.take(i as int));
        }
        if i > 0 {
            r.append(sep);
        }
        r.append(words[i]);
        proof {
            assert(all.take(1) =~= seq![words@[0]@]);
        }
        i = i + 1;
    }
    proof {
        assert(all.take(i as int) =~= all);
    }
    r
}

/// Texts, as text.
pub open spec fn strings_view(strings: Seq<String>) -> Seq<Seq<char>> {
    strings.map_values(|text: String| text@)
}

/// The texts joined with a separator.
pub fn join_strings(items: &[String], sep: &str) -> (r: String)
    ensures
        r@ == joined(strings_view(items@), sep@),
{
    let ghost all = strings_view(items@);
    let mut r = String::new();
    let mut i: usize = 0;
    while i < items.len()
        invariant
            i <= items.len(),
            all == strings_view(items@),
            r@ == joined(all.take(i as int), sep@),
        decreases items.len() - i,
    {
        proof {
            assert(all.take(i + 1).drop_last() =~= all.take(i as int));
            assert(all.take(1) =~= seq![items@[0]@]);
        }
        if i > 0 {
            r.append(sep);
        }
        r.append(items[i].as_str());
        i = i + 1;
    }
    proof {
        assert(all.take(i as int) =~= all);
    }
    r
}

/// The non-empty runs of a text between `sep`s, in order, each borrowed from the text.
pub fn split_nonempty<'a>(text: &'a str, sep: char) -> (r: Vec<&'a str>)
    ensures
        words_seq(r@) == pieces(text@, sep),
{
    let ghost whole = text@;
    let n = text.unicode_len();
    let mut r: Vec<&'a str> = Vec::new();
    let mut start: usize = 0;
    let mut i: usize = 0;
    while i < n
        invariant
            n == whole.len(),
            whole == text@,
            start <= i <= n,
            trailing_piece(whole.take(i as int), sep) == whole.subrange(start as int, i as int),
            words_seq(r@) == closed_pieces(whole.take(i as int), sep),
        decreases n - i,
    {
        let c = text.get_char(i);
        proof {
            assert(whole.take(i + 1).drop_last() =~= whole.take(i as int));
            assert(whole.take(i + 1).last() == c);
        }
        if c == sep {
            if start < i {
                let piece = text.substring_char(start, i);
                let ghost before = r@;
                r.push(piece);
                proof {
                    assert(r@ == before.push(piece));
                    assert(words_seq(r@) =~= closed_pieces(whole.take(i + 1), sep));
                }
            } else {
                proof {
                    assert(words_seq(r@) =~= closed_pieces(whole.take(i + 1), sep));
                }
            }
            start = i + 1;
            proof {
                assert(whole.subrange(start as int, i + 1) =~= Seq::<char>::empty());
            }
        } else {
            proof {
                assert(whole.subrange(start as int, i + 1) =~= whole.subrange(
                    start as int,
                    i as int,
                ).push(c));
            }
        }
        i = i + 1;
    }
    proof {
        assert(whole.take(n as int) =~= whole);
    }
    if start < n {
        let piece = text.substring_char(start, n);
        let ghost before = r@;
        r.push(piece);
        proof {
            assert(r@ == before.push(piece));
            assert(words_seq(r@) =~= pieces(whole, sep));
        }
    } else {
        proof {
            assert(words_seq(r@) =~= pieces(whole, sep));
        }
    }
    r
}

/// The decimal digits of a number.
pub open spec fn decimal(n: nat) -> Seq<char>
    decreases n,
{
    if n < 10 {
        seq![digit_char(n)]
    } else {
        decimal(n / 10).push(digit_char(n % 10))
    }
}

/// The character of one decimal digit.
pub open spec fn digit_char(d: nat) -> char {
    if d == 0 {
        '0'
    } else if d == 1 {
        '1'
    } else if d == 2 {
        '2'
    } else if d == 3 {
        '3'
    } else if d == 4 {
        '4'
    } else if d == 5 {
        '5'
    } else if d == 6 {
        '6'
    } else if d == 7 {
        '7'
    } else if d == 8 {
        '8'
    } else {
        '9'
    }
}

/// Writes one decimal digit.
fn digit_text(d: u64) -> (r: &'static str)
    requires
        d < 10,
    ensures
        r@ == seq![digit_char(d as nat)],
{
    proof {
        reveal_strlit("0");
        reveal_strlit("1");
        reveal_strlit("2");
        reveal_strlit("3");
        reveal_strlit("4");
        reveal_strlit("5");
        reveal_strlit("6");
        reveal_strlit("7");
        reveal_strlit("8");
        reveal_strlit("9");
    }
    if d == 0 {
        "0"
    } else if d == 1 {
        "1"
    } else if d == 2 {
        "2"
    } else if d == 3 {
        "3"
    } else if d == 4 {
        "4"
    } else if d == 5 {
        "5"
    } else if d == 6 {
        "6"
    } else if d == 7 {
        "7"
    } else if d == 8 {
        "8"
    } else {
        "9"
    }
}

/// Writes a number's decimal digits after a text.
pub fn append_decimal(r: &mut String, n: u64)
    ensures
        final(r)@ == old(r)@ + decimal(n as nat),
    decreases n,
{
    if n < 10 {
        r.append(digit_text(n));
    } else {
        append_decimal(r, n / 10);
        r.append(digit_text(n % 10));
        proof {
            assert(final(r)@ =~= old(r)@ + decimal(n as nat));
        }
    }
}

/// Whether a text holds another one somewhere.
pub open spec fn holds_text_spec(text: Seq<char>, pattern: Seq<char>) -> bool {
    exists|at: int| 0 <= at && at + pattern.len() <= text.len() && #[trigger] text.subrange(at, at + pattern.len()) == pattern
}

/// Whether a text holds another one somewhere.
pub fn holds_text(text: &str, pattern: &str) -> (r: bool)
    ensures
        r == holds_text_spec(text@, pattern@),
{
    let n = text.unicode_len();
    let k = pattern.unicode_len();
    if k > n {
        proof {
            assert forall|at: int| 0 <= at && at + k <= n implies #[trigger] text@.subrange(
                at,
                at + pattern@.len(),
            ) != pattern@ by {}
        }
        return false;
    }
    if k == 0 {
        proof {
            assert(text@.subrange(0int, 0int + pattern@.len()) =~= pattern@);
        }
        return true;
    }
    let wanted = String::from_str(pattern);
    let mut at: usize = 0;
    while at <= n - k
        invariant
            1 <= k <= n,
            at <= n - k + 1,
            n == text@.len(),
            k == pattern@.len(),
            wanted@ == pattern@,
            forall|before: int|
                0 <= before < at ==> #[trigger] text@.subrange(before, before + pattern@.len())
                    != pattern@,
        decreases n - at,
    {
        let here = String::from_str(text.substring_char(at, at + k));
        if here == wanted {
            proof {
                assert(text@.subrange(at as int, at + pattern@.len()) == pattern@);
            }
            return true;
        }
        at = at + 1;
    }
    false
}

/// Appending characters that hold no `sep` extends the trailing piece and closes none.
proof fn lemma_append_plain(text: Seq<char>, word: Seq<char>, sep: char)
    requires
        !word.contains(sep),
    ensures
        trailing_piece(text + word, sep) == trailing_piece(text, sep) + word,
        closed_pieces(text + word, sep) == closed_pieces(text, sep),
    decreases word.len(),
{
    if word.len() == 0 {
        assert(text + word =~= text);
        assert(trailing_piece(text, sep) + word =~= trailing_piece(text, sep));
    } else {
        let shorter = word.drop_last();
        assert(!shorter.contains(sep)) by {
            if shorter.contains(sep) {
                let k = choose|k: int| 0 <= k < shorter.len() && shorter[k] == sep;
                assert(word[k] == sep);
            }
        }
        lemma_append_plain(text, shorter, sep);
        assert((text + word).drop_last() =~= text + shorter);
        assert(word.last() == word[word.len() - 1]);
        assert((text + word).last() == word.last());
        assert(trailing_piece(text, sep) + word =~= (trailing_piece(text, sep) + shorter).push(
            word.last(),
        ));
    }
}

proof fn lemma_trailing_piece_plain(text: Seq<char>, sep: char)
    ensures
        !trailing_piece(text, sep).contains(sep),
    decreases text.len(),
{
    if text.len() > 0 && text.last() != sep {
        lemma_trailing_piece_plain(text.drop_last(), sep);
        let t = trailing_piece(text.drop_last(), sep);
        assert forall|k: int| 0 <= k < t.push(text.last()).len() implies t.push(text.last())[k]
            != sep by {
            if k < t.len() {
                assert(!t.contains(sep));
                assert(t.push(text.last())[k] == t[k]);
            }
        }
    }
}

proof fn lemma_closed_pieces_plain(text: Seq<char>, sep: char)
    ensures
        forall|k: int|
            0 <= k < closed_pieces(text, sep).len() ==> #[trigger] closed_pieces(text, sep)[k].len()
                > 0 && !closed_pieces(text, sep)[k].contains(sep),
    decreases text.len(),
{
    if text.len() > 0 {
        let before = text.drop_last();
        lemma_closed_pieces_plain(before, sep);
        lemma_trailing_piece_plain(before, sep);
        let prev = closed_pieces(before, sep);
        let t = trailing_piece(before, sep);
        if text.last() == sep && t.len() > 0 {
            assert forall|k: int| 0 <= k < prev.push(t).len() implies #[trigger] prev.push(t)[k].len()
                > 0 && !prev.push(t)[k].contains(sep) by {
                if k < prev.len() {
                    assert(prev.push(t)[k] == prev[k]);
                }
            }
        }
    }
}

/// Every piece read out of a text is non-empty and holds no separator.
pub proof fn law_pieces_are_plain(text: Seq<char>, sep: char)
    ensures
        forall|k: int|
            0 <= k < pieces(text, sep).len() ==> #[trigger] pieces(text, sep)[k].len() > 0
                && !pieces(text, sep)[k].contains(sep),
{
    lemma_closed_pieces_plain(text, sep);
    lemma_trailing_piece_plain(text, sep);
}

/// Reading the pieces back out of words joined with a separator gives the words again, whenever
/// each word is non-empty and holds no separator.
pub proof fn law_pieces_of_joined(words: Seq<Seq<char>>, sep: char)
    requires
        forall|k: int| 0 <= k < words.len() ==> #[trigger] words[k].len() > 0 && !words[k].contains(sep),
    ensures
        pieces(joined(words, seq![sep]), sep) == words,
    decreases words.len(),
{
    if words.len() == 0 {
        assert(pieces(Seq::empty(), sep) =~= words);
    } else if words.len() == 1 {
        lemma_append_plain(Seq::empty(), words[0], sep);
        assert(Seq::<char>::empty() + words[0] =~= words[0]);
        assert(pieces(words[0], sep) =~= seq![words[0]]);
        assert(words =~= seq![words[0]]);
    } else {
        let shorter = words.drop_last();
        assert forall|k: int| 0 <= k < shorter.len() implies #[trigger] shorter[k].len() > 0
            && !shorter[k].contains(sep) by {
            assert(shorter[k] == words[k]);
        }
        law_pieces_of_joined(shorter, sep);
        let head = joined(shorter, seq![sep]);
        let closed = head + seq![sep];
        assert(closed.drop_last() =~= head);
        assert(closed.last() == sep);
        assert(trailing_piece(closed, sep) == Seq::<char>::empty());
        assert(closed_pieces(closed, sep) == pieces(head, sep));
        let last = words.last();
        assert(last == words[words.len() - 1]);
        lemma_append_plain(closed, last, sep);
        assert(trailing_piece(closed + last, sep) =~= last);
        assert(words =~= shorter.push(last));
    }
}

/// Whether a text is pieces joined by single separators: it neither starts nor ends with `sep`,
/// and no two `sep`s stand side by side.
pub open spec fn cleanly_separated(text: Seq<char>, sep: char) -> bool {
    text.len() > 0 ==> {
        &&& text[0] != sep
        &&& text.last() != sep
        &&& forall|i: int| 0 <= i < text.len() - 1 ==> !(#[trigger] text[i] == sep && text[i + 1] == sep)
    }
}

/// Adding a character to the last word adds it to what the words join to.
proof fn lemma_joined_extend_last(words: Seq<Seq<char>>, sep: Seq<char>, c: char)
    requires
        words.len() > 0,
    ensures
        joined(words.drop_last().push(words.last().push(c)), sep) == joined(words, sep).push(c),
{
    let longer = words.drop_last().push(words.last().push(c));
    assert(longer.drop_last() =~= words.drop_last());
    if words.len() > 1 {
        assert(joined(words.drop_last(), sep) + sep + words.last().push(c) =~= (joined(
            words.drop_last(),
            sep,
        ) + sep + words.last()).push(c));
    }
}

/// What the pieces of a text without a leading separator or two side by side join back to: the
/// text itself where it does not end with a separator, and the text without its last character,
/// which is the separator, otherwise.
proof fn lemma_pieces_rejoin(text: Seq<char>, sep: char)
    requires
        text.len() > 0,
        text[0] != sep,
        forall|i: int| 0 <= i < text.len() - 1 ==> !(#[trigger] text[i] == sep && text[i + 1] == sep),
    ensures
        text.last() != sep ==> trailing_piece(text, sep).len() > 0 && joined(pieces(text, sep), seq![sep])
            == text,
        text.last() == sep ==> trailing_piece(text, sep).len() == 0 && closed_pieces(text, sep).len() > 0
            && joined(closed_pieces(text, sep), seq![sep]) == text.drop_last(),
    decreases text.len(),
{
    let before = text.drop_last();
    let c = text.last();
    if before.len() > 0 {
        assert forall|i: int| 0 <= i < before.len() - 1 implies !(#[trigger] before[i] == sep
            && before[i + 1] == sep) by {
            assert(before[i] == text[i] && before[i + 1] == text[i + 1]);
        }
        assert(before[0] == text[0]);
        lemma_pieces_rejoin(before, sep);
    }
    if c != sep {
        if before.len() == 0 {
            assert(trailing_piece(before, sep) =~= Seq::<char>::empty());
            assert(closed_pieces(before, sep) =~= Seq::<Seq<char>>::empty());
            assert(trailing_piece(text, sep) =~= seq![c]);
            assert(pieces(text, sep) =~= seq![seq![c]]);
            assert(text =~= seq![c]);
        } else if before.last() != sep {
            let closed = closed_pieces(before, sep);
            let t = trailing_piece(before, sep);
            assert(pieces(before, sep) == closed.push(t));
            assert(pieces(text, sep) == closed.push(t.push(c)));
            lemma_joined_extend_last(closed.push(t), seq![sep], c);
            assert(closed.push(t).drop_last() =~= closed);
            assert(closed.push(t).last() == t);
            assert(text =~= before.push(c));
        } else {
            let closed = closed_pieces(before, sep);
            assert(before.len() >= 2);
            assert(trailing_piece(text, sep) =~= seq![c]);
            assert(pieces(text, sep) == closed.push(seq![c]));
            assert(closed.push(seq![c]).drop_last() =~= closed);
            assert(text =~= before.drop_last() + seq![sep] + seq![c]);
        }
    } else {
        assert(before.len() > 0);
        assert(before.last() != sep) by {
            assert(text[text.len() - 2] == before.last());
            assert(text[text.len() - 1] == sep);
        }
        assert(closed_pieces(text, sep) == pieces(before, sep));
    }
}

/// Words that are non-empty and hold no separator join to a text that is cleanly separated.
proof fn lemma_joined_clean(words: Seq<Seq<char>>, sep: char)
    requires
        forall|k: int| 0 <= k < words.len() ==> #[trigger] words[k].len() > 0 && !words[k].contains(sep),
    ensures
        cleanly_separated(joined(words, seq![sep]), sep),
        words.len() > 0 ==> joined(words, seq![sep]).len() > 0,
    decreases words.len(),
{
    if words.len() == 1 {
        assert(words[0].len() > 0);
        assert forall|i: int| 0 <= i < words[0].len() implies words[0][i] != sep by {
            if words[0][i] == sep {
                assert(words[0].contains(sep));
            }
        }
    } else if words.len() > 1 {
        let shorter = words.drop_last();
        assert forall|k: int| 0 <= k < shorter.len() implies #[trigger] shorter[k].len() > 0
            && !shorter[k].contains(sep) by {
            assert(shorter[k] == words[k]);
        }
        lemma_joined_clean(shorter, sep);
        let head = joined(shorter, seq![sep]);
        let last = words.last();
        assert(last == words[words.len() - 1]);
        let text = head + seq![sep] + last;
        assert(joined(words, seq![sep]) == text);
        assert forall|j: int| 0 <= j < last.len() implies last[j] != sep by {
            if last[j] == sep {
                assert(last.contains(sep));
            }
        }
        assert(text[0] == head[0]);
        assert(text.last() == last[last.len() - 1]);
        assert forall|i: int| 0 <= i < text.len() - 1 implies !(#[trigger] text[i] == sep && text[i + 1]
            == sep) by {
            if i + 1 < head.len() {
                assert(text[i] == head[i] && text[i + 1] == head[i + 1]);
            } else if i + 1 == head.len() {
                assert(text[i] == head.last());
            } else if i == head.len() {
                assert(text[i + 1] == last[0]);
            } else {
                assert(text[i] == last[i - head.len() - 1]);
            }
        }
    }
}

/// Joining the pieces read out of a text gives the text back exactly when the text is cleanly
/// separated: it neither starts nor ends with a separator and holds no two side by side.
pub proof fn law_pieces_rejoin_clean_text(text: Seq<char>, sep: char)
    ensures
        joined(pieces(text, sep), seq![sep]) == text <==> cleanly_separated(text, sep),
{
    if cleanly_separated(text, sep) {
        if text.len() == 0 {
            assert(pieces(text, sep) =~= Seq::<Seq<char>>::empty());
        } else {
            assert(text[0] != sep);
            assert(text.last() != sep);
            lemma_pieces_rejoin(text, sep);
            assert(joined(pieces(text, sep), seq![sep]) == text);
        }
    }
    law_pieces_are_plain(text, sep);
    lemma_joined_clean(pieces(text, sep), sep);
    if joined(pieces(text, sep), seq![sep]) == text {
        assert(cleanly_separated(text, sep));
    }
    if cleanly_separated(text, sep) {
        assert(joined(pieces(text, sep), seq![sep]) == text);
    }
}

} // verus!

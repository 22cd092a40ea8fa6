//! The fields of a text: what stands between its blanks.

use vstd::prelude::*;
use vstd::string::*;

verus! {

/// Whether `c` is a blank: one of the characters that Unicode counts as
/// white space, among them the space, the tab and the ends of line.
pub open spec fn is_blank(c: char) -> bool {
    ||| c == ' '
    ||| '\u{9}' <= c <= '\u{d}'
    ||| c == '\u{85}'
    ||| c == '\u{a0}'
    ||| c == '\u{1680}'
    ||| '\u{2000}' <= c <= '\u{200a}'
    ||| c == '\u{2028}'
    ||| c == '\u{2029}'
    ||| c == '\u{202f}'
    ||| c == '\u{205f}'
    ||| c == '\u{3000}'
}

/// How many characters stand at the start of `text` before its first blank.
pub open spec fn word_len(text: Seq<char>) -> nat
    decreases text.len(),
{
    if text.len() == 0 || is_blank(text[0]) {
        0
    } else {
        1 + word_len(text.skip(1))
    }
}

/// The fields of `text`, in order: its longest runs of characters that are
/// not blanks. Blanks only part the fields, however many stand together, at
/// the start or at the end.
pub open spec fn fields_of(text: Seq<char>) -> Seq<Seq<char>>
    decreases text.len(),
    via fields_of_decreases
{
    if text.len() == 0 {
        Seq::empty()
    } else if is_blank(text[0]) {
        fields_of(text.skip(1))
    } else {
        seq![text.take(word_len(text) as int)] + fields_of(text.skip(word_len(text) as int))
    }
}

#[via_fn]
proof fn fields_of_decreases(text: Seq<char>) {
    lemma_word_len(text);
}

/// What each of `fields` holds.
pub open spec fn texts(fields: Seq<&str>) -> Seq<Seq<char>> {
    Seq::new(fields.len(), |k: int| fields[k]@)
}

/// Tells whether `c` is a blank.
pub fn blank(c: char) -> (b: bool)
    ensures
        b == is_blank(c),
{
    c == ' ' || ('\u{9}' <= c && c <= '\u{d}') || c == '\u{85}' || c == '\u{a0}' || c == '\u{1680}'
        || ('\u{2000}' <= c && c <= '\u{200a}') || c == '\u{2028}' || c == '\u{2029}' || c
        == '\u{202f}' || c == '\u{205f}' || c == '\u{3000}'
}

/// The character of `text` at `index`. Where the text is known to be ASCII
/// this takes one step, and otherwise as many as there are characters
/// before it.
fn char_at(text: &str, ascii: bool, index: usize) -> (c: char)
    requires
        ascii ==> is_ascii(text),
        index < text@.len(),
    ensures
        c == text@[index as int],
{
    if ascii {
        text.get_ascii(index) as char
    } else {
        text.get_char(index)
    }
}

/// A word is no longer than its text, and no blank stands in it.
pub proof fn lemma_word_len(text: Seq<char>)
    ensures
        word_len(text) <= text.len(),
        forall|k: int| 0 <= k < word_len(text) ==> !is_blank(#[trigger] text[k]),
        word_len(text) < text.len() ==> is_blank(text[word_len(text) as int]),
    decreases text.len(),
{
    if text.len() > 0 && !is_blank(text[0]) {
        let rest = text.skip(1);
        lemma_word_len(rest);
        assert forall|k: int| 0 <= k < word_len(text) implies !is_blank(#[trigger] text[k]) by {
            if k > 0 {
                assert(text[k] == rest[k - 1]);
            }
        }
        if word_len(text) < text.len() {
            assert(text[word_len(text) as int] == rest[word_len(rest) as int]);
        }
    }
}

/// A run without blanks that ends at a blank, or at the end of the text, is
/// the word at the start of the text.
pub proof fn lemma_word_len_is(text: Seq<char>, len: int)
    requires
        0 <= len <= text.len(),
        forall|k: int| 0 <= k < len ==> !is_blank(#[trigger] text[k]),
        len < text.len() ==> is_blank(text[len]),
    ensures
        word_len(text) == len,
    decreases len,
{
    if len > 0 {
        let rest = text.skip(1);
        assert forall|k: int| 0 <= k < len - 1 implies !is_blank(#[trigger] rest[k]) by {
            assert(rest[k] == text[k + 1]);
        }
        if len - 1 < rest.len() {
            assert(rest[len - 1] == text[len]);
        }
        lemma_word_len_is(rest, len - 1);
    }
}

/// No field is empty, and no blank stands in a field.
pub proof fn lemma_fields_hold_no_blank(text: Seq<char>)
    ensures
        forall|f: int, k: int|
            0 <= f < fields_of(text).len() && 0 <= k < fields_of(text)[f].len() ==> !is_blank(
                #[trigger] fields_of(text)[f][k],
            ),
        forall|f: int| 0 <= f < fields_of(text).len() ==> (#[trigger] fields_of(text)[f]).len() > 0,
    decreases text.len(),
{
    if text.len() == 0 {
        assert(fields_of(text).len() == 0);
    } else if is_blank(text[0]) {
        lemma_fields_hold_no_blank(text.skip(1));
        assert(fields_of(text) == fields_of(text.skip(1)));
    } else {
        let len = word_len(text) as int;
        lemma_word_len(text);
        lemma_fields_hold_no_blank(text.skip(len));
        let first = text.take(len);
        let rest = fields_of(text.skip(len));
        let all = fields_of(text);
        assert(all == seq![first] + rest);
        assert forall|f: int, k: int| 0 <= f < all.len() && 0 <= k < all[f].len() implies !is_blank(
            #[trigger] all[f][k],
        ) by {
            if f == 0 {
                assert(all[0] == first);
                assert(first[k] == text[k]);
            } else {
                assert(all[f] == rest[f - 1]);
            }
        }
        assert forall|f: int| 0 <= f < all.len() implies (#[trigger] all[f]).len() > 0 by {
            if f == 0 {
                assert(all[0] == first);
            } else {
                assert(all[f] == rest[f - 1]);
            }
        }
    }
}

/// Splits `text` into its fields.
///
/// Returns, in order, the longest runs of characters of `text` that are not
/// blanks. A text of blanks only has no field.
pub fn fields(text: &str) -> (result: Vec<&str>)
    ensures
        texts(result@) == fields_of(text@),
{
    let ascii: bool = text.is_ascii();
    let len: usize = if ascii {
        proof {
            is_ascii_spec_bytes(text);
        }
        text.as_bytes().len()
    } else {
        text.unicode_len()
    };
    let mut result: Vec<&str> = Vec::new();
    let mut at: usize = 0;
    assert(text@.skip(0) =~= text@);
    assert(texts(result@) + fields_of(text@) =~= fields_of(text@));
    while at < len
        invariant
            ascii ==> is_ascii(text),
            len == text@.len(),
            at <= len,
            fields_of(text@) == texts(result@) + fields_of(text@.skip(at as int)),
        decreases len - at,
    {
        let ghost rest = text@.skip(at as int);
        assert(rest[0] == text@[at as int]);
        if blank(char_at(text, ascii, at)) {
            assert(rest.skip(1) =~= text@.skip(at + 1));
            at = at + 1;
        } else {
            let start: usize = at;
            at = at + 1;
            let mut inside: bool = true;
            while inside
                invariant
                    ascii ==> is_ascii(text),
                    len == text@.len(),
                    start < at <= len,
                    forall|k: int| start <= k < at ==> !is_blank(#[trigger] text@[k]),
                    !inside ==> at == len || is_blank(text@[at as int]),
                decreases
                        len - at + if inside {
                            1int
                        } else {
                            0int
                        },
            {
                if at < len && !blank(char_at(text, ascii, at)) {
                    at = at + 1;
                } else {
                    inside = false;
                }
            }
            let field: &str = if ascii {
                text.substring_ascii(start, at)
            } else {
                text.substring_char(start, at)
            };
            proof {
                let run = at - start;
                assert forall|k: int| 0 <= k < run implies !is_blank(#[trigger] rest[k]) by {
                    assert(rest[k] == text@[start + k]);
                }
                if run < rest.len() {
                    assert(rest[run] == text@[at as int]);
                }
                lemma_word_len_is(rest, run);
                assert(rest.take(run) =~= text@.subrange(start as int, at as int));
                assert(rest.skip(run) =~= text@.skip(at as int));
                assert(texts(result@.push(field)) =~= texts(result@) + seq![field@]);
            }
            result.push(field);
        }
    }
    assert(text@.skip(at as int) =~= Seq::<char>::empty());
    assert(texts(result@) + Seq::<Seq<char>>::empty() =~= texts(result@));
    result
}

} // verus!

//! Mentions in message text. A mention is written `<@` and a user
//! identifier; identifiers are eleven bytes wide, so the scan works on byte
//! offsets and takes a span of fixed width after each marker.

use vstd::prelude::*;
use vstd::string::StringSliceAdditionalSpecFns;
use crate::ids::{insert_all_sorted, names, strictly_sorted};
use crate::text::{lemma_same_bytes_same_chars, utf8};
use vstd::utf8::{
    encode_utf8_valid_utf8, is_char_boundary, is_char_boundary_iff_not_is_continuation_byte,
    is_char_boundary_start_end_of_seq, is_continuation_byte, valid_utf8,
};

verus! {

pub const OPEN: u8 = 60;

pub const AT: u8 = 64;

pub const CLOSE: u8 = 62;

/// Bytes in a user identifier.
pub const ID_WIDTH: usize = 11;

/// A character starts at offset `i` of `text`, or `text` ends there.
pub open spec fn starts_char(text: Seq<u8>, i: int) -> bool {
    i == text.len() || (0 <= i < text.len() && !is_continuation_byte(text[i]))
}

/// The two bytes of the marker stand at offset `s`.
pub open spec fn marker_at(text: Seq<u8>, s: int) -> bool {
    0 <= s && s + 1 < text.len() && text[s] == OPEN && text[s + 1] == AT
}

/// A mention is marked at offset `s`: the marker stands there, the span of
/// an identifier after it ends inside the text, on the end of a character,
/// and its last byte is not the closing bracket.
pub open spec fn marks_mention(text: Seq<u8>, s: int) -> bool {
    &&& marker_at(text, s)
    &&& s + ID_WIDTH + 1 < text.len()
    &&& text[s + ID_WIDTH + 1] != CLOSE
    &&& starts_char(text, s + ID_WIDTH + 2)
}

/// The identifier of the mention marked at offset `s`.
pub open spec fn mention_span(text: Seq<u8>, s: int) -> Seq<u8> {
    text.subrange(s + 2, s + ID_WIDTH + 2)
}

/// The identifiers of the mentions marked below offset `upto`, in the order
/// of their markers.
pub open spec fn mentions_below(text: Seq<u8>, upto: int) -> Seq<Seq<u8>>
    decreases upto,
{
    if upto <= 0 {
        Seq::empty()
    } else if marks_mention(text, upto - 1) {
        mentions_below(text, upto - 1).push(mention_span(text, upto - 1))
    } else {
        mentions_below(text, upto - 1)
    }
}

/// Every identifier mentioned in `text`, in the order of the markers.
pub open spec fn mentions(text: Seq<u8>) -> Seq<Seq<u8>> {
    mentions_below(text, text.len() as int)
}

/// The identifiers that `text` mentions.
pub open spec fn mentioned(text: Seq<char>) -> Set<Seq<char>> {
    Set::new(|name: Seq<char>| mentions(utf8(text)).contains(utf8(name)))
}

/// The UTF-8 bytes of each string.
pub open spec fn bytes_of(ids: Seq<String>) -> Seq<Seq<u8>> {
    Seq::new(ids.len(), |i: int| utf8(ids[i]@))
}

/// A mention marked at `s` is among those found below any later offset.
pub proof fn lemma_marked_is_found(text: Seq<u8>, s: int, upto: int)
    requires
        marks_mention(text, s),
        s < upto,
    ensures
        mentions_below(text, upto).contains(mention_span(text, s)),
    decreases upto,
{
    let found = mentions_below(text, upto);
    if s == upto - 1 {
        assert(found.last() == mention_span(text, s));
    } else {
        lemma_marked_is_found(text, s, upto - 1);
        let before = mentions_below(text, upto - 1);
        let k = choose|k: int| 0 <= k < before.len() && before[k] == mention_span(text, s);
        assert(found[k] == mention_span(text, s));
    }
}

/// Whatever is found was marked.
pub proof fn lemma_found_is_marked(text: Seq<u8>, upto: int, k: int)
    requires
        0 <= k < mentions_below(text, upto).len(),
    ensures
        exists|s: int|
            0 <= s < upto && marks_mention(text, s) && mentions_below(text, upto)[k]
                == mention_span(text, s),
    decreases upto,
{
    if upto > 0 {
        let before = mentions_below(text, upto - 1);
        if k < before.len() {
            lemma_found_is_marked(text, upto - 1, k);
            let s = choose|s: int|
                0 <= s < upto - 1 && marks_mention(text, s) && before[k] == mention_span(text, s);
            assert(0 <= s < upto && marks_mention(text, s) && mentions_below(text, upto)[k]
                == mention_span(text, s));
        } else {
            assert(marks_mention(text, upto - 1));
            assert(mentions_below(text, upto)[k] == mention_span(text, upto - 1));
        }
    }
}

/// A span of identifier width after a marker, not ending in the closing
/// bracket and ending with a whole character, is reported as a mention.
pub proof fn lemma_mention_is_extracted(text: Seq<u8>, s: int)
    requires
        marks_mention(text, s),
    ensures
        mentions(text).contains(mention_span(text, s)),
{
    lemma_marked_is_found(text, s, text.len() as int);
}

/// In valid text a character starts behind every byte that is a character
/// by itself.
pub proof fn lemma_boundary_after_single(bytes: Seq<u8>, i: int)
    requires
        valid_utf8(bytes),
        0 <= i < bytes.len(),
        bytes[i] < 0x80,
        is_char_boundary(bytes, i),
    ensures
        is_char_boundary(bytes, i + 1),
    decreases bytes.len(),
{
    reveal_with_fuel(is_char_boundary, 2);
    reveal_with_fuel(valid_utf8, 2);
    if i > 0 {
        let width = vstd::utf8::length_of_first_scalar(bytes);
        let rest = vstd::utf8::pop_first_scalar(bytes);
        assert(is_char_boundary(rest, i - width));
        assert(rest[i - width] == bytes[i]);
        lemma_boundary_after_single(rest, i - width);
    }
}

/// A span of identifier width after a marker whose last byte is a plain
/// character other than the closing bracket is reported as a mention,
/// whatever the text holds elsewhere.
pub proof fn lemma_plain_mention_is_extracted(text: Seq<char>, s: int)
    requires
        marker_at(utf8(text), s),
        s + ID_WIDTH + 1 < utf8(text).len(),
        utf8(text)[s + ID_WIDTH + 1] != CLOSE,
        utf8(text)[s + ID_WIDTH + 1] < 0x80,
    ensures
        mentions(utf8(text)).contains(mention_span(utf8(text), s)),
{
    let bytes = utf8(text);
    let last = s + ID_WIDTH + 1;
    encode_utf8_valid_utf8(text);
    is_char_boundary_iff_not_is_continuation_byte(bytes, last);
    lemma_boundary_after_single(bytes, last);
    if last + 1 < bytes.len() {
        is_char_boundary_iff_not_is_continuation_byte(bytes, last + 1);
    }
    lemma_mention_is_extracted(bytes, s);
}

/// Text without a marker mentions nobody.
pub proof fn lemma_no_marker_no_mention(text: Seq<u8>)
    requires
        forall|s: int| !marker_at(text, s),
    ensures
        mentions(text) == Seq::<Seq<u8>>::empty(),
{
    if mentions(text).len() > 0 {
        lemma_found_is_marked(text, text.len() as int, 0);
    }
    assert(mentions(text) =~= Seq::<Seq<u8>>::empty());
}

/// The identifiers mentioned in `text`, one for each marker that is followed
/// by a span of identifier width, in the order of the markers. A marker too
/// close to the end, one whose span ends in the closing bracket, and one
/// whose span would cut a character in two give none.
pub fn scan(text: &str) -> (ids: Vec<String>)
    ensures
        bytes_of(ids@) == mentions(text.spec_bytes()),
{
    let bytes = text.as_bytes();
    let n = bytes.len();
    let mut ids: Vec<String> = Vec::new();
    let mut s: usize = 0;
    proof {
        encode_utf8_valid_utf8(text@);
        assert(bytes_of(ids@) =~= mentions_below(bytes@, 0));
    }
    while s < n
        invariant
            s <= n,
            n == bytes@.len(),
            bytes@ == text.spec_bytes(),
            valid_utf8(bytes@),
            bytes_of(ids@) == mentions_below(bytes@, s as int),
        decreases n - s,
    {
        let ghost before = ids@;
        if n - s > ID_WIDTH + 1 && bytes[s] == OPEN && bytes[s + 1] == AT && bytes[s + ID_WIDTH
            + 1] != CLOSE {
            proof {
                is_char_boundary_iff_not_is_continuation_byte(bytes@, s + 1);
            }
            let (_, rest) = text.split_at(s + 1);
            proof {
                encode_utf8_valid_utf8(rest@);
                reveal_with_fuel(is_char_boundary, 2);
                assert(rest.spec_bytes()[0] == AT);
            }
            let (_, tail) = rest.split_at(1);
            proof {
                encode_utf8_valid_utf8(tail@);
                assert(tail.spec_bytes() =~= bytes@.subrange(s + 2, n as int));
                if ID_WIDTH < tail.spec_bytes().len() {
                    is_char_boundary_iff_not_is_continuation_byte(
                        tail.spec_bytes(),
                        ID_WIDTH as int,
                    );
                    assert(tail.spec_bytes()[ID_WIDTH as int] == bytes@[s + ID_WIDTH + 2]);
                } else {
                    is_char_boundary_start_end_of_seq(tail.spec_bytes());
                }
                assert(is_char_boundary(tail.spec_bytes(), ID_WIDTH as int) == starts_char(
                    bytes@,
                    s + ID_WIDTH + 2,
                ));
            }
            if tail.is_char_boundary(ID_WIDTH) {
                let (id, _) = tail.split_at(ID_WIDTH);
                ids.push(id.to_owned());
                proof {
                    assert(marks_mention(bytes@, s as int));
                    assert(id.spec_bytes() =~= mention_span(bytes@, s as int));
                    assert(bytes_of(ids@) =~= bytes_of(before).push(mention_span(bytes@, s as int)));
                }
            } else {
                proof {
                    assert(!marks_mention(bytes@, s as int));
                }
            }
        } else {
            proof {
                assert(!marks_mention(bytes@, s as int));
            }
        }
        s += 1;
    }
    ids
}

/// The identifier behind a marker is among those the text mentions, where
/// its span ends with a whole character and not in the closing bracket.
pub proof fn lemma_marked_is_mentioned(text: Seq<char>, s: int, name: Seq<char>)
    requires
        marks_mention(utf8(text), s),
        utf8(name) == mention_span(utf8(text), s),
    ensures
        mentioned(text).contains(name),
{
    lemma_mention_is_extracted(utf8(text), s);
}

/// Text without a marker mentions nobody.
pub proof fn lemma_no_marker_nobody_mentioned(text: Seq<char>)
    requires
        forall|s: int| !marker_at(utf8(text), s),
    ensures
        mentioned(text) == Set::<Seq<char>>::empty(),
{
    lemma_no_marker_no_mention(utf8(text));
    assert(mentioned(text) =~= Set::<Seq<char>>::empty());
}

/// The strings cut out of a text name exactly those it mentions.
pub proof fn lemma_found_names(found: Seq<String>, text: Seq<char>)
    requires
        bytes_of(found) == mentions(utf8(text)),
    ensures
        names(found) == mentioned(text),
{
    assert forall|name: Seq<char>| names(found).contains(name) implies mentioned(text).contains(
        name,
    ) by {
        let i = choose|i: int| 0 <= i < found.len() && #[trigger] found[i]@ == name;
        assert(bytes_of(found)[i] == utf8(name));
    }
    assert forall|name: Seq<char>| mentioned(text).contains(name) implies names(found).contains(
        name,
    ) by {
        let i = choose|i: int| 0 <= i < bytes_of(found).len() && bytes_of(found)[i] == utf8(name);
        lemma_same_bytes_same_chars(found[i]@, name);
    }
    assert(names(found) =~= mentioned(text));
}

/// The set of identifiers that `text` mentions: sorted, each once.
pub fn extract(text: &str) -> (ids: Vec<String>)
    ensures
        strictly_sorted(ids@),
        names(ids@) == mentioned(text@),
{
    let found = scan(text);
    let mut ids: Vec<String> = Vec::new();
    proof {
        lemma_found_names(found@, text@);
        assert(names(ids@) =~= Set::<Seq<char>>::empty());
        assert(Set::<Seq<char>>::empty().union(names(found@)) =~= names(found@));
    }
    insert_all_sorted(&mut ids, &found);
    ids
}

} // verus!

//! Text: what bytes spell, and where a text is cut.

use vstd::prelude::*;
use vstd::string::*;

verus! {

/// What the debug form of `std::str::Utf8Error` says of bytes that are not UTF-8.
pub uninterp spec fn utf8_complaint(bytes: Seq<u8>) -> Seq<char>;

/// Calls `std::str::from_utf8`. Claimed: it gives the text whose UTF-8 encoding
/// the bytes are, if there is one, and otherwise an error whose debug form
/// depends on the bytes alone.
#[verifier::external_body]
pub(crate) fn read_utf8(bytes: &[u8]) -> (text: Result<&str, String>)
    ensures
        match text {
            Ok(found) => vstd::utf8::valid_utf8(bytes@) && found@ == vstd::utf8::decode_utf8(
                bytes@,
            ),
            Err(complaint) => !vstd::utf8::valid_utf8(bytes@) && complaint@ == utf8_complaint(
                bytes@,
            ),
        },
{
    std::str::from_utf8(bytes).map_err(|error| format!("{error:?}"))
}

/// Whether two texts are the same.
pub fn same_text(a: &str, b: &str) -> (yes: bool)
    ensures
        yes == (a@ == b@),
{
    a.to_owned() == b.to_owned()
}

/// Where `mark` first stands in a text; the text's length where it does not.
pub open spec fn cut(text: Seq<char>, mark: char) -> nat
    decreases text.len(),
{
    if text.len() == 0 || text[0] == mark {
        0
    } else {
        1 + cut(text.drop_first(), mark)
    }
}

/// What stands before the first `mark`: the whole text where there is none.
pub open spec fn before_mark(text: Seq<char>, mark: char) -> Seq<char> {
    text.take(cut(text, mark) as int)
}

/// What stands after the first `mark`: nothing where there is none.
pub open spec fn after_mark(text: Seq<char>, mark: char) -> Seq<char> {
    if cut(text, mark) < text.len() {
        text.skip(cut(text, mark) as int + 1)
    } else {
        Seq::empty()
    }
}

/// The place of the first mark is the one with a mark, or the end, behind it and
/// no mark before it.
pub proof fn lemma_cut(text: Seq<char>, mark: char, place: nat)
    requires
        place <= text.len(),
        forall|i: int| 0 <= i < place ==> #[trigger] text[i] != mark,
        place < text.len() ==> text[place as int] == mark,
    ensures
        cut(text, mark) == place,
    decreases text.len(),
{
    if place > 0 {
        let rest = text.drop_first();
        assert(text[0] != mark);
        assert forall|i: int| 0 <= i < place - 1 implies #[trigger] rest[i] != mark by {
            assert(rest[i] == text[i + 1]);
        }
        lemma_cut(rest, mark, (place - 1) as nat);
    }
}

/// Cuts a text in two at the first `mark`.
pub fn split_at_mark(text: &str, mark: char) -> (halves: (&str, &str))
    ensures
        halves.0@ == before_mark(text@, mark),
        halves.1@ == after_mark(text@, mark),
{
    let length: usize = text.unicode_len();
    let mut place: usize = 0;
    while place < length && text.get_char(place) != mark
        invariant
            place <= length,
            length == text@.len(),
            forall|i: int| 0 <= i < place ==> #[trigger] text@[i] != mark,
        decreases length - place,
    {
        place = place + 1;
    }
    proof {
        lemma_cut(text@, mark, place as nat);
    }
    let head: &str = text.substring_char(0, place);
    if place < length {
        (head, text.substring_char(place + 1, length))
    } else {
        assert(text@.subrange(length as int, length as int) =~= Seq::empty());
        (head, text.substring_char(length, length))
    }
}

} // verus!

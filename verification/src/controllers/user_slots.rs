//! The parameters of a request for confirmable slots.

use vstd::prelude::*;
use vstd::string::*;

verus! {

/// The pieces of a text between its commas, in their order. A text without
/// a comma is one piece, the empty text too; a comma at either end has an
/// empty piece beside it.
pub open spec fn split_at_commas(text: Seq<char>) -> Seq<Seq<char>>
    decreases text.len(),
{
    if text.len() == 0 {
        seq![Seq::empty()]
    } else {
        let before = split_at_commas(text.drop_last());
        if text.last() == ',' {
            before.push(Seq::empty())
        } else {
            before.drop_last().push(before.last().push(text.last()))
        }
    }
}

/// What each of the strings holds.
pub open spec fn texts_of(strings: Seq<String>) -> Seq<Seq<char>> {
    Seq::new(strings.len(), |i: int| strings[i]@)
}

/// A text always splits into at least one piece.
pub proof fn lemma_split_is_never_empty(text: Seq<char>)
    ensures
        split_at_commas(text).len() >= 1,
    decreases text.len(),
{
}

/// The accounts of a request: the pieces of `accounts` between its commas.
pub fn split_accounts(accounts: &str) -> (pieces: Vec<String>)
    ensures
        texts_of(pieces@) == split_at_commas(accounts@),
{
    let mut pieces: Vec<String> = Vec::new();
    let len: usize = accounts.unicode_len();
    let mut start: usize = 0;
    let mut i: usize = 0;
    assert(accounts@.subrange(0, 0) == Seq::<char>::empty());
    while i < len
        invariant
            start <= i <= len,
            len == accounts@.len(),
            split_at_commas(accounts@.take(i as int)) == texts_of(pieces@).push(
                accounts@.subrange(start as int, i as int),
            ),
        decreases len - i,
    {
        let ghost before = split_at_commas(accounts@.take(i as int));
        assert(accounts@.take(i + 1).drop_last() == accounts@.take(i as int));
        if accounts.get_char(i) == ',' {
            pieces.push(String::from_str(accounts.substring_char(start, i)));
            start = i + 1;
            assert(accounts@.subrange(start as int, i + 1) == Seq::<char>::empty());
        } else {
            assert(accounts@.subrange(start as int, i + 1) == before.last().push(
                accounts@[i as int],
            ));
        }
        i = i + 1;
    }
    assert(accounts@.take(i as int) == accounts@);
    pieces.push(String::from_str(accounts.substring_char(start, i)));
    pieces
}

} // verus!

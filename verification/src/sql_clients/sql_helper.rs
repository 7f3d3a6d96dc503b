//! Building the text of a query.

use vstd::prelude::*;
use vstd::string::*;

verus! {

/// `count` question marks with a comma between each two: for 3, `?,?,?`.
pub open spec fn place_holder(count: nat) -> Seq<char>
    decreases count,
{
    if count == 0 {
        Seq::empty()
    } else if count == 1 {
        seq!['?']
    } else {
        place_holder((count - 1) as nat) + seq![',', '?']
    }
}

/// The placeholders of a query with `count` parameters.
pub fn create_place_holder(count: usize) -> (text: String)
    ensures
        text@ == place_holder(count as nat),
{
    let mut text = String::new();
    let mut i: usize = 0;
    proof {
        reveal_strlit("?");
        reveal_strlit(",?");
    }
    while i < count
        invariant
            i <= count,
            text@ == place_holder(i as nat),
            "?"@ == seq!['?'],
            ",?"@ == seq![',', '?'],
        decreases count - i,
    {
        if i == 0 {
            text.append("?");
        } else {
            text.append(",?");
        }
        i = i + 1;
    }
    text
}

} // verus!

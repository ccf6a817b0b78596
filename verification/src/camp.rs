//! **The camp and what it is called**: a camp until something stands, and a
//! settlement from the first building on.

use vstd::prelude::*;
use crate::lens::Lens;

verus! {

/// What the camp is called in a world.
pub open spec fn standing_words(any_standing: bool) -> Seq<char> {
    if any_standing { "a settlement"@ } else { "a camp"@ }
}

/// **What the camp is called right now** — the phasing arc's first beat,
/// said in the one place the player can cause it.
pub fn standing_as(lens: &Lens<'_>) -> (s: &'static str)
    ensures
        s@ == standing_words(lens.world().settlement.spec_any_standing()),
{
    proof {
        reveal_strlit("a settlement");
        reveal_strlit("a camp");
    }
    if lens.settlement().any_standing() {
        "a settlement"
    } else {
        "a camp"
    }
}

} // verus!

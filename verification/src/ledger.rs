//! **The ledger's second line**: when a posting was made, who has heard it,
//! and what anybody said — a formatting of the posting's own record, never a
//! second tally.

use vstd::prelude::*;
use crate::asks::{Answer, Posting, Who};
use crate::clock::{clock_stamp, stamp};
use crate::lens::{name_of, Lens};
use crate::sim::Sim;

verus! {

/// Phrases joined with a separator between each two.
pub open spec fn joined_with(parts: Seq<Seq<char>>, sep: Seq<char>) -> Seq<char>
    decreases parts.len(),
{
    if parts.len() == 0 {
        Seq::empty()
    } else if parts.len() == 1 {
        parts[0]
    } else {
        joined_with(parts.drop_last(), sep) + sep + parts.last()
    }
}

/// The names of everybody who has heard a posting, in the order they heard.
pub open spec fn heard_names(sim: Sim, heard: Seq<(usize, u64)>) -> Seq<Seq<char>> {
    heard.map_values(|h: (usize, u64)| name_of(sim, h.0))
}

/// What one answer on the record says.
pub open spec fn answer_words(sim: Sim, a: (usize, Answer)) -> Seq<char> {
    match a.1 {
        Answer::Agreed { .. } => name_of(sim, a.0) + " took it"@,
        Answer::Declined { reason } => name_of(sim, a.0) + " said no: "@ + reason@,
    }
}

/// **A posting's second line**: made at, then who has heard it, then what
/// anybody said — the record's own three columns, in the order they happen.
pub open spec fn answers_words(sim: Sim, p: Posting) -> Seq<char> {
    let made = clock_stamp(p.made_at);
    if p.heard@.len() == 0 {
        match p.who {
            Who::Anyone => made + " - unread; the camp reads the board as they think"@,
            Who::Person(who) => made + " - unheard; a messenger is carrying it to "@ + name_of(sim, who),
        }
    } else if p.answered@.len() == 0 {
        made + " - heard by "@ + joined_with(heard_names(sim, p.heard@), ", "@)
    } else {
        made + " - "@ + joined_with(p.answered@.map_values(|a: (usize, Answer)| answer_words(sim, a)), "; "@)
    }
}

fn heard_line(lens: &Lens<'_>, heard: &Vec<(usize, u64)>) -> (s: String)
    ensures
        s@ == joined_with(heard_names(lens.world(), heard@), ", "@),
{
    proof { reveal_strlit(", "); }
    let mut s = String::new();
    let n = heard.len();
    for i in 0..n
        invariant
            n == heard@.len(),
            s@ == joined_with(heard_names(lens.world(), heard@.take(i as int)), ", "@),
    {
        let ghost names = heard_names(lens.world(), heard@.take(i + 1));
        assert(heard_names(lens.world(), heard@.take(i + 1)).drop_last() =~= heard_names(lens.world(), heard@.take(i as int)));
        if i > 0 {
            s.append(", ");
        }
        s.append(lens.name(heard[i].0));
        assert(s@ =~= joined_with(names, ", "@));
    }
    assert(heard@.take(n as int) =~= heard@);
    s
}

fn said_line(lens: &Lens<'_>, answered: &Vec<(usize, Answer)>) -> (s: String)
    ensures
        s@ == joined_with(answered@.map_values(|a: (usize, Answer)| answer_words(lens.world(), a)), "; "@),
{
    proof {
        reveal_strlit("; ");
        reveal_strlit(" took it");
        reveal_strlit(" said no: ");
    }
    let ghost world = lens.world();
    let mut s = String::new();
    let n = answered.len();
    for i in 0..n
        invariant
            n == answered@.len(),
            world == lens.world(),
            s@ == joined_with(answered@.take(i as int).map_values(|a: (usize, Answer)| answer_words(world, a)), "; "@),
    {
        let ghost parts = answered@.take(i + 1).map_values(|a: (usize, Answer)| answer_words(world, a));
        assert(parts.drop_last() =~= answered@.take(i as int).map_values(|a: (usize, Answer)| answer_words(world, a)));
        assert(parts.last() == answer_words(world, answered@[i as int]));
        if i > 0 {
            s.append("; ");
        }
        s.append(lens.name(answered[i].0));
        match &answered[i].1 {
            Answer::Agreed { .. } => {
                s.append(" took it");
            },
            Answer::Declined { reason } => {
                s.append(" said no: ");
                s.append(reason.as_str());
            },
        }
        assert(s@ =~= joined_with(parts, "; "@));
    }
    assert(answered@.take(n as int) =~= answered@);
    s
}

/// **A posting's second line**: who has heard it, and what anybody said.
pub fn answers_line(lens: &Lens<'_>, posting: &Posting) -> (s: String)
    ensures
        s@ == answers_words(lens.world(), *posting),
{
    proof {
        reveal_strlit(" - unread; the camp reads the board as they think");
        reveal_strlit(" - unheard; a messenger is carrying it to ");
        reveal_strlit(" - heard by ");
        reveal_strlit(" - ");
    }
    let mut s = stamp(posting.made_at);
    if posting.heard.len() == 0 {
        match posting.who {
            Who::Anyone => {
                s.append(" - unread; the camp reads the board as they think");
            },
            Who::Person(who) => {
                s.append(" - unheard; a messenger is carrying it to ");
                s.append(lens.name(who));
            },
        }
    } else if posting.answered.len() == 0 {
        s.append(" - heard by ");
        let heard = heard_line(lens, &posting.heard);
        s.append(heard.as_str());
    } else {
        s.append(" - ");
        let said = said_line(lens, &posting.answered);
        s.append(said.as_str());
    }
    s
}

} // verus!

//! **Meters and faces**: the aggregates for the glance, and the faces behind
//! them. A chip is a count of people, and every count opens into the people
//! it counted: the count is the length of the list, and the list carries the
//! reason each face is on it.

use vstd::prelude::*;
use crate::constants::Tuning;
use crate::lens::{activity_words, home_in, lemma_roll, roll_of, roll_prefix, Lens};
use crate::needs::{desperate_of, needs_table, owed_by, owed_spec, is_desperate, is_short, short_of, short_prefix};
use crate::people::Character;
use crate::sim::{Module, Sim};
use crate::text::{int_digits, nat_digits, push_i64, push_u64};

verus! {

/// The picture a chip carries beside its colour.
#[derive(Clone, Copy, Debug, PartialEq, Eq, Structural)]
pub enum Icon {
    Heart,
    QuestTower,
    Coin,
    Flame,
}

/// The question a chip asks of one character.
#[derive(Clone, Copy, Debug, PartialEq, Eq, Structural)]
pub enum Question {
    /// Standing at home with nothing asked of them.
    Idle,
    /// Out of the settlement, and why.
    Away,
    /// Cannot meet their upkeep out of what they hold.
    Short,
    /// Pressed past the threshold.
    Desperate,
}

/// One registered aggregate.
#[derive(Clone, Copy, Debug)]
pub struct MeterSpec {
    /// The id a stamp and a report name it by.
    pub id: &'static str,
    /// What the chip says.
    pub label: &'static str,
    /// The chip's icon.
    pub icon: Icon,
    /// The question the chip asks of one character.
    pub asks: Question,
}

/// How many chips stand above the map.
pub const METER_COUNT: usize = 4;

/// **Every chip above the map**: where everybody is, then the pressure surface.
pub open spec fn meters_table() -> Seq<MeterSpec> {
    seq![
        MeterSpec { id: "idle", label: "idle", icon: Icon::Heart, asks: Question::Idle },
        MeterSpec { id: "away", label: "away", icon: Icon::QuestTower, asks: Question::Away },
        MeterSpec { id: "short", label: "short", icon: Icon::Coin, asks: Question::Short },
        MeterSpec { id: "desperate", label: "desperate", icon: Icon::Flame, asks: Question::Desperate },
    ]
}

/// One chip of the table, if there is one at this index.
pub fn meter_at(index: usize) -> (m: Option<MeterSpec>)
    ensures
        index < METER_COUNT ==> m == Some(meters_table()[index as int]),
        index >= METER_COUNT ==> m is None,
{
    if index == 0 {
        Some(MeterSpec { id: "idle", label: "idle", icon: Icon::Heart, asks: Question::Idle })
    } else if index == 1 {
        Some(MeterSpec { id: "away", label: "away", icon: Icon::QuestTower, asks: Question::Away })
    } else if index == 2 {
        Some(MeterSpec { id: "short", label: "short", icon: Icon::Coin, asks: Question::Short })
    } else if index == 3 {
        Some(MeterSpec { id: "desperate", label: "desperate", icon: Icon::Flame, asks: Question::Desperate })
    } else {
        None
    }
}

/// What a chip's question answers for one character: the reason they
/// count, or nothing.
pub open spec fn answer_of(sim: Sim, tuning: Tuning, q: Question, who: usize) -> Option<Seq<char>> {
    match q {
        Question::Idle => if home_in(sim, who) {
            Some("at home, and nobody has asked them for anything"@)
        } else {
            None
        },
        Question::Away => if home_in(sim, who) { None } else { Some(activity_words(sim, who)) },
        Question::Short => if short_of(sim, tuning, who) {
            Some("holds "@ + int_digits(sim.people@[who as int].wallet as int) + "g of the "@
                + int_digits(owed_spec(tuning, sim.people@[who as int].traits@)) + "g due"@)
        } else {
            None
        },
        Question::Desperate => if desperate_of(sim, who) {
            Some("desperation "@ + int_digits(sim.people@[who as int].desperation as int) + ", short "@
                + nat_digits(sim.people@[who as int].shortfalls as nat))
        } else {
            None
        },
    }
}

/// **Ask one character a chip's question.**
pub fn ask(lens: &Lens<'_>, tuning: &Tuning, q: Question, who: usize) -> (a: Option<String>)
    requires
        lens.world().wf(),
        tuning.wf(),
    ensures
        match a {
            Some(s) => answer_of(lens.world(), *tuning, q, who) == Some(s@),
            None => answer_of(lens.world(), *tuning, q, who) is None,
        },
{
    proof {
        reveal_strlit("at home, and nobody has asked them for anything");
        reveal_strlit("holds ");
        reveal_strlit("g of the ");
        reveal_strlit("g due");
        reveal_strlit("desperation ");
        reveal_strlit(", short ");
    }
    match q {
        Question::Idle => {
            if lens.at_home(who) {
                Some(String::from_str("at home, and nobody has asked them for anything"))
            } else {
                None
            }
        },
        Question::Away => {
            if lens.at_home(who) {
                None
            } else {
                Some(lens.activity_line(who))
            }
        },
        Question::Short => {
            if !is_short(lens, tuning, who) {
                return None;
            }
            proof { assert(lens.world().people@[who as int].wf()); }
            let mut s = String::from_str("holds ");
            push_i64(&mut s, lens.wallet(who));
            s.append("g of the ");
            push_i64(&mut s, owed_by(tuning, lens.traits(who)));
            s.append("g due");
            Some(s)
        },
        Question::Desperate => {
            if !is_desperate(lens, who) {
                return None;
            }
            let mut s = String::from_str("desperation ");
            push_i64(&mut s, lens.desperation(who));
            s.append(", short ");
            push_u64(&mut s, lens.shortfalls(who));
            Some(s)
        },
    }
}

/// The faces a question picks out of a roll, with their reasons, in roll order.
pub open spec fn faces_in(sim: Sim, tuning: Tuning, q: Question, roll: Seq<usize>) -> Seq<(usize, Seq<char>)>
    decreases roll.len(),
{
    if roll.len() == 0 {
        Seq::empty()
    } else {
        faces_in(sim, tuning, q, roll.drop_last()) + match answer_of(sim, tuning, q, roll.last()) {
            Some(reason) => seq![(roll.last(), reason)],
            None => Seq::empty(),
        }
    }
}

/// The faces behind a chip over the camp, or none for a chip that is not there.
pub open spec fn faces_of(sim: Sim, tuning: Tuning, index: usize) -> Seq<(usize, Seq<char>)> {
    if index < METER_COUNT {
        faces_in(sim, tuning, meters_table()[index as int].asks, roll_of(sim))
    } else {
        Seq::empty()
    }
}

/// **The faces behind chip `index`: who counts, and why** — over the roll,
/// so a chip counts the camp rather than the registry.
pub fn faces(lens: &Lens<'_>, tuning: &Tuning, index: usize) -> (out: Vec<(usize, String)>)
    requires
        lens.world().wf(),
        tuning.wf(),
    ensures
        out@.len() == faces_of(lens.world(), *tuning, index).len(),
        forall|k: int| 0 <= k < out@.len() ==> {
            &&& (#[trigger] out@[k]).0 == faces_of(lens.world(), *tuning, index)[k].0
            &&& out@[k].1@ == faces_of(lens.world(), *tuning, index)[k].1
        },
{
    let spec = match meter_at(index) {
        Some(spec) => spec,
        None => return Vec::new(),
    };
    let roll = lens.roll();
    let ghost sim = lens.world();
    let n = roll.len();
    let mut out: Vec<(usize, String)> = Vec::new();
    for k in 0..n
        invariant
            n == roll@.len(),
            roll@ == roll_of(sim),
            sim == lens.world(),
            sim.wf(),
            tuning.wf(),
            spec == meters_table()[index as int],
            out@.len() == faces_in(sim, *tuning, spec.asks, roll@.take(k as int)).len(),
            forall|j: int| 0 <= j < out@.len() ==> {
                &&& (#[trigger] out@[j]).0 == faces_in(sim, *tuning, spec.asks, roll@.take(k as int))[j].0
                &&& out@[j].1@ == faces_in(sim, *tuning, spec.asks, roll@.take(k as int))[j].1
            },
    {
        let who = roll[k];
        assert(roll@.take(k + 1).drop_last() =~= roll@.take(k as int));
        assert(roll@.take(k + 1).last() == who);
        let ghost was = faces_in(sim, *tuning, spec.asks, roll@.take(k as int));
        match ask(lens, tuning, spec.asks, who) {
            Some(reason) => {
                out.push((who, reason));
                assert(faces_in(sim, *tuning, spec.asks, roll@.take(k + 1)) =~= was.push((who, out@.last().1@)));
            },
            None => {
                assert(faces_in(sim, *tuning, spec.asks, roll@.take(k + 1)) =~= was);
            },
        }
    }
    assert(roll@.take(n as int) =~= roll@);
    out
}

/// **How many people chip `index` counts**: the length of the list it opens into.
pub fn count(lens: &Lens<'_>, tuning: &Tuning, index: usize) -> (c: usize)
    requires
        lens.world().wf(),
        tuning.wf(),
    ensures
        c == faces_of(lens.world(), *tuning, index).len(),
{
    faces(lens, tuning, index).len()
}

/// Every face a question picks out of a roll is on that roll.
pub proof fn lemma_faces_on_roll(sim: Sim, tuning: Tuning, q: Question, roll: Seq<usize>)
    ensures
        faces_in(sim, tuning, q, roll).len() <= roll.len(),
        forall|k: int| 0 <= k < faces_in(sim, tuning, q, roll).len() ==> roll.contains(
            #[trigger] faces_in(sim, tuning, q, roll)[k].0,
        ),
    decreases roll.len(),
{
    if roll.len() > 0 {
        let rest = roll.drop_last();
        lemma_faces_on_roll(sim, tuning, q, rest);
        assert forall|k: int| 0 <= k < faces_in(sim, tuning, q, roll).len() implies roll.contains(
            #[trigger] faces_in(sim, tuning, q, roll)[k].0,
        ) by {
            let f = faces_in(sim, tuning, q, roll);
            if k < faces_in(sim, tuning, q, rest).len() {
                let w = f[k].0;
                assert(rest.contains(w));
                let j = choose|j: int| 0 <= j < rest.len() && rest[j] == w;
                assert(roll[j] == w);
            } else {
                assert(roll[roll.len() - 1] == roll.last());
            }
        }
    }
}

/// **A chip counts only people in the camp**: everybody on a chip's list is
/// present, and no chip counts more people than the camp holds.
pub proof fn lemma_chips_count_the_camp(sim: Sim, tuning: Tuning, index: usize)
    requires
        sim.wf(),
    ensures
        faces_of(sim, tuning, index).len() <= roll_of(sim).len(),
        forall|k: int| 0 <= k < faces_of(sim, tuning, index).len() ==> {
            let who = (#[trigger] faces_of(sim, tuning, index)[k]).0;
            who < sim.people@.len() && sim.people@[who as int].present
        },
{
    lemma_roll(sim.people@, sim.people@.len() as int);
    if index < METER_COUNT {
        let q = meters_table()[index as int].asks;
        lemma_faces_on_roll(sim, tuning, q, roll_of(sim));
        assert forall|k: int| 0 <= k < faces_of(sim, tuning, index).len() implies {
            let who = (#[trigger] faces_of(sim, tuning, index)[k]).0;
            who < sim.people@.len() && sim.people@[who as int].present
        } by {
            let who = faces_in(sim, tuning, q, roll_of(sim))[k].0;
            assert(roll_of(sim).contains(who));
            let j = choose|j: int| 0 <= j < roll_of(sim).len() && roll_of(sim)[j] == who;
            assert(roll_prefix(sim.people@, sim.people@.len() as int)[j] == who);
        }
    }
}

/// The idle and away questions split any roll between them.
pub proof fn lemma_idle_away_split(sim: Sim, tuning: Tuning, roll: Seq<usize>)
    ensures
        faces_in(sim, tuning, Question::Idle, roll).len() + faces_in(sim, tuning, Question::Away, roll).len()
            == roll.len(),
    decreases roll.len(),
{
    if roll.len() > 0 {
        lemma_idle_away_split(sim, tuning, roll.drop_last());
    }
}

/// **The idle and away chips divide the camp between them**: everybody
/// present is either at home or out, and is counted by exactly one of the two.
pub proof fn lemma_placement_chips_divide_the_camp(sim: Sim, tuning: Tuning)
    ensures
        faces_of(sim, tuning, 0).len() + faces_of(sim, tuning, 1).len() == roll_of(sim).len(),
{
    lemma_idle_away_split(sim, tuning, roll_of(sim));
}


/// Who a list of faces names, in order.
pub open spec fn named(faces: Seq<(usize, Seq<char>)>) -> Seq<usize> {
    faces.map_values(|f: (usize, Seq<char>)| f.0)
}

proof fn lemma_short_prefix_is_the_chip(sim: Sim, tuning: Tuning, n: int)
    requires
        0 <= n <= sim.people@.len(),
        sim.wf(),
        sim.modules.spec_enabled(Module::Needs),
        forall|i: int| 0 <= i < sim.people@.len() ==> (#[trigger] sim.people@[i]).wallet >= 0,
    ensures
        named(faces_in(sim, tuning, Question::Short, roll_prefix(sim.people@, n)))
            == short_prefix(sim.people@, tuning, needs_table()[0], n),
    decreases n,
{
    if n > 0 {
        lemma_short_prefix_is_the_chip(sim, tuning, n - 1);
        let people = sim.people@;
        let prev = roll_prefix(people, n - 1);
        let f_prev = faces_in(sim, tuning, Question::Short, prev);
        let need = needs_table()[0];
        let w = (n - 1) as usize;
        assert(w as int == n - 1);
        let sp = short_prefix(people, tuning, need, n);
        let sp_prev = short_prefix(people, tuning, need, n - 1);
        assert(short_of(sim, tuning, w) == crate::needs::goes_short(
            people[n - 1],
            crate::needs::cost_spec(tuning, need, people[n - 1].traits@),
        ));
        if people[n - 1].present {
            let cur = prev.push((n - 1) as usize);
            assert(roll_prefix(people, n) =~= cur);
            assert(cur.drop_last() =~= prev);
            let f = faces_in(sim, tuning, Question::Short, cur);
            if short_of(sim, tuning, w) {
                assert(sp =~= sp_prev.push(w));
                assert(named(f) =~= named(f_prev).push(w));
            } else {
                assert(sp =~= sp_prev);
                assert(named(f) =~= named(f_prev));
            }
        } else {
            assert(roll_prefix(people, n) =~= prev);
            assert(sp =~= sp_prev);
        }
    }
}

/// **The short chip counts the set the burn acts on**: with the needs
/// module on and no purse below zero, the people the `short` chip names are
/// exactly the people the next burn finds unable to pay, in the same order.
pub proof fn lemma_short_chip_is_the_burn(sim: Sim, tuning: Tuning)
    requires
        sim.wf(),
        sim.modules.spec_enabled(Module::Needs),
        forall|i: int| 0 <= i < sim.people@.len() ==> (#[trigger] sim.people@[i]).wallet >= 0,
    ensures
        named(faces_of(sim, tuning, 2)) == short_prefix(sim.people@, tuning, needs_table()[0], sim.people@.len() as int),
{
    lemma_short_prefix_is_the_chip(sim, tuning, sim.people@.len() as int);
}

} // verus!

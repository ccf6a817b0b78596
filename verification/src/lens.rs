//! **The knowledge lens**: the one read-path from the simulation to a screen.
//!
//! Every accessor hands back exactly what the world holds; a screen reads the
//! world through here and nowhere else.

use vstd::prelude::*;
use crate::people::{Character, Tile};
use crate::sim::{status_words, Activity, Event, Module, Party, Settlement, Sim, Site};
use crate::stores::{Regarded, REGARD_BOUND};
use crate::traits::{weighted, weighted_regard, TraitId};

verus! {

/// The present people among the first `n` of the registry, in registry order.
pub open spec fn roll_prefix(people: Seq<Character>, n: int) -> Seq<usize>
    decreases n,
{
    if n <= 0 {
        Seq::empty()
    } else {
        roll_prefix(people, n - 1) + if people[n - 1].present {
            seq![(n - 1) as usize]
        } else {
            Seq::empty()
        }
    }
}

/// Who is in the camp, in registry order.
pub open spec fn roll_of(sim: Sim) -> Seq<usize> {
    roll_prefix(sim.people@, sim.people@.len() as int)
}

/// A member of the roll is a present person of the registry, and every
/// present person is on the roll, once, in registry order.
pub proof fn lemma_roll(people: Seq<Character>, n: int)
    requires
        0 <= n <= people.len(),
        people.len() <= usize::MAX,
    ensures
        forall|k: int| 0 <= k < roll_prefix(people, n).len() ==> {
            &&& (#[trigger] roll_prefix(people, n)[k]) < n
            &&& people[roll_prefix(people, n)[k] as int].present
        },
        forall|who: usize| who < n && people[who as int].present ==> #[trigger] roll_prefix(people, n).contains(who),
        forall|a: int, b: int| 0 <= a < b < roll_prefix(people, n).len() ==> roll_prefix(people, n)[a] < roll_prefix(people, n)[b],
        roll_prefix(people, n).len() <= n,
    decreases n,
{
    if n > 0 {
        lemma_roll(people, n - 1);
        let prev = roll_prefix(people, n - 1);
        if people[n - 1].present {
            let cur = prev.push((n - 1) as usize);
            assert(roll_prefix(people, n) =~= cur);
            assert forall|k: int| 0 <= k < cur.len() implies {
                &&& (#[trigger] cur[k]) < n
                &&& people[cur[k] as int].present
            } by {
                if k < prev.len() {
                    assert(cur[k] == prev[k]);
                }
            }
            assert forall|a: int, b: int| 0 <= a < b < cur.len() implies cur[a] < cur[b] by {
                assert(cur[a] == prev[a]);
                if b < prev.len() {
                    assert(cur[b] == prev[b]);
                }
            }
            assert forall|who: usize| who < n && people[who as int].present implies
                #[trigger] roll_prefix(people, n).contains(who) by {
                if who < n - 1 {
                    assert(prev.contains(who));
                    let k = choose|k: int| 0 <= k < prev.len() && prev[k] == who;
                    assert(cur[k] == who);
                } else {
                    assert(cur[prev.len() as int] == who);
                }
            }
        } else {
            assert(roll_prefix(people, n) =~= prev);
            assert forall|who: usize| who < n && people[who as int].present implies
                #[trigger] roll_prefix(people, n).contains(who) by {
                assert(prev.contains(who));
            }
        }
    }
}

/// The first party that fields `who` and is out, if any.
pub open spec fn out_with(parties: Seq<Party>, who: usize) -> Option<int> {
    if exists|i: int| 0 <= i < parties.len() && parties[i].member == who && parties[i].activity != Activity::Idle {
        Some(choose|i: int| 0 <= i < parties.len() && parties[i].member == who
            && parties[i].activity != Activity::Idle
            && forall|j: int| 0 <= j < i ==> !(parties[j].member == who && parties[j].activity != Activity::Idle))
    } else {
        None
    }
}

/// Whether `who` stands at home: no party they field is out.
pub open spec fn home_in(sim: Sim, who: usize) -> bool {
    !exists|i: int| 0 <= i < sim.parties@.len() && sim.parties@[i].member == who
        && sim.parties@[i].activity != Activity::Idle
}

/// The words the character panel says someone is doing.
pub open spec fn activity_words(sim: Sim, who: usize) -> Seq<char> {
    match out_with(sim.parties@, who) {
        Some(i) => "out with "@ + sim.parties@[i].name@ + " - "@ + status_words(sim.parties@[i].activity),
        None => "at home, and nobody has asked them for anything"@,
    }
}

/// A character's name as a line says it.
pub open spec fn name_of(sim: Sim, who: usize) -> Seq<char> {
    if who < sim.people@.len() { sim.people@[who as int].name@ } else { "someone"@ }
}

/// One view of the world, for one observer. The observer is omniscient.
#[derive(Clone, Copy, Debug)]
pub struct Lens<'a> {
    sim: &'a Sim,
}

impl<'a> Lens<'a> {
    /// The world this lens reads.
    pub closed spec fn world(&self) -> Sim {
        *self.sim
    }

    /// **The view onto this world**, which is the world itself.
    pub fn on(sim: &'a Sim) -> (l: Lens<'a>)
        ensures
            l.world() == *sim,
    {
        Lens { sim }
    }

    /// The world itself, for the functions that read it whole.
    pub fn sim(&self) -> (s: &'a Sim)
        ensures
            *s == self.world(),
    {
        self.sim
    }

    /// **What each class of occurrence does to the player's attention.**
    pub fn attention(&self) -> (a: &'a crate::attention::Attention)
        ensures
            *a == self.world().attention,
    {
        &self.sim.attention
    }

    /// **Why the world is stopped**, if it is.
    pub fn pause(&self) -> (p: Option<crate::attention::Pause>)
        ensures
            p == self.world().pause,
    {
        self.sim.pause
    }

    /// **How many times the world has stopped itself.**
    pub fn pauses(&self) -> (n: u64)
        ensures
            n == self.world().pauses,
    {
        self.sim.pauses
    }

    /// What the treasury holds.
    pub fn treasury(&self) -> (t: i64)
        ensures
            t == self.world().treasury,
    {
        self.sim.treasury
    }

    /// Every party, in authored order.
    pub fn parties(&self) -> (p: &'a [Party])
        ensures
            p@ == self.world().parties@,
    {
        self.sim.parties.as_slice()
    }

    /// One party, if there is one at this index.
    pub fn party(&self, index: usize) -> (p: Option<&'a Party>)
        ensures
            match p {
                Some(r) => index < self.world().parties@.len() && *r == self.world().parties@[index as int],
                None => index >= self.world().parties@.len(),
            },
    {
        if index < self.sim.parties.len() {
            Some(&self.sim.parties[index])
        } else {
            None
        }
    }

    /// Every quest site.
    pub fn sites(&self) -> (s: &'a [Site])
        ensures
            s@ == self.world().sites@,
    {
        self.sim.sites.as_slice()
    }

    /// **How many quests the site standing on `location` still has open**:
    /// the first such site's count, or none.
    pub fn open_quests(&self, location: usize) -> (n: usize)
        ensures
            (exists|i: int| 0 <= i < self.world().sites@.len() && self.world().sites@[i].location == location) ==>
                exists|i: int| 0 <= i < self.world().sites@.len()
                    && self.world().sites@[i].location == location
                    && (forall|j: int| 0 <= j < i ==> self.world().sites@[j].location != location)
                    && n == self.world().sites@[i].spec_open_slots().len(),
            !(exists|i: int| 0 <= i < self.world().sites@.len() && self.world().sites@[i].location == location) ==> n == 0,
    {
        let sites = &self.sim.sites;
        let count = sites.len();
        for i in 0..count
            invariant
                count == sites@.len(),
                *sites == self.world().sites,
                forall|j: int| 0 <= j < i ==> sites@[j].location != location,
        {
            if sites[i].location == location {
                return sites[i].open_slots().len();
            }
        }
        0
    }

    /// Everything that has happened, in firing order.
    pub fn events(&self) -> (e: &'a [Event])
        ensures
            e@ == self.world().events@,
    {
        self.sim.events.as_slice()
    }

    /// Everyone in the settlement, in registry order.
    pub fn people(&self) -> (p: &'a [Character])
        ensures
            p@ == self.world().people@,
    {
        self.sim.people.as_slice()
    }

    /// One character, if there is one at this index.
    pub fn person(&self, index: usize) -> (p: Option<&'a Character>)
        ensures
            match p {
                Some(r) => index < self.world().people@.len() && *r == self.world().people@[index as int],
                None => index >= self.world().people@.len(),
            },
    {
        if index < self.sim.people.len() {
            Some(&self.sim.people[index])
        } else {
            None
        }
    }

    /// **A character's name**, for a line that has to say who.
    pub fn name(&self, index: usize) -> (s: &'a str)
        ensures
            s@ == name_of(self.world(), index),
    {
        proof { reveal_strlit("someone"); }
        if index < self.sim.people.len() {
            self.sim.people[index].name
        } else {
            "someone"
        }
    }

    /// What this character has in their purse.
    pub fn wallet(&self, index: usize) -> (w: i64)
        ensures
            w == if index < self.world().people@.len() { self.world().people@[index as int].wallet } else { 0 },
    {
        if index < self.sim.people.len() {
            self.sim.people[index].wallet
        } else {
            0
        }
    }

    /// How hard the need presses on them.
    pub fn desperation(&self, index: usize) -> (d: i64)
        ensures
            d == if index < self.world().people@.len() { self.world().people@[index as int].desperation } else { 0 },
    {
        if index < self.sim.people.len() {
            self.sim.people[index].desperation
        } else {
            0
        }
    }

    /// How many intervals of upkeep they have gone short.
    pub fn shortfalls(&self, index: usize) -> (n: u64)
        ensures
            n == if index < self.world().people@.len() { self.world().people@[index as int].shortfalls } else { 0 },
    {
        if index < self.sim.people.len() {
            self.sim.people[index].shortfalls
        } else {
            0
        }
    }

    /// Why it presses.
    pub fn source(&self, index: usize) -> (s: &'a str)
        ensures
            s@ == if index < self.world().people@.len() { self.world().people@[index as int].source@ } else { Seq::empty() },
    {
        proof { reveal_strlit(""); }
        if index < self.sim.people.len() {
            self.sim.people[index].source.as_str()
        } else {
            ""
        }
    }

    /// What they carry, in the order the registry authored it.
    pub fn traits(&self, index: usize) -> (t: &'a [TraitId])
        ensures
            t@ == if index < self.world().people@.len() { self.world().people@[index as int].traits@ } else { Seq::empty() },
    {
        if index < self.sim.people.len() {
            self.sim.people[index].traits.as_slice()
        } else {
            let empty: &'a [TraitId] = &[];
            empty
        }
    }

    /// Where they live.
    pub fn home(&self, index: usize) -> (h: Option<Tile>)
        ensures
            h == if index < self.world().people@.len() { Some(self.world().people@[index as int].home) } else { None },
    {
        if index < self.sim.people.len() {
            Some(self.sim.people[index].home)
        } else {
            None
        }
    }

    /// Whether this character is in the camp.
    pub fn present(&self, index: usize) -> (b: bool)
        ensures
            b == (index < self.world().people@.len() && self.world().people@[index as int].present),
    {
        index < self.sim.people.len() && self.sim.people[index].present
    }

    /// **Who is in the camp**, in registry order.
    pub fn roll(&self) -> (r: Vec<usize>)
        ensures
            r@ == roll_of(self.world()),
    {
        let people = &self.sim.people;
        let n = people.len();
        let mut out: Vec<usize> = Vec::new();
        for i in 0..n
            invariant
                n == people@.len(),
                *people == self.world().people,
                out@ == roll_prefix(people@, i as int),
        {
            if people[i].present {
                out.push(i);
            }
            assert(out@ =~= roll_prefix(people@, i + 1));
        }
        out
    }

    /// Whether the needs module runs in this world.
    pub fn needs_on(&self) -> (b: bool)
        ensures
            b == self.world().modules.spec_enabled(Module::Needs),
    {
        self.sim.modules.enabled(Module::Needs)
    }

    /// Whether the settlement module runs in this world.
    pub fn settlement_on(&self) -> (b: bool)
        ensures
            b == self.world().modules.spec_enabled(Module::Settlement),
    {
        self.sim.modules.enabled(Module::Settlement)
    }

    /// The camp works.
    pub fn settlement(&self) -> (s: &'a Settlement)
        ensures
            *s == self.world().settlement,
    {
        &self.sim.settlement
    }

    /// **What they are doing right now**, as the character panel says it.
    pub fn activity_line(&self, index: usize) -> (s: String)
        ensures
            s@ == activity_words(self.world(), index),
    {
        proof {
            reveal_strlit("out with ");
            reveal_strlit(" - ");
            reveal_strlit("at home, and nobody has asked them for anything");
        }
        let parties = &self.sim.parties;
        let n = parties.len();
        for i in 0..n
            invariant
                n == parties@.len(),
                *parties == self.world().parties,
                forall|j: int| 0 <= j < i ==> !(parties@[j].member == index && parties@[j].activity != Activity::Idle),
        {
            if parties[i].member == index && parties[i].activity != Activity::Idle {
                assert(out_with(parties@, index) == Some(i as int));
                let mut s = String::from_str("out with ");
                s.append(parties[i].name);
                s.append(" - ");
                s.append(parties[i].status());
                return s;
            }
        }
        String::from_str("at home, and nobody has asked them for anything")
    }

    /// **Whether this character is standing at home**: derived, never
    /// stored — at home unless a party they field is out.
    pub fn at_home(&self, index: usize) -> (b: bool)
        ensures
            b == home_in(self.world(), index),
    {
        let parties = &self.sim.parties;
        let n = parties.len();
        for i in 0..n
            invariant
                n == parties@.len(),
                *parties == self.world().parties,
                forall|j: int| 0 <= j < i ==> !(parties@[j].member == index && parties@[j].activity != Activity::Idle),
        {
            if parties[i].member == index && parties[i].activity != Activity::Idle {
                return false;
            }
        }
        true
    }

    /// `regard(from -> to)`, raw. Absent is zero.
    pub fn regard(&self, from: usize, to: Regarded) -> (r: i64)
        ensures
            r == self.world().shared.spec_regard(from, to),
    {
        self.sim.shared.regard(from, to)
    }

    /// **The same edge as `from` feels it**: weighed by their own bond and
    /// grudge multipliers.
    pub fn regard_as_felt(&self, from: usize, to: Regarded) -> (r: i64)
        requires
            self.world().wf(),
        ensures
            r == if from < self.world().people@.len() {
                weighted(self.world().shared.spec_regard(from, to) as int, self.world().people@[from as int].traits@)
            } else {
                self.world().shared.spec_regard(from, to) as int
            },
    {
        let raw = self.regard(from, to);
        proof { crate::stores::lemma_regard_bounded(self.world().shared, from, to); }
        if from < self.sim.people.len() {
            weighted_regard(raw, self.sim.people[from].traits.as_slice())
        } else {
            raw
        }
    }
}

} // verus!

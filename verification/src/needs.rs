//! **Needs**: what living in the camp costs, and what it does to somebody who
//! cannot pay. Nobody is ever overdrawn: what is in the purse is what is
//! taken, and what could not be found presses on desperation.

use vstd::prelude::*;
use crate::autonomy::DAY;
use crate::constants::{Field, Tuning};
use crate::lens::{roll_of, Lens};
use crate::people::{press, Character, DESPERATION_MAX};
use crate::sim::{EventClass, Module, Sim, MAX_PEOPLE};
use crate::text::{nat_digits, push_u64, push_i64, int_digits};
use crate::traits::{upkeep, upkeep_of, TraitId, MAX_CARRIED};

verus! {

/// The module the needs belong to.
pub const MODULE: Module = Module::Needs;

/// What one shortfall presses desperation by.
pub const PRESS: i64 = 1;

/// How desperate the `desperate` chip counts from.
pub const DESPERATE_AT: i64 = 6;

/// One row of the needs list: a kind, an interval and a base cost.
#[derive(Clone, Copy, Debug)]
pub struct NeedSpec {
    /// The id a stamp and a report name it by.
    pub id: &'static str,
    /// What a surface calls it.
    pub label: &'static str,
    /// The drawer row its interval is read from, in world-hours.
    pub every: Field,
    /// The drawer row its base cost is read from.
    pub base: Field,
}

/// How many rows the needs list has.
pub const NEED_COUNT: usize = 1;

/// **The needs list**: coin upkeep, per interval, trait-modulated.
pub open spec fn needs_table() -> Seq<NeedSpec> {
    seq![NeedSpec { id: "coin", label: "upkeep", every: Field::UpkeepHours, base: Field::UpkeepCoin }]
}

/// One row of the needs list, if there is one.
pub fn need_at(row: usize) -> (n: Option<NeedSpec>)
    ensures
        row < NEED_COUNT ==> n == Some(needs_table()[row as int]),
        row >= NEED_COUNT ==> n is None,
{
    if row == 0 {
        Some(NeedSpec { id: "coin", label: "upkeep", every: Field::UpkeepHours, base: Field::UpkeepCoin })
    } else {
        None
    }
}

impl NeedSpec {
    /// **How many world-hours this need falls due on**.
    pub fn interval_hours(&self, tuning: &Tuning) -> (h: i64)
        ensures
            h == tuning.spec_field(self.every),
    {
        tuning.field(self.every)
    }
}

/// World-minutes between two burns of a need: never zero.
pub open spec fn interval_of(tuning: Tuning, need: NeedSpec) -> int {
    let h = tuning.spec_field(need.every);
    (if h <= 1 { 1 } else { h as int }) * 60
}

/// **How many world-minutes lie between two burns of this need** — never
/// zero, because an interval of nothing would fall due forever.
pub fn interval(tuning: &Tuning, need: &NeedSpec) -> (m: u64)
    requires
        tuning.wf(),
    ensures
        m == interval_of(*tuning, *need),
        60 <= m <= 600_000,
{
    let h = tuning.field(need.every);
    let hours: u64 = if h <= 1 { 1 } else { h as u64 };
    hours * 60
}

/// **The first burn of a need**, as the scenario schedules it.
pub fn first_burn(tuning: &Tuning, need: &NeedSpec) -> (m: u64)
    requires
        tuning.wf(),
    ensures
        m == interval_of(*tuning, *need),
{
    interval(tuning, need)
}

/// What a need costs a carrier, one interval.
pub open spec fn cost_spec(tuning: Tuning, need: NeedSpec, carried: Seq<TraitId>) -> int {
    upkeep(tuning.spec_field(need.base) as int, carried)
}

/// **What this need costs this person, one interval**, with their motivators on it.
pub fn cost_of(tuning: &Tuning, need: &NeedSpec, carried: &[TraitId]) -> (c: i64)
    requires
        tuning.wf(),
        carried@.len() <= MAX_CARRIED,
    ensures
        c == cost_spec(*tuning, *need, carried@),
        -256_000_000 <= c <= 256_000_000,
{
    upkeep_of(tuning.field(need.base), carried)
}

/// What one person owes in an interval, over every need.
pub open spec fn owed_spec(tuning: Tuning, carried: Seq<TraitId>) -> int {
    cost_spec(tuning, needs_table()[0], carried)
}

/// **What one person owes this interval**, over every need there is.
pub fn owed_by(tuning: &Tuning, carried: &[TraitId]) -> (c: i64)
    requires
        tuning.wf(),
        carried@.len() <= MAX_CARRIED,
    ensures
        c == owed_spec(*tuning, carried@),
        -256_000_000 <= c <= 256_000_000,
{
    let need = NeedSpec { id: "coin", label: "upkeep", every: Field::UpkeepHours, base: Field::UpkeepCoin };
    cost_of(tuning, &need, carried)
}

/// The upkeep of everybody on a roll, summed.
pub open spec fn roll_cost(sim: Sim, tuning: Tuning, need: NeedSpec, roll: Seq<usize>) -> int
    decreases roll.len(),
{
    if roll.len() == 0 {
        0
    } else {
        roll_cost(sim, tuning, need, roll.drop_last()) + cost_spec(tuning, need, sim.people@[roll.last() as int].traits@)
    }
}

/// **What the settlement burns in a world-day**, derived from the present roster.
pub open spec fn burn_per_day_of(sim: Sim, tuning: Tuning) -> int {
    if !sim.modules.spec_enabled(MODULE) {
        0
    } else {
        let need = needs_table()[0];
        roll_cost(sim, tuning, need, roll_of(sim)) * (DAY as int / interval_of(tuning, need))
    }
}

/// **What the settlement burns in a world-day**, derived from the present
/// roster and never estimated.
pub fn burn_per_day(lens: &Lens<'_>, tuning: &Tuning) -> (b: i64)
    requires
        lens.world().wf(),
        tuning.wf(),
    ensures
        b == burn_per_day_of(lens.world(), *tuning),
{
    if !lens.needs_on() {
        return 0;
    }
    let need = NeedSpec { id: "coin", label: "upkeep", every: Field::UpkeepHours, base: Field::UpkeepCoin };
    let every = interval(tuning, &need);
    let a_day = DAY / every;
    assert(a_day <= 24) by (nonlinear_arith)
        requires a_day as int == 1440int / (every as int), every >= 60;
    let roll = lens.roll();
    let ghost sim = lens.world();
    proof { crate::lens::lemma_roll(sim.people@, sim.people@.len() as int); }
    let n = roll.len();
    let mut per_interval: i64 = 0;
    for k in 0..n
        invariant
            n == roll@.len(),
            roll@ == roll_of(sim),
            sim == lens.world(),
            sim.wf(),
            tuning.wf(),
            n <= MAX_PEOPLE,
            forall|j: int| 0 <= j < n ==> (#[trigger] roll@[j]) < sim.people@.len(),
            per_interval == roll_cost(sim, *tuning, need, roll@.take(k as int)),
            -256_000_000 * k <= per_interval <= 256_000_000 * k,
    {
        let who = roll[k];
        proof { assert(sim.people@[who as int].wf()); }
        assert(roll@.take(k + 1).drop_last() =~= roll@.take(k as int));
        let c = cost_of(tuning, &need, lens.traits(who));
        per_interval = per_interval + c;
    }
    assert(roll@.take(n as int) =~= roll@);
    assert(-256_000_000_000 * 24 <= per_interval * (a_day as i64) <= 256_000_000_000 * 24) by (nonlinear_arith)
        requires -256_000_000_000 <= per_interval <= 256_000_000_000, 0 <= a_day <= 24;
    per_interval * (a_day as i64)
}

/// Whether this person cannot meet their upkeep out of what they hold.
pub open spec fn short_of(sim: Sim, tuning: Tuning, who: usize) -> bool {
    &&& sim.modules.spec_enabled(MODULE)
    &&& who < sim.people@.len()
    &&& sim.people@[who as int].present
    &&& sim.people@[who as int].wallet < owed_spec(tuning, sim.people@[who as int].traits@)
}

/// **Whether this person cannot meet their upkeep out of what they hold** —
/// the `short` chip's question, and the same comparison the burn makes.
pub fn is_short(lens: &Lens<'_>, tuning: &Tuning, who: usize) -> (b: bool)
    requires
        lens.world().wf(),
        tuning.wf(),
    ensures
        b == short_of(lens.world(), *tuning, who),
{
    if !(lens.needs_on() && lens.present(who)) {
        return false;
    }
    proof { assert(lens.world().people@[who as int].wf()); }
    lens.wallet(who) < owed_by(tuning, lens.traits(who))
}

/// Whether the need has pressed this person past the chip's threshold.
pub open spec fn desperate_of(sim: Sim, who: usize) -> bool {
    who < sim.people@.len() && sim.people@[who as int].present && sim.people@[who as int].desperation >= DESPERATE_AT
}

/// **Whether the need has pressed this person past the chip's threshold**.
pub fn is_desperate(lens: &Lens<'_>, who: usize) -> (b: bool)
    ensures
        b == desperate_of(lens.world(), who),
{
    lens.present(who) && lens.desperation(who) >= DESPERATE_AT
}

/// The source line a shortfall writes, composed onto the line they came with.
pub open spec fn rewritten_words(origin: Seq<char>, now: u64, times: u64) -> Seq<char> {
    origin + " - and went short on day "@ + nat_digits((now / DAY + 1) as nat) + " ("@ + nat_digits(times as nat)
        + " in all)"@
}

/// **The source line a shortfall writes** — composed onto the line they were
/// generated with, never replacing it.
pub fn rewritten(origin: &str, now: u64, times: u64) -> (s: String)
    ensures
        s@ == rewritten_words(origin@, now, times),
{
    proof { reveal_strlit(" - and went short on day "); reveal_strlit(" ("); reveal_strlit(" in all)"); }
    let mut s = String::from_str(origin);
    s.append(" - and went short on day ");
    push_u64(&mut s, now / DAY + 1);
    s.append(" (");
    push_u64(&mut s, times);
    s.append(" in all)");
    s
}


/// Every purse in the registry, added up.
pub open spec fn purses(people: Seq<Character>) -> int
    decreases people.len(),
{
    if people.len() == 0 {
        0
    } else {
        purses(people.drop_last()) + people.last().wallet
    }
}

/// Changing one purse changes the total by exactly that much.
proof fn lemma_purses_update(people: Seq<Character>, i: int, p: Character)
    requires
        0 <= i < people.len(),
    ensures
        purses(people.update(i, p)) == purses(people) - people[i].wallet + p.wallet,
    decreases people.len(),
{
    let after = people.update(i, p);
    if i == people.len() - 1 {
        assert(after.drop_last() =~= people.drop_last());
    } else {
        lemma_purses_update(people.drop_last(), i, p);
        assert(after.drop_last() =~= people.drop_last().update(i, p));
    }
}

/// Whether one interval of a need finds this person unable to pay.
pub open spec fn goes_short(p: Character, cost: int) -> bool {
    p.present && cost > 0 && p.wallet < cost
}

/// Everything on a sheet but the purse, the need and its line is unchanged.
pub open spec fn same_but_purse_and_need(a: Character, b: Character) -> bool {
    &&& a.id == b.id
    &&& a.name == b.name
    &&& a.home == b.home
    &&& a.traits == b.traits
    &&& a.origin == b.origin
    &&& a.present == b.present
    &&& a.present_from == b.present_from
    &&& a.active_petition == b.active_petition
}

/// **One interval of a need, on one sheet**: somebody absent, or owing
/// nothing, is untouched; somebody who can pay pays; somebody who cannot
/// hands over what they hold, goes short once more, is pressed one step and
/// has their source line rewritten to the event.
pub open spec fn burned(before: Character, after: Character, cost: int, now: u64) -> bool {
    &&& same_but_purse_and_need(before, after)
    &&& if !before.present || cost <= 0 {
        &&& after.wallet == before.wallet
        &&& after.desperation == before.desperation
        &&& after.shortfalls == before.shortfalls
        &&& after.source == before.source
    } else if before.wallet >= cost {
        &&& after.wallet == before.wallet - cost
        &&& after.desperation == before.desperation
        &&& after.shortfalls == before.shortfalls
        &&& after.source == before.source
    } else {
        &&& after.wallet == 0
        &&& after.shortfalls == before.shortfalls + 1
        &&& after.desperation == if before.desperation + PRESS > DESPERATION_MAX {
            DESPERATION_MAX as int
        } else {
            before.desperation + PRESS
        }
        &&& after.source@ == rewritten_words(before.origin@, now, after.shortfalls)
    }
}

/// Who goes short among the first `n` of the registry, in registry order.
pub open spec fn short_prefix(people: Seq<Character>, tuning: Tuning, need: NeedSpec, n: int) -> Seq<usize>
    decreases n,
{
    if n <= 0 {
        Seq::empty()
    } else {
        short_prefix(people, tuning, need, n - 1) + if goes_short(
            people[n - 1],
            cost_spec(tuning, need, people[n - 1].traits@),
        ) {
            seq![(n - 1) as usize]
        } else {
            Seq::empty()
        }
    }
}

/// What the feed says when somebody cannot find their upkeep.
pub open spec fn shortfall_note(p: Character, cost: int, need: NeedSpec, now: u64) -> Seq<char> {
    "could not find "@ + int_digits(cost - p.wallet) + "g for "@ + need.label@ + " - "@
        + rewritten_words(p.origin@, now, (p.shortfalls + 1) as u64)
}

/// Whether a feed entry is the shortfall of `who`, as the world stood before the burn.
pub open spec fn is_shortfall_of(e: crate::sim::Event, start: Sim, tuning: Tuning, need: NeedSpec, now: u64, who: usize) -> bool {
    &&& e.minute == now
    &&& e.class == EventClass::UpkeepShortfall
    &&& e.party == who
    &&& e.tile == start.spec_tile_of(who)
    &&& e.note@ == shortfall_note(
        start.people@[who as int],
        cost_spec(tuning, need, start.people@[who as int].traits@),
        need,
        now,
    )
}

/// What one interval of a need takes out of a purse: the cost from somebody
/// who can pay it, all they hold from somebody who cannot, and nothing from
/// somebody absent or owing nothing.
pub open spec fn taken(p: Character, cost: int) -> int {
    if !p.present || cost <= 0 {
        0
    } else if p.wallet >= cost {
        cost
    } else {
        p.wallet as int
    }
}

/// What one interval of a need takes from the first `n` of the registry.
pub open spec fn taken_prefix(people: Seq<Character>, tuning: Tuning, need: NeedSpec, n: int) -> int
    decreases n,
{
    if n <= 0 {
        0
    } else {
        taken_prefix(people, tuning, need, n - 1) + taken(people[n - 1], cost_spec(tuning, need, people[n - 1].traits@))
    }
}

/// The inputs on which one burn's 64-bit arithmetic holds: what somebody
/// short still owes is a 64-bit number, their count of shortfalls can go up
/// by one, and the upkeep port, as each purse is added onto it, stays a
/// 64-bit number.
pub open spec fn burnable(sim: Sim, tuning: Tuning, row: usize) -> bool {
    row < NEED_COUNT && sim.modules.spec_enabled(MODULE) ==> {
        let need = needs_table()[row as int];
        &&& forall|i: int| 0 <= i < sim.people@.len() && #[trigger] goes_short(
            sim.people@[i],
            cost_spec(tuning, need, sim.people@[i].traits@),
        ) ==> {
            &&& cost_spec(tuning, need, sim.people@[i].traits@) - sim.people@[i].wallet <= i64::MAX
            &&& sim.people@[i].shortfalls < u64::MAX
        }
        &&& forall|n: int| 0 <= n <= sim.people@.len() ==> i64::MIN <= sim.ports.burned_upkeep
            + #[trigger] taken_prefix(sim.people@, tuning, need, n) <= i64::MAX
    }
}

/// **One interval of one need falls due** — the burn, and the only port
/// that takes gold out of a wallet.
///
/// Walked in registry order over everybody who is present. What is in the
/// purse is what is taken: a wallet that was not negative never goes
/// negative, and what could not be found is the shortfall, which presses.
/// Returns how many people went short.
pub fn burn(sim: &mut Sim, tuning: &Tuning, now: u64, row: usize) -> (short: usize)
    requires
        old(sim).wf(),
        tuning.wf(),
        burnable(*old(sim), *tuning, row),
    ensures
        row >= NEED_COUNT || !old(sim).modules.spec_enabled(MODULE) ==> {
            &&& short == 0
            &&& *final(sim) == *old(sim)
        },
        row < NEED_COUNT && old(sim).modules.spec_enabled(MODULE) ==> {
            let need = needs_table()[row as int];
            let who_short = short_prefix(old(sim).people@, *tuning, need, old(sim).people@.len() as int);
            let before = old(sim).events@.len();
            &&& final(sim).wf()
            &&& final(sim).people@.len() == old(sim).people@.len()
            &&& forall|i: int| 0 <= i < old(sim).people@.len() ==> burned(
                old(sim).people@[i],
                #[trigger] final(sim).people@[i],
                cost_spec(*tuning, need, old(sim).people@[i].traits@),
                now,
            )
            &&& short == who_short.len()
            &&& final(sim).events@.len() == before + short
            &&& final(sim).events@.take(before as int) == old(sim).events@
            &&& forall|k: int| 0 <= k < short ==> is_shortfall_of(
                #[trigger] final(sim).events@[before + k],
                *old(sim),
                *tuning,
                need,
                now,
                who_short[k],
            )
            &&& final(sim).ports.burned_upkeep == old(sim).ports.burned_upkeep + purses(old(sim).people@)
                - purses(final(sim).people@)
            &&& final(sim).ports.paid_wages == old(sim).ports.paid_wages
            &&& final(sim).parties == old(sim).parties
            &&& final(sim).sites == old(sim).sites
            &&& final(sim).postings == old(sim).postings
            &&& final(sim).rates == old(sim).rates
            &&& final(sim).treasury == old(sim).treasury
            &&& final(sim).modules == old(sim).modules
            &&& final(sim).shared == old(sim).shared
            &&& final(sim).settlement == old(sim).settlement
            &&& final(sim).locations == old(sim).locations
            &&& final(sim).reckonings == old(sim).reckonings
            &&& final(sim).attention == old(sim).attention
            &&& final(sim).pause == old(sim).pause
            &&& final(sim).pauses == old(sim).pauses
        },
{
    let need = match need_at(row) {
        Some(need) => need,
        None => return 0,
    };
    if !sim.modules.enabled(MODULE) {
        return 0;
    }
    let ghost start = *sim;
    let ghost first = start.events@.len();
    proof { reveal_strlit("could not find "); reveal_strlit("g for "); reveal_strlit(" - "); }
    let n = sim.people.len();
    let mut short: usize = 0;
    for who in 0..n
        invariant
            n == start.people@.len(),
            sim.people@.len() == n,
            start.wf(),
            tuning.wf(),
            burnable(start, *tuning, row),
            row < NEED_COUNT,
            start.modules.spec_enabled(MODULE),
            need == needs_table()[row as int],
            sim.wf(),
            forall|i: int| 0 <= i < who ==> burned(
                start.people@[i],
                #[trigger] sim.people@[i],
                cost_spec(*tuning, need, start.people@[i].traits@),
                now,
            ),
            forall|i: int| who <= i < n ==> #[trigger] sim.people@[i] == start.people@[i],
            short == short_prefix(start.people@, *tuning, need, who as int).len(),
            short <= who,
            sim.events@.len() == first + short,
            sim.events@.take(first as int) == start.events@,
            forall|k: int| 0 <= k < short ==> is_shortfall_of(
                #[trigger] sim.events@[first + k],
                start,
                *tuning,
                need,
                now,
                short_prefix(start.people@, *tuning, need, who as int)[k],
            ),
            sim.ports.burned_upkeep == start.ports.burned_upkeep + purses(start.people@) - purses(sim.people@),
            sim.ports.burned_upkeep == start.ports.burned_upkeep + taken_prefix(start.people@, *tuning, need, who as int),
            sim.ports.paid_wages == start.ports.paid_wages,
            sim.parties == start.parties,
            sim.sites == start.sites,
            sim.postings == start.postings,
            sim.rates == start.rates,
            sim.treasury == start.treasury,
            sim.modules == start.modules,
            sim.shared == start.shared,
            sim.settlement == start.settlement,
            sim.locations == start.locations,
            sim.reckonings == start.reckonings,
            sim.attention == start.attention,
            sim.pause == start.pause,
            sim.pauses == start.pauses,
    {
        let ghost was = sim.people@[who as int];
        let ghost prior = sim.people@;
        let ghost prior_events = sim.events@;
        assert(was == start.people@[who as int]);
        assert(was.wf());
        let cost = cost_of(tuning, &need, sim.people[who].traits.as_slice());
        let here = sim.people[who].present;
        let held = sim.people[who].wallet;
        assert(taken_prefix(start.people@, *tuning, need, who + 1)
            == taken_prefix(start.people@, *tuning, need, who as int) + taken(was, cost as int));
        assert(i64::MIN <= start.ports.burned_upkeep + taken_prefix(start.people@, *tuning, need, who + 1) <= i64::MAX);
        assert(short_prefix(start.people@, *tuning, need, who + 1) == short_prefix(start.people@, *tuning, need, who as int)
            + if goes_short(was, cost as int) { seq![who] } else { Seq::<usize>::empty() });
        if !here || cost <= 0 {
            assert(short_prefix(start.people@, *tuning, need, who + 1) =~= short_prefix(start.people@, *tuning, need, who as int));
        } else if held >= cost {
            sim.people[who].wallet = held - cost;
            proof {
                lemma_purses_update(prior, who as int, sim.people@[who as int]);
                assert(sim.people@ == prior.update(who as int, sim.people@[who as int]));
            }
            sim.ports.burned_upkeep = sim.ports.burned_upkeep + cost;
            assert(short_prefix(start.people@, *tuning, need, who + 1) =~= short_prefix(start.people@, *tuning, need, who as int));
        } else {
            let owed = cost - held;
            let times = sim.people[who].shortfalls + 1;
            let d = sim.people[who].desperation;
            let line = rewritten(sim.people[who].origin, now, times);
            let mut note = String::from_str("could not find ");
            push_i64(&mut note, owed);
            note.append("g for ");
            note.append(need.label);
            note.append(" - ");
            note.append(line.as_str());
            sim.people[who].wallet = 0;
            proof {
                lemma_purses_update(prior, who as int, sim.people@[who as int]);
                assert(sim.people@ == prior.update(who as int, sim.people@[who as int]));
            }
            let ghost zeroed = sim.people@;
            sim.people[who].shortfalls = times;
            sim.people[who].desperation = if d + PRESS > DESPERATION_MAX { DESPERATION_MAX } else { d + PRESS };
            sim.people[who].source = line;
            proof {
                lemma_purses_update(zeroed, who as int, sim.people@[who as int]);
                assert(sim.people@ == zeroed.update(who as int, sim.people@[who as int]));
            }
            sim.ports.burned_upkeep = sim.ports.burned_upkeep + held;
            let tile = sim.tile_of(who);
            sim.emit(now, EventClass::UpkeepShortfall, who, tile, note);
            short = short + 1;
            proof {
                let sp = short_prefix(start.people@, *tuning, need, who + 1);
                assert(sp =~= short_prefix(start.people@, *tuning, need, who as int).push(who));
                assert(sim.events@.take(first as int) =~= start.events@) by {
                    assert(sim.events@.drop_last() == prior_events);
                    assert(sim.events@.take(first as int) =~= prior_events.take(first as int));
                }
                assert forall|k: int| 0 <= k < short implies is_shortfall_of(
                    #[trigger] sim.events@[first + k],
                    start,
                    *tuning,
                    need,
                    now,
                    sp[k],
                ) by {
                    if k < short - 1 {
                        assert(sim.events@[first + k] == prior_events[first + k]);
                    } else {
                        assert(sp[k] == who);
                        assert(note@ =~= shortfall_note(was, cost as int, need, now));
                    }
                }
            }
        }
        proof {
            assert forall|i: int| 0 <= i < sim.people@.len() implies (#[trigger] sim.people@[i]).wf() by {
                if i != who {
                    assert(sim.people@[i] == prior[i]);
                }
            }
        }
    }
    proof {
        assert(short_prefix(start.people@, *tuning, need, n as int) == short_prefix(start.people@, *tuning, need, start.people@.len() as int));
    }
    short
}


/// **Upkeep never overdraws**: after one interval of a need, a purse that
/// was not negative is still not negative, and holds no more than before.
pub proof fn lemma_burn_never_overdraws(before: Character, after: Character, cost: int, now: u64)
    requires
        burned(before, after, cost, now),
        before.wallet >= 0,
    ensures
        0 <= after.wallet <= before.wallet,
{
}

/// How many on a roll cannot meet their upkeep.
pub open spec fn short_count(sim: Sim, tuning: Tuning, roll: Seq<usize>) -> nat
    decreases roll.len(),
{
    if roll.len() == 0 {
        0
    } else {
        short_count(sim, tuning, roll.drop_last()) + if short_of(sim, tuning, roll.last()) { 1nat } else { 0nat }
    }
}

/// **The camp line's "short" figure is the roll filtered by `is_short`**:
/// for every roll, the count is the length of the roll kept to those who
/// cannot meet their upkeep.
pub proof fn lemma_short_count_is_the_filtered_roll(sim: Sim, tuning: Tuning, roll: Seq<usize>)
    ensures
        short_count(sim, tuning, roll) == roll.filter(|w: usize| short_of(sim, tuning, w)).len(),
    decreases roll.len(),
{
    reveal_with_fuel(Seq::<_>::filter, 1);
    if roll.len() > 0 {
        lemma_short_count_is_the_filtered_roll(sim, tuning, roll.drop_last());
    }
}

/// The state of the camp, in one line.
pub open spec fn camp_words(sim: Sim, tuning: Tuning) -> Seq<char> {
    nat_digits(roll_of(sim).len()) + " here - "@ + nat_digits(short_count(sim, tuning, roll_of(sim))) + " short - "@
        + int_digits(sim.treasury as int) + "g - "@ + int_digits(burn_per_day_of(sim, tuning)) + "g/d"@
}

/// Whether `w` stands somewhere inside `s`.
pub open spec fn holds_word(s: Seq<char>, w: Seq<char>) -> bool {
    exists|i: int| 0 <= i && i + w.len() <= s.len() && #[trigger] s.subrange(i, i + w.len()) == w
}

/// **The camp line estimates no flow**: for every world, it holds neither
/// "income" nor "net" — it is made of figures and four fixed pieces, none of
/// which has an `n` in it.
pub proof fn lemma_camp_line_names_no_income(sim: Sim, tuning: Tuning)
    ensures
        !holds_word(camp_words(sim, tuning), "income"@),
        !holds_word(camp_words(sim, tuning), "net"@),
{
    reveal_strlit(" here - ");
    reveal_strlit(" short - ");
    reveal_strlit("g - ");
    reveal_strlit("g/d");
    reveal_strlit("income");
    reveal_strlit("net");
    let here = nat_digits(roll_of(sim).len());
    let short = nat_digits(short_count(sim, tuning, roll_of(sim)));
    let held = int_digits(sim.treasury as int);
    let burns = int_digits(burn_per_day_of(sim, tuning));
    crate::text::lemma_spelled_in_digits(roll_of(sim).len() as int);
    crate::text::lemma_spelled_in_digits(short_count(sim, tuning, roll_of(sim)) as int);
    crate::text::lemma_spelled_in_digits(sim.treasury as int);
    crate::text::lemma_spelled_in_digits(burn_per_day_of(sim, tuning));
    let line = camp_words(sim, tuning);
    assert forall|k: int| 0 <= k < line.len() implies #[trigger] line[k] != 'n' by {
        let a = here;
        let b = a + " here - "@;
        let c = b + short;
        let d = c + " short - "@;
        let e = d + held;
        let f = e + "g - "@;
        let g = f + burns;
        assert(line == g + "g/d"@);
        if k >= g.len() {
            assert(line[k] == "g/d"@[k - g.len()]);
        } else if k >= f.len() {
            assert(line[k] == burns[k - f.len()]);
        } else if k >= e.len() {
            assert(line[k] == "g - "@[k - e.len()]);
        } else if k >= d.len() {
            assert(line[k] == held[k - d.len()]);
        } else if k >= c.len() {
            assert(line[k] == " short - "@[k - c.len()]);
        } else if k >= b.len() {
            assert(line[k] == short[k - b.len()]);
        } else if k >= a.len() {
            assert(line[k] == " here - "@[k - a.len()]);
        } else {
            assert(line[k] == here[k]);
        }
    }
    if holds_word(line, "income"@) {
        let i = choose|i: int| 0 <= i && i + 6 <= line.len() && #[trigger] line.subrange(i, i + 6) == "income"@;
        assert(line.subrange(i, i + 6)[1] == line[i + 1]);
    }
    if holds_word(line, "net"@) {
        let i = choose|i: int| 0 <= i && i + 3 <= line.len() && #[trigger] line.subrange(i, i + 3) == "net"@;
        assert(line.subrange(i, i + 3)[0] == line[i]);
    }
}

/// **The state of the camp, in one line**: who is here, who is short, what
/// the treasury holds and what the camp burns a day — every figure the same
/// per-character truth the burn reads, and no income figure, because none is
/// recorded to derive one from.
pub fn camp_line(lens: &Lens<'_>, tuning: &Tuning) -> (s: String)
    requires
        lens.world().wf(),
        tuning.wf(),
    ensures
        s@ == camp_words(lens.world(), *tuning),
{
    let roll = lens.roll();
    let ghost sim = lens.world();
    proof { crate::lens::lemma_roll(sim.people@, sim.people@.len() as int); }
    let here = roll.len();
    let mut short: usize = 0;
    for k in 0..here
        invariant
            here == roll@.len(),
            roll@ == roll_of(sim),
            sim == lens.world(),
            sim.wf(),
            tuning.wf(),
            short == short_count(sim, *tuning, roll@.take(k as int)),
            short <= k,
    {
        assert(roll@.take(k + 1).drop_last() =~= roll@.take(k as int));
        if is_short(lens, tuning, roll[k]) {
            short = short + 1;
        }
    }
    assert(roll@.take(here as int) =~= roll@);
    proof {
        reveal_strlit(" here - ");
        reveal_strlit(" short - ");
        reveal_strlit("g - ");
        reveal_strlit("g/d");
    }
    let mut s = String::new();
    push_u64(&mut s, here as u64);
    s.append(" here - ");
    push_u64(&mut s, short as u64);
    s.append(" short - ");
    push_i64(&mut s, lens.treasury());
    s.append("g - ");
    push_i64(&mut s, burn_per_day(lens, tuning));
    s.append("g/d");
    s
}

} // verus!

//! The world the simulation runs on: the board, the parties, the feed and the
//! purses, and the one dispatch every errand goes out through.

use vstd::prelude::*;
use crate::asks::{Postings, Rates};
use crate::attention::{Attention, Pause};
use crate::autonomy::Reckoning;
use crate::constants::Tuning;
use crate::people::{Character, Tile};
use crate::stores::{Shared, REGARD_BOUND};
use crate::traits::TaskType;

verus! {

/// The most people one registry holds.
pub const MAX_PEOPLE: usize = 1000;

/// The largest pot or wage the board and the ledger carry: a wage is weighed
/// as pull × wage × weight in 64 bits, and with the largest pull (100) and
/// weight (10 000) a wage much past this would overflow.
pub const GOLD_BOUND: i64 = 1_000_000_000_000;

/// One job: a site, and a row of its board.
#[derive(Clone, Copy, Debug, PartialEq, Eq, Structural)]
pub struct JobId {
    pub site: usize,
    pub slot: usize,
}

/// One row of a site's board.
#[derive(Clone, Copy, Debug)]
pub struct Quest {
    /// What the board calls it.
    pub name: &'static str,
    /// What kind of work it is.
    pub task: TaskType,
    /// What finishing it pays into the treasury.
    pub pot: i64,
    /// How many world-minutes of work it is.
    pub duration: u64,
}

/// What has become of one row.
#[derive(Clone, Copy, Debug, PartialEq, Eq, Structural)]
pub enum JobState {
    /// Nobody has it.
    Open,
    /// A party has claimed it and is on it.
    Claimed { by: usize },
    /// A party finished it.
    Done { by: usize },
}

impl JobState {
    /// Who holds the row, if anybody does.
    pub fn holder(self) -> (h: Option<usize>)
        ensures
            h == match self {
                JobState::Open => None::<usize>,
                JobState::Claimed { by } => Some(by),
                JobState::Done { by } => Some(by),
            },
    {
        match self {
            JobState::Open => None,
            JobState::Claimed { by } => Some(by),
            JobState::Done { by } => Some(by),
        }
    }
}

/// The open rows among the first `n` of a board, in board order.
pub open spec fn open_prefix(states: Seq<JobState>, n: int) -> Seq<usize>
    decreases n,
{
    if n <= 0 {
        Seq::empty()
    } else {
        open_prefix(states, n - 1) + if states[n - 1] is Open {
            seq![(n - 1) as usize]
        } else {
            Seq::empty()
        }
    }
}

/// A row is in the open prefix exactly when it is open and inside it.
pub proof fn lemma_open_prefix(states: Seq<JobState>, n: int)
    requires
        0 <= n <= states.len(),
        states.len() <= usize::MAX,
    ensures
        forall|k: int| 0 <= k < open_prefix(states, n).len() ==> {
            &&& (#[trigger] open_prefix(states, n)[k]) < n
            &&& states[open_prefix(states, n)[k] as int] is Open
        },
        forall|slot: usize| slot < n && states[slot as int] is Open ==> #[trigger] open_prefix(states, n).contains(slot),
        forall|a: int, b: int| 0 <= a < b < open_prefix(states, n).len() ==> open_prefix(states, n)[a] < open_prefix(states, n)[b],
    decreases n,
{
    if n > 0 {
        lemma_open_prefix(states, n - 1);
        let prev = open_prefix(states, n - 1);
        if states[n - 1] is Open {
            let cur = prev.push((n - 1) as usize);
            assert(open_prefix(states, n) =~= cur);
            assert forall|k: int| 0 <= k < cur.len() implies {
                &&& (#[trigger] cur[k]) < n
                &&& states[cur[k] as int] is Open
            } by {
                if k < prev.len() {
                    assert(cur[k] == prev[k]);
                }
            }
            assert forall|a: int, b: int| 0 <= a < b < cur.len() implies cur[a] < cur[b] by {
                assert(cur[a] == prev[a]);
                assert(prev[a] < n - 1);
                if b < prev.len() {
                    assert(cur[b] == prev[b]);
                }
            }
            assert forall|slot: usize| slot < n && states[slot as int] is Open implies
                #[trigger] open_prefix(states, n).contains(slot) by {
                if slot < n - 1 {
                    assert(prev.contains(slot));
                    let k = choose|k: int| 0 <= k < prev.len() && prev[k] == slot;
                    assert(open_prefix(states, n)[k] == slot);
                } else {
                    assert(open_prefix(states, n)[prev.len() as int] == slot);
                }
            }
        } else {
            assert(open_prefix(states, n) =~= prev);
            assert forall|slot: usize| slot < n && states[slot as int] is Open implies
                #[trigger] open_prefix(states, n).contains(slot) by {
                assert(prev.contains(slot));
            }
        }
    }
}

/// One named place on the map.
#[derive(Clone, Copy, Debug)]
pub struct Location {
    /// What the map calls it.
    pub name: &'static str,
    /// Where it stands.
    pub tile: Tile,
}

/// The first of the first `n` locations that stands on `tile`, if any.
pub open spec fn location_at(locations: Seq<Location>, tile: Tile, n: int) -> Option<usize>
    decreases n,
{
    if n <= 0 {
        None
    } else {
        match location_at(locations, tile, n - 1) {
            Some(i) => Some(i),
            None => if locations[n - 1].tile == tile { Some((n - 1) as usize) } else { None },
        }
    }
}

/// One quest site.
#[derive(Clone, Debug)]
pub struct Site {
    /// Which location of the map it stands on.
    pub location: usize,
    /// Its board, front first.
    pub quests: Vec<Quest>,
    /// What has become of each row.
    pub states: Vec<JobState>,
    /// The industry it stands for, if it is a camp works rather than a quest site.
    pub industry: Option<usize>,
}

impl Site {
    /// One state per row, and every pot inside the gold bound.
    pub open spec fn wf(&self) -> bool {
        &&& self.states@.len() == self.quests@.len()
        &&& forall|i: int| 0 <= i < self.quests@.len() ==> 0 <= #[trigger] self.quests@[i].pot <= GOLD_BOUND
    }

    /// The open rows, in board order.
    pub open spec fn spec_open_slots(&self) -> Seq<usize> {
        open_prefix(self.states@, self.states@.len() as int)
    }

    /// The quest at a row, if the row exists.
    pub open spec fn spec_quest(&self, slot: usize) -> Option<Quest> {
        if slot < self.quests@.len() { Some(self.quests@[slot as int]) } else { None }
    }

    /// The quest at a row, if the row exists.
    pub fn quest(&self, slot: usize) -> (q: Option<&Quest>)
        ensures
            match q {
                Some(r) => self.spec_quest(slot) == Some(*r),
                None => self.spec_quest(slot) is None,
            },
    {
        if slot < self.quests.len() {
            Some(&self.quests[slot])
        } else {
            None
        }
    }

    /// **The open rows**, in board order.
    pub fn open_slots(&self) -> (out: Vec<usize>)
        ensures
            out@ == self.spec_open_slots(),
    {
        let mut out: Vec<usize> = Vec::new();
        let n = self.states.len();
        for i in 0..n
            invariant
                n == self.states@.len(),
                out@ == open_prefix(self.states@, i as int),
        {
            if self.states[i] == JobState::Open {
                out.push(i);
            }
            assert(out@ =~= open_prefix(self.states@, i + 1));
        }
        out
    }
}

/// What a party is doing.
#[derive(Clone, Copy, Debug, PartialEq, Eq, Structural)]
pub enum Activity {
    /// Standing at home.
    Idle,
    /// On a job until a world-minute.
    Working { until: u64 },
    /// On somebody's doorstep until a world-minute.
    Visiting { until: u64 },
}

/// One person's one-person party: the only way anybody moves.
#[derive(Clone, Copy, Debug)]
pub struct Party {
    /// The name the map draws on the token.
    pub name: &'static str,
    /// Whose party it is, by registry index.
    pub member: usize,
    /// Where the token stands.
    pub tile: Tile,
    /// What it is doing.
    pub activity: Activity,
    /// The world-minute the last job's rest ends at.
    pub rested_until: u64,
    /// The posting whose job it is on, if it went for a wage.
    pub posting: Option<usize>,
}

/// The words a party's status is said in.
pub open spec fn status_words(a: Activity) -> Seq<char> {
    match a {
        Activity::Idle => "at home"@,
        Activity::Working { .. } => "working"@,
        Activity::Visiting { .. } => "visiting"@,
    }
}

impl Party {
    /// What the party is doing, in a word or two.
    pub fn status(&self) -> (s: &'static str)
        ensures
            s@ == status_words(self.activity),
    {
        match self.activity {
            Activity::Idle => "at home",
            Activity::Working { .. } => "working",
            Activity::Visiting { .. } => "visiting",
        }
    }
}

/// The kinds of occurrence the feed carries.
#[derive(Clone, Copy, Debug, PartialEq, Eq, Structural)]
pub enum EventClass {
    PostingMade,
    PostingWithdrawn,
    AskHeard,
    AskAgreed,
    AskDeclined,
    AskDropped,
    UpkeepShortfall,
    ActionStarted,
    Departed,
    Arrived,
    WorkBegan,
    QuestComplete,
    Returned,
}

/// One occurrence.
#[derive(Clone, Debug)]
pub struct Event {
    /// The world-minute it happened at.
    pub minute: u64,
    /// What kind of thing it was.
    pub class: EventClass,
    /// Whose it was, by party index.
    pub party: usize,
    /// Where it happened.
    pub tile: Tile,
    /// The named location it happened at, if it happened at one rather than
    /// on the road.
    pub location: Option<usize>,
    /// What the feed says.
    pub note: String,
}

/// Every gold port, totalled.
#[derive(Clone, Copy, Debug, PartialEq, Eq, Structural)]
pub struct Ports {
    /// Gold taken out of purses by upkeep.
    pub burned_upkeep: i64,
    /// Gold paid from the treasury to workers as wages.
    pub paid_wages: i64,
}

/// A switchable module of the simulation.
#[derive(Clone, Copy, Debug, PartialEq, Eq, Structural)]
pub enum Module {
    Autonomy,
    Asks,
    Needs,
    Settlement,
}

/// Which modules a world runs with.
#[derive(Clone, Copy, Debug, PartialEq, Eq, Structural)]
pub struct ModuleSet {
    pub autonomy: bool,
    pub asks: bool,
    pub needs: bool,
    pub settlement: bool,
}

impl ModuleSet {
    /// Whether a module is on.
    pub open spec fn spec_enabled(self, m: Module) -> bool {
        match m {
            Module::Autonomy => self.autonomy,
            Module::Asks => self.asks,
            Module::Needs => self.needs,
            Module::Settlement => self.settlement,
        }
    }

    /// Whether a module is on.
    #[verifier::when_used_as_spec(spec_enabled)]
    pub fn enabled(self, m: Module) -> (on: bool)
        ensures
            on == self.spec_enabled(m),
    {
        match m {
            Module::Autonomy => self.autonomy,
            Module::Asks => self.asks,
            Module::Needs => self.needs,
            Module::Settlement => self.settlement,
        }
    }

    /// Every module on.
    pub fn all() -> (s: ModuleSet)
        ensures
            forall|m: Module| s.spec_enabled(m),
    {
        ModuleSet { autonomy: true, asks: true, needs: true, settlement: true }
    }

    /// The same set with one module off.
    pub fn without(self, m: Module) -> (s: ModuleSet)
        ensures
            !s.spec_enabled(m),
            forall|o: Module| o != m ==> s.spec_enabled(o) == self.spec_enabled(o),
    {
        let mut s = self;
        match m {
            Module::Autonomy => s.autonomy = false,
            Module::Asks => s.asks = false,
            Module::Needs => s.needs = false,
            Module::Settlement => s.settlement = false,
        }
        s
    }
}

/// The camp works: which industries stand.
#[derive(Clone, Debug)]
pub struct Settlement {
    pub standing: Vec<bool>,
}

impl Settlement {
    /// Whether anything stands.
    pub open spec fn spec_any_standing(&self) -> bool {
        exists|i: int| 0 <= i < self.standing@.len() && self.standing@[i]
    }

    /// Whether anything stands.
    pub fn any_standing(&self) -> (b: bool)
        ensures
            b == self.spec_any_standing(),
    {
        let n = self.standing.len();
        for i in 0..n
            invariant
                n == self.standing@.len(),
                forall|j: int| 0 <= j < i ==> !self.standing@[j],
        {
            if self.standing[i] {
                return true;
            }
        }
        false
    }
}

/// The whole simulated world.
#[derive(Debug)]
pub struct Sim {
    /// Everyone in the registry.
    pub people: Vec<Character>,
    /// One party per person, in registry order.
    pub parties: Vec<Party>,
    /// Every named place on the map.
    pub locations: Vec<Location>,
    /// Every quest site.
    pub sites: Vec<Site>,
    /// The player's ledger.
    pub postings: Postings,
    /// What the settlement pays per task type.
    pub rates: Rates,
    /// What the treasury holds.
    pub treasury: i64,
    /// Everything that has happened, in firing order.
    pub events: Vec<Event>,
    /// Which modules run.
    pub modules: ModuleSet,
    /// Every gold port, totalled.
    pub ports: Ports,
    /// What everybody thinks of everybody.
    pub shared: Shared,
    /// The camp works.
    pub settlement: Settlement,
    /// The arithmetic behind every decision, kept beside it.
    pub reckonings: Vec<Reckoning>,
    /// What each class of occurrence does to the player's attention.
    pub attention: Attention,
    /// Why the world is stopped, if it is.
    pub pause: Option<Pause>,
    /// How many times the world has stopped itself.
    pub pauses: u64,
}

impl Sim {
    /// The bounds the world's arithmetic keeps.
    pub open spec fn wf(&self) -> bool {
        &&& self.parties@.len() == self.people@.len()
        &&& self.people@.len() <= MAX_PEOPLE
        &&& forall|i: int| 0 <= i < self.people@.len() ==> (#[trigger] self.people@[i]).wf()
        &&& forall|s: int| 0 <= s < self.sites@.len() ==> (#[trigger] self.sites@[s]).wf()
        &&& self.postings.wf()
        &&& self.shared.bounded(REGARD_BOUND as int)
    }

    /// The quest a job names, if there is one.
    pub open spec fn quest_of(&self, job: JobId) -> Option<Quest> {
        if job.site < self.sites@.len() {
            self.sites@[job.site as int].spec_quest(job.slot)
        } else {
            None
        }
    }

    /// The quest a job names, if there is one.
    pub fn quest(&self, job: JobId) -> (q: Option<Quest>)
        ensures
            q == self.quest_of(job),
    {
        if job.site < self.sites.len() {
            match self.sites[job.site].quest(job.slot) {
                Some(q) => Some(*q),
                None => None,
            }
        } else {
            None
        }
    }

    /// Whether a job's row stands open.
    pub open spec fn is_open(&self, job: JobId) -> bool {
        &&& job.site < self.sites@.len()
        &&& job.slot < self.sites@[job.site as int].states@.len()
        &&& self.sites@[job.site as int].states@[job.slot as int] is Open
    }

    /// The place a party stands, or the town's tile for somebody with no party.
    pub open spec fn spec_tile_of(&self, who: usize) -> Tile {
        if who < self.parties@.len() { self.parties@[who as int].tile } else { town_tile() }
    }

    /// The place a party stands, or the town's tile for somebody with no party.
    pub fn tile_of(&self, who: usize) -> (t: Tile)
        ensures
            t == self.spec_tile_of(who),
    {
        if who < self.parties.len() {
            self.parties[who].tile
        } else {
            Tile::new(TOWN_X, TOWN_Y)
        }
    }

    /// Whether this party stands idle at home.
    pub open spec fn spec_is_idle(&self, who: usize) -> bool {
        who < self.parties@.len() && self.parties@[who as int].activity == Activity::Idle
    }

    /// **The named location standing on `tile`**, the first in map order.
    pub fn location_of(&self, tile: Tile) -> (at: Option<usize>)
        ensures
            at == location_at(self.locations@, tile, self.locations@.len() as int),
    {
        let n = self.locations.len();
        let mut at: Option<usize> = None;
        for i in 0..n
            invariant
                n == self.locations@.len(),
                at == location_at(self.locations@, tile, i as int),
        {
            if at.is_none() && self.locations[i].tile == tile {
                at = Some(i);
            }
        }
        at
    }

    /// **Say something in the feed.** The one write the feed has.
    pub fn emit(&mut self, minute: u64, class: EventClass, party: usize, tile: Tile, note: String)
        ensures
            final(self).events@.len() == old(self).events@.len() + 1,
            final(self).events@.drop_last() == old(self).events@,
            final(self).events@.last().minute == minute,
            final(self).events@.last().class == class,
            final(self).events@.last().party == party,
            final(self).events@.last().tile == tile,
            final(self).events@.last().location == location_at(old(self).locations@, tile, old(self).locations@.len() as int),
            final(self).events@.last().note@ == note@,
            final(self).people == old(self).people,
            final(self).parties == old(self).parties,
            final(self).sites == old(self).sites,
            final(self).postings == old(self).postings,
            final(self).rates == old(self).rates,
            final(self).treasury == old(self).treasury,
            final(self).modules == old(self).modules,
            final(self).ports == old(self).ports,
            final(self).shared == old(self).shared,
            final(self).settlement == old(self).settlement,
            final(self).locations == old(self).locations,
            final(self).reckonings == old(self).reckonings,
            final(self).attention == old(self).attention,
            final(self).pause == old(self).pause,
            final(self).pauses == old(self).pauses,
    {
        let location = self.location_of(tile);
        self.events.push(Event { minute, class, party, tile, location, note });
        assert(self.events@.drop_last() =~= old(self).events@);
    }

    /// Keep the arithmetic behind a decision beside it.
    pub fn remember(&mut self, reckoning: Reckoning)
        ensures
            final(self).reckonings@ == old(self).reckonings@.push(reckoning),
            final(self).people == old(self).people,
            final(self).parties == old(self).parties,
            final(self).sites == old(self).sites,
            final(self).postings == old(self).postings,
            final(self).rates == old(self).rates,
            final(self).treasury == old(self).treasury,
            final(self).modules == old(self).modules,
            final(self).ports == old(self).ports,
            final(self).shared == old(self).shared,
            final(self).settlement == old(self).settlement,
            final(self).locations == old(self).locations,
            final(self).events == old(self).events,
            final(self).attention == old(self).attention,
            final(self).pause == old(self).pause,
            final(self).pauses == old(self).pauses,
    {
        self.reckonings.push(reckoning);
    }
}

/// Why a dispatch could not go out.
#[derive(Clone, Copy, Debug, PartialEq, Eq, Structural)]
pub enum Refusal {
    /// There is no such party.
    NoParty,
    /// The party is already out.
    Busy,
    /// The row is not open: it was never there, or somebody has it.
    RowGone,
    /// There is nobody to call on.
    NoHost,
}

/// `a + b`, held at the largest minute there is.
pub open spec fn later(a: u64, b: u64) -> u64 {
    if a + b > u64::MAX { u64::MAX } else { (a + b) as u64 }
}

fn add_minutes(a: u64, b: u64) -> (r: u64)
    ensures
        r == later(a, b),
{
    if a > u64::MAX - b { u64::MAX } else { a + b }
}

/// What the map calls the location site `site` stands on, or "somewhere"
/// for a site or a location the world does not hold.
pub open spec fn spec_site_name(sim: Sim, site: usize) -> Seq<char> {
    if site < sim.sites@.len() && sim.sites@[site as int].location < sim.locations@.len() {
        sim.locations@[sim.sites@[site as int].location as int].name@
    } else {
        "somewhere"@
    }
}

/// **What the map calls the place a site stands on.**
pub fn site_name(sim: &Sim, site: usize) -> (name: &'static str)
    ensures
        name@ == spec_site_name(*sim, site),
{
    if site < sim.sites.len() && sim.sites[site].location < sim.locations.len() {
        sim.locations[sim.sites[site].location].name
    } else {
        "somewhere"
    }
}

/// The board `after` is the board `before` with one row claimed by `who`.
pub open spec fn claimed_in(before: Seq<Site>, after: Seq<Site>, job: JobId, who: usize) -> bool {
    &&& after.len() == before.len()
    &&& forall|s: int| 0 <= s < before.len() && s != job.site ==> #[trigger] after[s] == before[s]
    &&& after[job.site as int].location == before[job.site as int].location
    &&& after[job.site as int].quests == before[job.site as int].quests
    &&& after[job.site as int].industry == before[job.site as int].industry
    &&& after[job.site as int].states@ == before[job.site as int].states@.update(
        job.slot as int,
        JobState::Claimed { by: who },
    )
}

/// Every field of a world but the board, the parties and the feed is the same.
pub open spec fn same_but_board_parties_feed(a: Sim, b: Sim) -> bool {
    &&& a.people == b.people
    &&& a.postings == b.postings
    &&& a.rates == b.rates
    &&& a.treasury == b.treasury
    &&& a.modules == b.modules
    &&& a.ports == b.ports
    &&& a.shared == b.shared
    &&& a.settlement == b.settlement
    &&& a.locations == b.locations
    &&& a.reckonings == b.reckonings
    &&& a.attention == b.attention
    &&& a.pause == b.pause
    &&& a.pauses == b.pauses
}

/// **Send a party to a job** — the one dispatch every errand goes out
/// through, the player's and the scorer's alike. The row is claimed for the
/// party and the party is out working until the job's duration has passed.
pub fn dispatch(sim: &mut Sim, now: u64, who: usize, job: JobId, motive: &str) -> (r: Result<(), Refusal>)
    requires
        old(sim).wf(),
    ensures
        r is Ok <==> (old(sim).spec_is_idle(who) && old(sim).is_open(job)),
        r is Err ==> *final(sim) == *old(sim),
        r is Ok ==> {
            let site = old(sim).sites@[job.site as int];
            let quest = site.quests@[job.slot as int];
            &&& same_but_board_parties_feed(*final(sim), *old(sim))
            &&& claimed_in(old(sim).sites@, final(sim).sites@, job, who)
            &&& final(sim).parties@ == old(sim).parties@.update(who as int, Party {
                activity: Activity::Working { until: later(now, quest.duration) },
                ..old(sim).parties@[who as int]
            })
            &&& final(sim).events@.len() == old(sim).events@.len() + 1
            &&& final(sim).events@.drop_last() == old(sim).events@
            &&& final(sim).events@.last().class == EventClass::Departed
            &&& final(sim).events@.last().party == who
        },
        final(sim).wf(),
{
    if who >= sim.parties.len() {
        return Err(Refusal::NoParty);
    }
    if sim.parties[who].activity != Activity::Idle {
        return Err(Refusal::Busy);
    }
    if job.site >= sim.sites.len() || job.slot >= sim.sites[job.site].states.len()
        || sim.sites[job.site].states[job.slot] != JobState::Open {
        return Err(Refusal::RowGone);
    }
    let quest = sim.sites[job.site].quests[job.slot];
    proof { assert(sim.sites@[job.site as int].wf()); }
    let until = add_minutes(now, quest.duration);
    sim.sites[job.site].states.set(job.slot, JobState::Claimed { by: who });
    let mut party = sim.parties[who];
    party.activity = Activity::Working { until };
    sim.parties.set(who, party);
    let tile = sim.parties[who].tile;
    proof {
        reveal_strlit("departed for ");
        reveal_strlit(" at ");
        reveal_strlit(" - ");
    }
    let mut note = String::from_str("departed for ");
    note.append(quest.name);
    note.append(" at ");
    note.append(site_name(sim, job.site));
    note.append(" - ");
    note.append(motive);
    sim.emit(now, EventClass::Departed, who, tile, note);
    Ok(())
}

/// **Send a party to call on somebody**: out visiting their doorstep for as
/// long as a visit lasts.
pub fn call_on(sim: &mut Sim, tuning: &Tuning, now: u64, who: usize, toward: usize, motive: &str) -> (r: Result<(), Refusal>)
    requires
        old(sim).wf(),
        tuning.wf(),
    ensures
        r is Ok <==> (old(sim).spec_is_idle(who) && toward < old(sim).people@.len() && toward != who),
        r is Err ==> *final(sim) == *old(sim),
        r is Ok ==> {
            &&& same_but_board_parties_feed(*final(sim), *old(sim))
            &&& final(sim).sites == old(sim).sites
            &&& final(sim).parties@ == old(sim).parties@.update(who as int, Party {
                activity: Activity::Visiting {
                    until: later(now, (if tuning.visit_minutes <= 0 { 0 } else { tuning.visit_minutes }) as u64),
                },
                ..old(sim).parties@[who as int]
            })
            &&& final(sim).events@.len() == old(sim).events@.len() + 1
            &&& final(sim).events@.drop_last() == old(sim).events@
            &&& final(sim).events@.last().class == EventClass::Departed
            &&& final(sim).events@.last().party == who
        },
        final(sim).wf(),
{
    if who >= sim.parties.len() {
        return Err(Refusal::NoParty);
    }
    if sim.parties[who].activity != Activity::Idle {
        return Err(Refusal::Busy);
    }
    if toward >= sim.people.len() || toward == who {
        return Err(Refusal::NoHost);
    }
    let stay: u64 = if tuning.visit_minutes <= 0 { 0 } else { tuning.visit_minutes as u64 };
    let until = add_minutes(now, stay);
    let mut party = sim.parties[who];
    party.activity = Activity::Visiting { until };
    sim.parties.set(who, party);
    let tile = sim.parties[who].tile;
    proof { reveal_strlit("called on "); reveal_strlit(" - "); }
    let mut note = String::from_str("called on ");
    note.append(sim.people[toward].name);
    note.append(" - ");
    note.append(motive);
    sim.emit(now, EventClass::Departed, who, tile, note);
    Ok(())
}

/// The town's own tile, where an occurrence with no party stands.
pub const TOWN_X: i64 = 18;
/// The town's own tile, where an occurrence with no party stands.
pub const TOWN_Y: i64 = 12;

/// The town's own tile.
pub open spec fn town_tile() -> Tile {
    Tile { x: TOWN_X, y: TOWN_Y }
}

} // verus!

//! The character registry: who lives in the settlement.

use vstd::prelude::*;
use crate::traits::{TraitId, MAX_CARRIED};

verus! {

/// The most desperation anybody can be pressed to.
pub const DESPERATION_MAX: i64 = 10;

/// How many people found the camp; the rest of the roster arrives later.
pub const FOUNDERS: usize = 4;

/// A tile of the map.
#[derive(Clone, Copy, Debug, PartialEq, Eq, Structural)]
pub struct Tile {
    pub x: i64,
    pub y: i64,
}

impl Tile {
    /// A tile by its coordinates.
    pub fn new(x: i64, y: i64) -> (t: Tile)
        ensures
            t.x == x,
            t.y == y,
    {
        Tile { x, y }
    }
}

/// One person in the settlement.
#[derive(Clone, Debug)]
pub struct Character {
    /// The id a log line names them by.
    pub id: &'static str,
    /// The name, as the sheets draw it.
    pub name: &'static str,
    /// Where they live.
    pub home: Tile,
    /// Who they are, what they want, and what they can do.
    pub traits: Vec<TraitId>,
    /// What they have, in gold.
    pub wallet: i64,
    /// How hard the need presses on them.
    pub desperation: i64,
    /// Why it presses, as it reads now.
    pub source: String,
    /// The line they came here with; every rewrite composes onto it.
    pub origin: &'static str,
    /// How many intervals of upkeep they have gone short.
    pub shortfalls: u64,
    /// Whether they are in the camp.
    pub present: bool,
    /// The world-minute they walk in.
    pub present_from: u64,
    /// The petition they are carrying, if any.
    pub active_petition: Option<usize>,
}

impl Character {
    /// The bounds every sheet keeps.
    pub open spec fn wf(&self) -> bool {
        &&& self.traits@.len() <= MAX_CARRIED
        &&& 0 <= self.desperation <= DESPERATION_MAX
    }
}

/// **Press somebody's need** by `by`, held inside `[0, DESPERATION_MAX]`.
pub fn press(person: &mut Character, by: i64)
    requires
        0 <= by <= DESPERATION_MAX,
        old(person).wf(),
    ensures
        final(person).desperation == (if old(person).desperation + by > DESPERATION_MAX {
            DESPERATION_MAX as int
        } else {
            old(person).desperation + by
        }),
        final(person).wf(),
        final(person).wallet == old(person).wallet,
        final(person).traits == old(person).traits,
        final(person).source == old(person).source,
        final(person).origin == old(person).origin,
        final(person).shortfalls == old(person).shortfalls,
        final(person).present == old(person).present,
        final(person).id == old(person).id,
        final(person).name == old(person).name,
{
    let next = person.desperation + by;
    person.desperation = if next > DESPERATION_MAX { DESPERATION_MAX } else { next };
}

/// The founding roster's purses, in registry order.
pub open spec fn roster_wallets() -> Seq<i64> {
    seq![6i64, 3, 12, 20, 5, 9, 7, 2, 10, 8]
}

/// The founding roster's desperation, in registry order.
pub open spec fn roster_desperation() -> Seq<i64> {
    seq![4i64, 5, 1, 2, 2, 3, 2, 4, 2, 3]
}

/// The founding roster's sheets, in registry order.
pub open spec fn roster_traits() -> Seq<Seq<TraitId>> {
    seq![
        seq![TraitId::Fight, TraitId::Greedy, TraitId::Indebted],
        seq![TraitId::Labor, TraitId::Loyal, TraitId::Caring],
        seq![TraitId::Scout, TraitId::Cold, TraitId::Restless],
        seq![TraitId::Labor, TraitId::Proud, TraitId::Vengeful],
        seq![TraitId::Craft, TraitId::Maker, TraitId::Loyal],
        seq![TraitId::Fight, TraitId::Renown, TraitId::Proud],
        seq![TraitId::Scout, TraitId::Caring, TraitId::Vengeful],
        seq![TraitId::Labor, TraitId::Fight, TraitId::Indebted],
        seq![TraitId::Craft, TraitId::Maker, TraitId::Craven],
        seq![TraitId::Fight, TraitId::Renown, TraitId::Restless],
    ]
}

/// The roster's ids, in registry order.
pub open spec fn roster_ids() -> Seq<Seq<char>> {
    seq!["bob"@, "steve"@, "alex"@, "tim"@, "rin"@, "goro"@, "hana"@, "ludo"@, "ines"@, "odd"@]
}

/// The roster's names, in registry order.
pub open spec fn roster_names() -> Seq<Seq<char>> {
    seq!["Bob"@, "Steve"@, "Alex"@, "Tim"@, "Rin"@, "Goro"@, "Hana"@, "Ludo"@, "Ines"@, "Odd"@]
}

/// Where the roster lives: two rows of tents, in registry order.
pub open spec fn roster_homes() -> Seq<Tile> {
    seq![
        Tile { x: 12, y: 15 },
        Tile { x: 16, y: 15 },
        Tile { x: 20, y: 15 },
        Tile { x: 24, y: 15 },
        Tile { x: 28, y: 15 },
        Tile { x: 6, y: 17 },
        Tile { x: 10, y: 17 },
        Tile { x: 14, y: 17 },
        Tile { x: 18, y: 17 },
        Tile { x: 22, y: 17 },
    ]
}

/// The line each of the roster came here with, in registry order.
pub open spec fn roster_sources() -> Seq<Seq<char>> {
    seq![
        "owes the collector at the toll-house, who counts days"@,
        "sends half of everything to a sister whose hands gave out"@,
        "has not slept a full month in one place since childhood"@,
        "keeps the tally, and is owed by half the camp"@,
        "cooks for ten on a fire built for three"@,
        "left home to be talked about, and nobody is talking yet"@,
        "came for her brother; stays exactly as long as he does"@,
        "works off a debt that was his father's before it was his"@,
        "mends what breaks, and would rather be far from what breaks it"@,
        "took the same job as Goro twice, and only one of them got paid"@,
    ]
}

/// The world-minute each of the roster walks into the camp.
pub open spec fn roster_arrivals() -> Seq<u64> {
    seq![0u64, 0, 0, 0, 600, 1260, 1920, 2580, 3240, 3960]
}

fn one(
    id: &'static str,
    name: &'static str,
    home: Tile,
    traits: Vec<TraitId>,
    wallet: i64,
    desperation: i64,
    origin: &'static str,
    present_from: u64,
) -> (c: Character)
    ensures
        c.id == id,
        c.name == name,
        c.home == home,
        c.traits@ == traits@,
        c.wallet == wallet,
        c.desperation == desperation,
        c.source@ == origin@,
        c.origin == origin,
        c.shortfalls == 0,
        c.present == (present_from == 0),
        c.present_from == present_from,
        c.active_petition is None,
{
    Character {
        id,
        name,
        home,
        traits,
        wallet,
        desperation,
        source: String::from_str(origin),
        origin,
        shortfalls: 0,
        present: present_from == 0,
        present_from,
        active_petition: None,
    }
}

/// **The founding band** and the six who join it, in registry order.
pub fn roster() -> (cast: Vec<Character>)
    ensures
        cast@.len() == 10,
        forall|i: int| 0 <= i < 10 ==> {
            &&& (#[trigger] cast@[i]).id@ == roster_ids()[i]
            &&& cast@[i].name@ == roster_names()[i]
            &&& cast@[i].home == roster_homes()[i]
            &&& cast@[i].origin@ == roster_sources()[i]
            &&& cast@[i].wallet == roster_wallets()[i]
            &&& cast@[i].desperation == roster_desperation()[i]
            &&& cast@[i].traits@ == roster_traits()[i]
            &&& cast@[i].present_from == roster_arrivals()[i]
            &&& cast@[i].present == (i < FOUNDERS)
            &&& cast@[i].shortfalls == 0
            &&& cast@[i].source@ == cast@[i].origin@
            &&& cast@[i].active_petition is None
            &&& cast@[i].wf()
        },
{
    let mut cast: Vec<Character> = Vec::new();
    cast.push(one("bob", "Bob", Tile::new(12, 15),
        vec![TraitId::Fight, TraitId::Greedy, TraitId::Indebted], 6, 4,
        "owes the collector at the toll-house, who counts days", 0));
    cast.push(one("steve", "Steve", Tile::new(16, 15),
        vec![TraitId::Labor, TraitId::Loyal, TraitId::Caring], 3, 5,
        "sends half of everything to a sister whose hands gave out", 0));
    cast.push(one("alex", "Alex", Tile::new(20, 15),
        vec![TraitId::Scout, TraitId::Cold, TraitId::Restless], 12, 1,
        "has not slept a full month in one place since childhood", 0));
    cast.push(one("tim", "Tim", Tile::new(24, 15),
        vec![TraitId::Labor, TraitId::Proud, TraitId::Vengeful], 20, 2,
        "keeps the tally, and is owed by half the camp", 0));
    cast.push(one("rin", "Rin", Tile::new(28, 15),
        vec![TraitId::Craft, TraitId::Maker, TraitId::Loyal], 5, 2,
        "cooks for ten on a fire built for three", 600));
    cast.push(one("goro", "Goro", Tile::new(6, 17),
        vec![TraitId::Fight, TraitId::Renown, TraitId::Proud], 9, 3,
        "left home to be talked about, and nobody is talking yet", 1260));
    cast.push(one("hana", "Hana", Tile::new(10, 17),
        vec![TraitId::Scout, TraitId::Caring, TraitId::Vengeful], 7, 2,
        "came for her brother; stays exactly as long as he does", 1920));
    cast.push(one("ludo", "Ludo", Tile::new(14, 17),
        vec![TraitId::Labor, TraitId::Fight, TraitId::Indebted], 2, 4,
        "works off a debt that was his father's before it was his", 2580));
    cast.push(one("ines", "Ines", Tile::new(18, 17),
        vec![TraitId::Craft, TraitId::Maker, TraitId::Craven], 10, 2,
        "mends what breaks, and would rather be far from what breaks it", 3240));
    cast.push(one("odd", "Odd", Tile::new(22, 17),
        vec![TraitId::Fight, TraitId::Renown, TraitId::Restless], 8, 3,
        "took the same job as Goro twice, and only one of them got paid", 3960));
    assert(cast@[0].traits@ =~= roster_traits()[0]);
    assert(cast@[1].traits@ =~= roster_traits()[1]);
    assert(cast@[2].traits@ =~= roster_traits()[2]);
    assert(cast@[3].traits@ =~= roster_traits()[3]);
    assert(cast@[4].traits@ =~= roster_traits()[4]);
    assert(cast@[5].traits@ =~= roster_traits()[5]);
    assert(cast@[6].traits@ =~= roster_traits()[6]);
    assert(cast@[7].traits@ =~= roster_traits()[7]);
    assert(cast@[8].traits@ =~= roster_traits()[8]);
    assert(cast@[9].traits@ =~= roster_traits()[9]);
    cast
}

/// **Nobody shares an id or a tent**: every two people of the roster have
/// different ids and different homes, and every source line says something.
pub proof fn lemma_roster_is_told_apart()
    ensures
        forall|i: int, j: int| 0 <= i < j < 10 ==> roster_ids()[i] != roster_ids()[j],
        forall|i: int, j: int| 0 <= i < j < 10 ==> roster_homes()[i] != roster_homes()[j],
        forall|i: int| 0 <= i < 10 ==> (#[trigger] roster_sources()[i]).len() > 0,
{
    reveal_strlit("bob");
    reveal_strlit("steve");
    reveal_strlit("alex");
    reveal_strlit("tim");
    reveal_strlit("rin");
    reveal_strlit("goro");
    reveal_strlit("hana");
    reveal_strlit("ludo");
    reveal_strlit("ines");
    reveal_strlit("odd");
    let ids = roster_ids();
    assert forall|i: int, j: int| 0 <= i < j < 10 implies ids[i] != ids[j] by {
        if ids[i] == ids[j] {
            assert(ids[i][0] == ids[j][0]);
            assert(ids[i].len() == ids[j].len());
            assert(ids[i][1] == ids[j][1]);
        }
    }
    reveal_strlit("owes the collector at the toll-house, who counts days");
    reveal_strlit("sends half of everything to a sister whose hands gave out");
    reveal_strlit("has not slept a full month in one place since childhood");
    reveal_strlit("keeps the tally, and is owed by half the camp");
    reveal_strlit("cooks for ten on a fire built for three");
    reveal_strlit("left home to be talked about, and nobody is talking yet");
    reveal_strlit("came for her brother; stays exactly as long as he does");
    reveal_strlit("works off a debt that was his father's before it was his");
    reveal_strlit("mends what breaks, and would rather be far from what breaks it");
    reveal_strlit("took the same job as Goro twice, and only one of them got paid");
}

} // verus!

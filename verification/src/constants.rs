//! The tuning drawer: every number the simulation's arithmetic reads.

use vstd::prelude::*;

verus! {

/// A drawer row that a data table can name instead of holding a number.
#[derive(Clone, Copy, Debug, PartialEq, Eq, Structural)]
pub enum Field {
    /// How many world-hours lie between two falls of the coin upkeep.
    UpkeepHours,
    /// What the coin upkeep costs before the carrier's multipliers.
    UpkeepCoin,
}

/// The largest magnitude any drawer row may hold. The drawer itself steps
/// every number inside the rate panel's range, `0..=RATE_MAX` (sixty); this
/// bound is far wider than anything the drawer can reach, and is where the
/// scorer's products (a weight times a wage, a pull, a regard) are sized to
/// stay inside 64 bits.
pub const TUNING_BOUND: i64 = 10_000;

/// The constants set a world runs at.
#[derive(Clone, Copy, Debug, PartialEq, Eq, Structural)]
pub struct Tuning {
    /// What one point of desperation adds to any paid work.
    pub need_weight: i64,
    /// What one point of a want's pressure adds.
    pub want_weight: i64,
    /// What one point of aptitude adds.
    pub apt_weight: i64,
    /// What a pot's pull adds, per ten gold.
    pub pot_weight: i64,
    /// What one point of felt regard adds.
    pub regard_weight: i64,
    /// What staying home scores: the floor every errand has to beat.
    pub idle_floor: i64,
    /// What not having rested since the last job takes away.
    pub rest_weight: i64,
    /// What being asked by name adds to a posting.
    pub ask_targeted: i64,
    /// How far a wage off the standing rate moves regard for the player.
    pub wage_regard: i64,
    /// The largest magnitude one regard edge may hold.
    pub regard_max: i64,
    /// World-hours between one character's rescorings.
    pub scorer_hours: i64,
    /// World-minutes between two characters' first rescorings.
    pub scorer_stagger: i64,
    /// World-hours of rest after a job.
    pub rest_hours: i64,
    /// World-days the alive sweep gives everybody.
    pub alive_days: i64,
    /// World-minutes a visit lasts.
    pub visit_minutes: i64,
    /// World-hours between two falls of the coin upkeep.
    pub upkeep_hours: i64,
    /// The coin upkeep's base cost.
    pub upkeep_coin: i64,
    /// Tenths of a wall-second a click-to-focus pulse marker lasts.
    pub pulse_tenths: i64,
    /// How many entries the feed view holds.
    pub feed_cap: i64,
}

/// The shipped constants set.
pub open spec fn shipped_set() -> Tuning {
    Tuning {
        need_weight: 2,
        want_weight: 2,
        apt_weight: 3,
        pot_weight: 1,
        regard_weight: 2,
        idle_floor: 3,
        rest_weight: 12,
        ask_targeted: 6,
        wage_regard: 1,
        regard_max: 10,
        scorer_hours: 4,
        scorer_stagger: 24,
        rest_hours: 6,
        alive_days: 3,
        visit_minutes: 45,
        upkeep_hours: 24,
        upkeep_coin: 5,
        pulse_tenths: 25,
        feed_cap: 10,
    }
}

/// Whether a value is a value the drawer can hold.
pub open spec fn in_drawer(v: i64) -> bool {
    -TUNING_BOUND <= v <= TUNING_BOUND
}

impl Tuning {
    /// Every row is one the drawer can hold.
    pub open spec fn wf(self) -> bool {
        &&& in_drawer(self.need_weight)
        &&& in_drawer(self.want_weight)
        &&& in_drawer(self.apt_weight)
        &&& in_drawer(self.pot_weight)
        &&& in_drawer(self.regard_weight)
        &&& in_drawer(self.idle_floor)
        &&& in_drawer(self.rest_weight)
        &&& in_drawer(self.ask_targeted)
        &&& in_drawer(self.wage_regard)
        &&& 0 <= self.regard_max <= TUNING_BOUND
        &&& in_drawer(self.scorer_hours)
        &&& in_drawer(self.scorer_stagger)
        &&& in_drawer(self.rest_hours)
        &&& in_drawer(self.alive_days)
        &&& in_drawer(self.visit_minutes)
        &&& in_drawer(self.upkeep_hours)
        &&& in_drawer(self.upkeep_coin)
        &&& in_drawer(self.pulse_tenths)
        &&& in_drawer(self.feed_cap)
    }

    /// The value a field names.
    pub open spec fn spec_field(self, field: Field) -> i64 {
        match field {
            Field::UpkeepHours => self.upkeep_hours,
            Field::UpkeepCoin => self.upkeep_coin,
        }
    }

    /// The shipped set.
    pub fn shipped() -> (t: Tuning)
        ensures
            t == shipped_set(),
            t.wf(),
    {
        Tuning {
            need_weight: 2,
            want_weight: 2,
            apt_weight: 3,
            pot_weight: 1,
            regard_weight: 2,
            idle_floor: 3,
            rest_weight: 12,
            ask_targeted: 6,
            wage_regard: 1,
            regard_max: 10,
            scorer_hours: 4,
            scorer_stagger: 24,
            rest_hours: 6,
            alive_days: 3,
            visit_minutes: 45,
            upkeep_hours: 24,
            upkeep_coin: 5,
            pulse_tenths: 25,
            feed_cap: 10,
        }
    }

    /// Read one drawer row.
    #[verifier::when_used_as_spec(spec_field)]
    pub fn field(self, field: Field) -> (v: i64)
        ensures
            v == self.spec_field(field),
    {
        match field {
            Field::UpkeepHours => self.upkeep_hours,
            Field::UpkeepCoin => self.upkeep_coin,
        }
    }

    /// The same set with one row moved.
    pub fn with(self, field: Field, value: i64) -> (t: Tuning)
        ensures
            t == (match field {
                Field::UpkeepHours => Tuning { upkeep_hours: value, ..self },
                Field::UpkeepCoin => Tuning { upkeep_coin: value, ..self },
            }),
            t.spec_field(field) == value,
            forall|other: Field| other != field ==> t.spec_field(other) == self.spec_field(other),
    {
        let mut t = self;
        match field {
            Field::UpkeepHours => t.upkeep_hours = value,
            Field::UpkeepCoin => t.upkeep_coin = value,
        }
        t
    }
}

} // verus!

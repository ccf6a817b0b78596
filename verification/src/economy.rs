//! **The economy**: what the settlement comes to over days, with the player
//! watching and with the player away — the outcome of one world, the one
//! median every reading of it uses, and the attentive player's policy, which
//! is stated in words before it is written in code.

use vstd::prelude::*;
use crate::asks::{post, posted, posted_for, task_at, task_index, Answer, Offer, Posting, Until, What, Who, RATE_MAX, RATE_STEP};
use crate::autonomy::{events_kept, same_people_and_money};
use crate::constants::Tuning;
use crate::lens::{home_in, roll_of, Lens};
use crate::sim::{Event, EventClass, JobId, Ports, Sim};
use crate::traits::{competence_at, competence_sum, TaskType, TraitId};

verus! {

/// **Who is at the wheel.**
#[derive(Clone, Copy, Debug, PartialEq, Eq, Structural)]
pub enum Player {
    /// Nobody: no posting is made, no rate is moved, nothing is built.
    Idle,
    /// A scripted attentive player, applied once a world-day. Its policy has
    /// three rules; the first, building an industry when the treasury can
    /// pay for it, needs the settlement's industries, which this library
    /// does not hold, so `attend` carries out the other two: post the
    /// best-fitting open job to everybody standing idle, at the standing
    /// rate; and raise the most-refused rate by the panel's step when more
    /// named asks were declined since yesterday than agreed to.
    Attentive,
}

/// What one world came to.
#[derive(Clone, Debug)]
pub struct Outcome {
    /// Every present person's purse at the end, in registry order.
    pub wallets: Vec<i64>,
    /// And their desperation.
    pub desperation: Vec<i64>,
    /// What the treasury holds.
    pub treasury: i64,
    /// How many intervals were gone short over the whole run.
    pub shortfalls: u64,
    /// Who went short first, by registry index.
    pub first_short: Option<usize>,
    /// Every gold port, totalled.
    pub ports: Ports,
    /// What the wallets opened holding.
    pub opening_wallets: i64,
    /// What the treasury and every purse hold at the end.
    pub holders: i64,
    /// How many jobs and shifts were completed.
    pub completed: usize,
    /// Whether anything was built by the end.
    pub built: bool,
}

/// How many values of a list are at most `v`.
pub open spec fn count_le(s: Seq<i64>, v: int) -> nat
    decreases s.len(),
{
    if s.len() == 0 {
        0
    } else {
        count_le(s.drop_last(), v) + if s.last() <= v { 1nat } else { 0nat }
    }
}

/// How many values of a list are below `v`.
pub open spec fn count_lt(s: Seq<i64>, v: int) -> nat
    decreases s.len(),
{
    if s.len() == 0 {
        0
    } else {
        count_lt(s.drop_last(), v) + if s.last() < v { 1nat } else { 0nat }
    }
}

/// **`m` is the low median of a non-empty list**: a value of it, with no
/// more than half the list (rounded down, less one) below it and more than
/// that at or below it — the middle of the sorted list, taking the lower of
/// the two middles on an even count.
pub open spec fn is_low_median(s: Seq<i64>, m: i64) -> bool {
    &&& s.contains(m)
    &&& count_lt(s, m as int) <= (s.len() - 1) / 2
    &&& (s.len() - 1) / 2 < count_le(s, m as int)
}

proof fn lemma_count_bounds(s: Seq<i64>, v: int)
    ensures
        count_lt(s, v) <= count_le(s, v) <= s.len(),
    decreases s.len(),
{
    if s.len() > 0 {
        lemma_count_bounds(s.drop_last(), v);
    }
}

proof fn lemma_count_apart(s: Seq<i64>, a: int, b: int)
    requires
        a < b,
    ensures
        count_le(s, a) <= count_lt(s, b),
    decreases s.len(),
{
    if s.len() > 0 {
        lemma_count_apart(s.drop_last(), a, b);
    }
}

proof fn lemma_count_nothing_between(s: Seq<i64>, a: int, b: int)
    requires
        forall|j: int| 0 <= j < s.len() ==> (s[j] <= a <==> s[j] < b),
    ensures
        count_le(s, a) == count_lt(s, b),
    decreases s.len(),
{
    if s.len() > 0 {
        let r = s.drop_last();
        assert forall|j: int| 0 <= j < r.len() implies (r[j] <= a <==> r[j] < b) by {
            assert(r[j] == s[j]);
        }
        lemma_count_nothing_between(r, a, b);
        assert(s.last() == s[s.len() - 1]);
    }
}

proof fn lemma_count_everything(s: Seq<i64>, v: int)
    requires
        forall|j: int| 0 <= j < s.len() ==> s[j] <= v,
    ensures
        count_le(s, v) == s.len(),
    decreases s.len(),
{
    if s.len() > 0 {
        let r = s.drop_last();
        assert forall|j: int| 0 <= j < r.len() implies r[j] <= v by {
            assert(r[j] == s[j]);
        }
        lemma_count_everything(r, v);
        assert(s.last() == s[s.len() - 1]);
    }
}

proof fn lemma_something_below(s: Seq<i64>, b: int)
    requires
        count_lt(s, b) > 0,
    ensures
        exists|j: int| 0 <= j < s.len() && s[j] < b,
    decreases s.len(),
{
    let r = s.drop_last();
    if s.last() < b {
        assert(s[s.len() - 1] < b);
    } else {
        lemma_something_below(r, b);
        let j = choose|j: int| 0 <= j < r.len() && r[j] < b;
        assert(s[j] == r[j]);
    }
}

proof fn lemma_largest_below(s: Seq<i64>, b: int) -> (top: int)
    requires
        exists|j: int| 0 <= j < s.len() && s[j] < b,
    ensures
        0 <= top < s.len(),
        s[top] < b,
        forall|i: int| 0 <= i < s.len() && s[i] < b ==> s[i] <= s[top],
    decreases s.len(),
{
    let r = s.drop_last();
    let last = s.len() - 1;
    assert(s[last] == s.last());
    if exists|j: int| 0 <= j < r.len() && r[j] < b {
        let t = lemma_largest_below(r, b);
        assert(s[t] == r[t]);
        assert forall|i: int| 0 <= i < r.len() && s[i] < b implies s[i] <= s[t] by {
            assert(s[i] == r[i]);
        }
        if s[last] < b && s[last] > s[t] {
            last
        } else {
            t
        }
    } else {
        assert forall|i: int| 0 <= i < s.len() && s[i] < b implies i == last by {
            if i < last {
                assert(s[i] == r[i]);
            }
        }
        let j = choose|j: int| 0 <= j < s.len() && s[j] < b;
        assert(j == last);
        last
    }
}

/// **A list has one low median**: two values that both are the low median
/// of the same list are the same value.
pub proof fn lemma_low_median_unique(s: Seq<i64>, a: i64, b: i64)
    requires
        s.len() > 0,
        is_low_median(s, a),
        is_low_median(s, b),
    ensures
        a == b,
{
    if a < b {
        lemma_count_apart(s, a as int, b as int);
    } else if b < a {
        lemma_count_apart(s, b as int, a as int);
    }
}

fn count_at_most(values: &[i64], v: i64) -> (c: usize)
    ensures
        c == count_le(values@, v as int),
{
    let n = values.len();
    let mut c: usize = 0;
    for i in 0..n
        invariant
            n == values@.len(),
            c == count_le(values@.take(i as int), v as int),
            c <= i,
    {
        assert(values@.take(i + 1).drop_last() =~= values@.take(i as int));
        if values[i] <= v {
            c = c + 1;
        }
    }
    assert(values@.take(n as int) =~= values@);
    c
}

/// **The middle value of a list, by the low median on an even count** — one
/// rule, so two readings of one sweep are one number. An empty list's
/// median is nothing.
pub fn median(values: &[i64]) -> (m: i64)
    ensures
        values@.len() == 0 ==> m == 0,
        values@.len() > 0 ==> is_low_median(values@, m),
{
    let n = values.len();
    if n == 0 {
        return 0;
    }
    let k = (n - 1) / 2;
    let mut found = false;
    let mut best: i64 = 0;
    for i in 0..n
        invariant
            n == values@.len(),
            n > 0,
            k == (n - 1) / 2,
            found ==> values@.contains(best) && count_le(values@, best as int) > k,
            forall|j: int| 0 <= j < i && count_le(values@, values@[j] as int) > k ==> found && best <= #[trigger] values@[j],
    {
        let v = values[i];
        let c = count_at_most(values, v);
        if c > k && (!found || v < best) {
            found = true;
            best = v;
        }
    }
    proof {
        let s = values@;
        assert(s[0] < i64::MAX as int + 1);
        let top = lemma_largest_below(s, i64::MAX as int + 1);
        lemma_count_everything(s, s[top] as int);
        assert(found);
        lemma_count_bounds(s, best as int);
        if count_lt(s, best as int) > k {
            lemma_something_below(s, best as int);
            let below = lemma_largest_below(s, best as int);
            assert forall|j: int| 0 <= j < s.len() implies (s[j] <= s[below] <==> s[j] < best) by {}
            lemma_count_nothing_between(s, s[below] as int, best as int);
            assert(best <= s[below]);
        }
    }
    best
}

impl Outcome {
    /// **The median purse** over the people who are in the camp.
    pub fn median_wallet(&self) -> (m: i64)
        ensures
            self.wallets@.len() == 0 ==> m == 0,
            self.wallets@.len() > 0 ==> is_low_median(self.wallets@, m),
    {
        median(self.wallets.as_slice())
    }

    /// **The median desperation** over the people who are in the camp.
    pub fn median_desperation(&self) -> (m: i64)
        ensures
            self.desperation@.len() == 0 ==> m == 0,
            self.desperation@.len() > 0 ==> is_low_median(self.desperation@, m),
    {
        median(self.desperation.as_slice())
    }
}


/// How many entries of the feed are of one class.
pub open spec fn count_class(events: Seq<Event>, class: EventClass) -> nat
    decreases events.len(),
{
    if events.len() == 0 {
        0
    } else {
        count_class(events.drop_last(), class) + if events.last().class == class { 1nat } else { 0nat }
    }
}

fn count_of_class(events: &[Event], class: EventClass) -> (n: usize)
    ensures
        n == count_class(events@, class),
{
    let len = events.len();
    let mut n: usize = 0;
    for i in 0..len
        invariant
            len == events@.len(),
            n == count_class(events@.take(i as int), class),
            n <= i,
    {
        assert(events@.take(i + 1).drop_last() =~= events@.take(i as int));
        if events[i].class == class {
            n = n + 1;
        }
    }
    assert(events@.take(len as int) =~= events@);
    n
}

/// **How many named asks have been agreed to and refused so far**, as the
/// feed records them.
pub fn tally(sim: &Sim) -> (t: (usize, usize))
    ensures
        t.0 == count_class(sim.events@, EventClass::AskAgreed),
        t.1 == count_class(sim.events@, EventClass::AskDeclined),
{
    let agreed = count_of_class(sim.events.as_slice(), EventClass::AskAgreed);
    let declined = count_of_class(sim.events.as_slice(), EventClass::AskDeclined);
    (agreed, declined)
}

/// Whether anybody has declined a posting.
pub open spec fn refused(p: Posting) -> bool {
    exists|i: int| 0 <= i < p.answered@.len() && p.answered@[i].1 is Declined
}

/// Whether a posting is a refused ask for one job of the kind of work in slot `t`.
pub open spec fn refused_for(p: Posting, sim: Sim, t: int) -> bool {
    &&& refused(p)
    &&& match p.what {
        What::Job(job) => match sim.quest_of(job) {
            Some(quest) => task_index(quest.task) == t,
            None => false,
        },
        _ => false,
    }
}

/// How many postings of a ledger run were refused for the kind of work in slot `t`.
pub open spec fn refusals(rows: Seq<Posting>, sim: Sim, t: int) -> nat
    decreases rows.len(),
{
    if rows.len() == 0 {
        0
    } else {
        refusals(rows.drop_last(), sim, t) + if refused_for(rows.last(), sim, t) { 1nat } else { 0nat }
    }
}

/// The kind of work the standing postings have been refused on most: the
/// last of the kinds that tie for most, or none when nothing was refused.
pub open spec fn most_refused_of(sim: Sim) -> Option<TaskType> {
    let c0 = refusals(sim.postings@, sim, 0);
    let c1 = refusals(sim.postings@, sim, 1);
    let c2 = refusals(sim.postings@, sim, 2);
    let c3 = refusals(sim.postings@, sim, 3);
    let m01 = if c0 > c1 { c0 } else { c1 };
    let m23 = if c2 > c3 { c2 } else { c3 };
    let m = if m01 > m23 { m01 } else { m23 };
    if m == 0 {
        None
    } else if c3 == m {
        Some(task_at(3))
    } else if c2 == m {
        Some(task_at(2))
    } else if c1 == m {
        Some(task_at(1))
    } else {
        Some(task_at(0))
    }
}

/// Whether somebody said no to posting `p`: some answer on it is a decline.
pub open spec fn has_a_decline(p: Posting) -> bool {
    exists|i: int| 0 <= i < p.answered@.len() && (#[trigger] p.answered@[i]).1 matches Answer::Declined { .. }
}

proof fn lemma_refusals_need_a_decline(rows: Seq<Posting>, sim: Sim, t: int)
    ensures
        refusals(rows, sim, t) > 0 ==> exists|k: int| 0 <= k < rows.len() && {
            &&& has_a_decline(#[trigger] rows[k])
            &&& rows[k].what matches What::Job(job) && sim.quest_of(job) matches Some(q) && task_index(q.task) == t
        },
    decreases rows.len(),
{
    if rows.len() > 0 {
        lemma_refusals_need_a_decline(rows.drop_last(), sim, t);
        if refusals(rows.drop_last(), sim, t) > 0 {
            let k = choose|k: int| 0 <= k < rows.drop_last().len() && {
                &&& has_a_decline(#[trigger] rows.drop_last()[k])
                &&& rows.drop_last()[k].what matches What::Job(job) && sim.quest_of(job) matches Some(q) && task_index(q.task) == t
            };
            assert(rows[k] == rows.drop_last()[k]);
        } else if refused_for(rows.last(), sim, t) {
            let last = rows.len() - 1;
            assert(rows[last] == rows.last());
            let i = choose|i: int| 0 <= i < rows.last().answered@.len() && rows.last().answered@[i].1 is Declined;
            assert(rows.last().answered@[i].1 matches Answer::Declined { .. });
        }
    }
}

proof fn lemma_refusals_skip_a_posting_nobody_declined(rows: Seq<Posting>, p: Posting, sim: Sim, t: int)
    requires
        !has_a_decline(p),
    ensures
        refusals(rows.push(p), sim, t) == refusals(rows, sim, t),
{
    assert(rows.push(p).drop_last() =~= rows);
    if refused(p) {
        let i = choose|i: int| 0 <= i < p.answered@.len() && p.answered@[i].1 is Declined;
        assert(p.answered@[i].1 matches Answer::Declined { .. });
    }
}

/// **Only a decline is a refusal**: when the kind of work refused most is
/// `t`, some posting for a job of kind `t` was declined by somebody; so on a
/// ledger where every answer is an agreement, nothing is refused most.
pub proof fn lemma_most_refused_was_declined(sim: Sim)
    ensures
        most_refused_of(sim) matches Some(t) ==> exists|k: int| 0 <= k < sim.postings@.len() && {
            &&& has_a_decline(#[trigger] sim.postings@[k])
            &&& sim.postings@[k].what matches What::Job(job) && sim.quest_of(job) matches Some(q) && q.task == t
        },
        (forall|k: int, i: int| 0 <= k < sim.postings@.len() && 0 <= i < sim.postings@[k].answered@.len()
            ==> (#[trigger] sim.postings@[k].answered@[i]).1 is Agreed) ==> most_refused_of(sim) is None,
{
    let rows = sim.postings@;
    lemma_refusals_need_a_decline(rows, sim, 0);
    lemma_refusals_need_a_decline(rows, sim, 1);
    lemma_refusals_need_a_decline(rows, sim, 2);
    lemma_refusals_need_a_decline(rows, sim, 3);
    assert forall|u: TaskType, t: TaskType| #[trigger] task_index(u) == #[trigger] task_index(t) implies u == t by {}
    if forall|k: int, i: int| 0 <= k < rows.len() && 0 <= i < rows[k].answered@.len()
        ==> (#[trigger] rows[k].answered@[i]).1 is Agreed {
        assert forall|k: int| 0 <= k < rows.len() implies !has_a_decline(#[trigger] rows[k]) by {
            if has_a_decline(rows[k]) {
                let i = choose|i: int| 0 <= i < rows[k].answered@.len() && (#[trigger] rows[k].answered@[i]).1 matches Answer::Declined { .. };
                assert(rows[k].answered@[i].1 is Agreed);
            }
        }
    }
}

/// **A posting nobody declined moves nothing**: two worlds on the same
/// board whose ledgers differ by one posting on which no answer is a
/// decline have the same kind of work refused most.
pub proof fn lemma_an_agreed_posting_changes_no_refusal(a: Sim, b: Sim, p: Posting)
    requires
        a.sites == b.sites,
        b.postings@ == a.postings@.push(p),
        forall|i: int| 0 <= i < p.answered@.len() ==> (#[trigger] p.answered@[i]).1 is Agreed,
    ensures
        most_refused_of(b) == most_refused_of(a),
{
    assert(!has_a_decline(p)) by {
        if has_a_decline(p) {
            let i = choose|i: int| 0 <= i < p.answered@.len() && (#[trigger] p.answered@[i]).1 matches Answer::Declined { .. };
            assert(p.answered@[i].1 is Agreed);
        }
    }
    lemma_refusals_same_board(a.postings@, a, b, 0);
    lemma_refusals_same_board(a.postings@, a, b, 1);
    lemma_refusals_same_board(a.postings@, a, b, 2);
    lemma_refusals_same_board(a.postings@, a, b, 3);
    lemma_refusals_skip_a_posting_nobody_declined(a.postings@, p, b, 0);
    lemma_refusals_skip_a_posting_nobody_declined(a.postings@, p, b, 1);
    lemma_refusals_skip_a_posting_nobody_declined(a.postings@, p, b, 2);
    lemma_refusals_skip_a_posting_nobody_declined(a.postings@, p, b, 3);
}

proof fn lemma_refusals_same_board(rows: Seq<Posting>, a: Sim, b: Sim, t: int)
    requires
        a.sites == b.sites,
    ensures
        refusals(rows, a, t) == refusals(rows, b, t),
    decreases rows.len(),
{
    if rows.len() > 0 {
        lemma_refusals_same_board(rows.drop_last(), a, b, t);
    }
}

fn was_refused(p: &Posting) -> (b: bool)
    ensures
        b == refused(*p),
{
    let n = p.answered.len();
    for i in 0..n
        invariant
            n == p.answered@.len(),
            forall|j: int| 0 <= j < i ==> !(p.answered@[j].1 is Declined),
    {
        match &p.answered[i].1 {
            Answer::Declined { .. } => return true,
            Answer::Agreed { .. } => {},
        }
    }
    false
}

/// **Which task type the standing postings have been refused on most.**
pub fn most_refused(sim: &Sim) -> (t: Option<TaskType>)
    ensures
        t == most_refused_of(*sim),
{
    let rows = sim.postings.all();
    let n = rows.len();
    let mut c0: usize = 0;
    let mut c1: usize = 0;
    let mut c2: usize = 0;
    let mut c3: usize = 0;
    for i in 0..n
        invariant
            n == rows@.len(),
            rows@ == sim.postings@,
            c0 == refusals(rows@.take(i as int), *sim, 0),
            c1 == refusals(rows@.take(i as int), *sim, 1),
            c2 == refusals(rows@.take(i as int), *sim, 2),
            c3 == refusals(rows@.take(i as int), *sim, 3),
            c0 + c1 + c2 + c3 <= i,
    {
        assert(rows@.take(i + 1).drop_last() =~= rows@.take(i as int));
        let p = &rows[i];
        if was_refused(p) {
            match p.what {
                What::Job(job) => {
                    match sim.quest(job) {
                        Some(quest) => {
                            match quest.task {
                                TaskType::Fight => c0 = c0 + 1,
                                TaskType::Labor => c1 = c1 + 1,
                                TaskType::Scout => c2 = c2 + 1,
                                TaskType::Craft => c3 = c3 + 1,
                            }
                        },
                        None => {},
                    }
                },
                _ => {},
            }
        }
    }
    assert(rows@.take(n as int) =~= rows@);
    let m01 = if c0 > c1 { c0 } else { c1 };
    let m23 = if c2 > c3 { c2 } else { c3 };
    let m = if m01 > m23 { m01 } else { m23 };
    if m == 0 {
        None
    } else if c3 == m {
        Some(TaskType::Craft)
    } else if c2 == m {
        Some(TaskType::Scout)
    } else if c1 == m {
        Some(TaskType::Labor)
    } else {
        Some(TaskType::Fight)
    }
}

/// One step of the front-first search for the best fit: a later candidate
/// replaces the best so far only when it fits strictly better.
pub open spec fn fit_step(best: Option<(i64, JobId, TaskType)>, c: (i64, JobId, TaskType)) -> Option<(i64, JobId, TaskType)> {
    match best {
        None => Some(c),
        Some(b) => if c.0 > b.0 { Some(c) } else { best },
    }
}

/// The best of a run of candidates, front first on a tie.
pub open spec fn best_in(cands: Seq<(i64, JobId, TaskType)>) -> Option<(i64, JobId, TaskType)>
    decreases cands.len(),
{
    if cands.len() == 0 {
        None
    } else {
        fit_step(best_in(cands.drop_last()), cands.last())
    }
}

/// Whether a standing posting already names `who` for this job.
pub open spec fn posted_somewhere(sim: Sim, who: usize, job: JobId) -> bool {
    exists|i: int| 0 <= i < sim.postings@.len() && posted_for(sim.postings@[i], sim, Who::Person(who), job)
}

/// What one open row offers `who`: its fit, the job and its kind of work —
/// unless it has no quest or is already posted to them.
pub open spec fn offer_at(sim: Sim, who: usize, carried: Seq<TraitId>, site: usize, slot: usize) -> Seq<(i64, JobId, TaskType)> {
    match sim.sites@[site as int].spec_quest(slot) {
        None => Seq::empty(),
        Some(q) => if posted_somewhere(sim, who, JobId { site, slot }) {
            Seq::empty()
        } else {
            seq![(competence_sum(q.task, carried) as i64, JobId { site, slot }, q.task)]
        },
    }
}

/// What a run of one site's open rows offers `who`, in board order.
pub open spec fn site_offers(sim: Sim, who: usize, carried: Seq<TraitId>, site: usize, open: Seq<usize>) -> Seq<(i64, JobId, TaskType)>
    decreases open.len(),
{
    if open.len() == 0 {
        Seq::empty()
    } else {
        site_offers(sim, who, carried, site, open.drop_last()) + offer_at(sim, who, carried, site, open.last())
    }
}

/// What the first `n` sites offer `who` — never an industry's standing
/// slot, which pays its own wage and is not postable.
pub open spec fn board_offers(sim: Sim, who: usize, carried: Seq<TraitId>, n: int) -> Seq<(i64, JobId, TaskType)>
    decreases n,
{
    if n <= 0 {
        Seq::empty()
    } else {
        board_offers(sim, who, carried, n - 1) + if sim.sites@[n - 1].industry is Some {
            Seq::empty()
        } else {
            site_offers(sim, who, carried, (n - 1) as usize, sim.sites@[n - 1].spec_open_slots())
        }
    }
}

/// The open job `who` fits best, and its kind of work.
pub open spec fn best_fit_of(sim: Sim, who: usize) -> Option<(JobId, TaskType)> {
    if who >= sim.people@.len() {
        None
    } else {
        match best_in(board_offers(sim, who, sim.people@[who as int].traits@, sim.sites@.len() as int)) {
            None => None,
            Some(b) => Some((b.1, b.2)),
        }
    }
}

/// **The best of a run is the first of the best**: there is a best exactly
/// when there is a candidate, it is one of them, nothing fits better, and
/// everything before it fits worse.
pub proof fn lemma_best_in(cands: Seq<(i64, JobId, TaskType)>)
    ensures
        best_in(cands) is None <==> cands.len() == 0,
        best_in(cands) matches Some(b) ==> exists|i: int| {
            &&& 0 <= i < cands.len()
            &&& #[trigger] cands[i] == b
            &&& forall|j: int| 0 <= j < cands.len() ==> (#[trigger] cands[j]).0 <= b.0
            &&& forall|j: int| 0 <= j < i ==> (#[trigger] cands[j]).0 < b.0
        },
    decreases cands.len(),
{
    if cands.len() > 0 {
        let r = cands.drop_last();
        let x = cands.last();
        let last = cands.len() - 1;
        assert(cands[last] == x);
        lemma_best_in(r);
        match best_in(r) {
            None => {
                assert(cands[last] == best_in(cands).unwrap());
            },
            Some(b) => {
                let i = choose|i: int| {
                    &&& 0 <= i < r.len()
                    &&& #[trigger] r[i] == b
                    &&& forall|j: int| 0 <= j < r.len() ==> (#[trigger] r[j]).0 <= b.0
                    &&& forall|j: int| 0 <= j < i ==> (#[trigger] r[j]).0 < b.0
                };
                assert forall|j: int| 0 <= j < r.len() implies #[trigger] cands[j] == r[j] by {}
                if x.0 > b.0 {
                    assert forall|j: int| 0 <= j < cands.len() implies (#[trigger] cands[j]).0 <= x.0 by {
                        if j < last {
                            assert(cands[j] == r[j]);
                        }
                    }
                    assert forall|j: int| 0 <= j < last implies (#[trigger] cands[j]).0 < x.0 by {
                        assert(cands[j] == r[j]);
                    }
                } else {
                    assert(cands[i] == b);
                    assert forall|j: int| 0 <= j < cands.len() implies (#[trigger] cands[j]).0 <= b.0 by {
                        if j < last {
                            assert(cands[j] == r[j]);
                        }
                    }
                    assert forall|j: int| 0 <= j < i implies (#[trigger] cands[j]).0 < b.0 by {
                        assert(cands[j] == r[j]);
                    }
                }
            },
        }
    }
}

/// **The open job this person fits best**, front first on a tie — never an
/// industry's standing slot, and never one already posted to them.
pub fn best_fit(sim: &Sim, who: usize) -> (r: Option<(JobId, TaskType)>)
    requires
        sim.wf(),
    ensures
        r == best_fit_of(*sim, who),
{
    if who >= sim.people.len() {
        return None;
    }
    proof { assert(sim.people@[who as int].wf()); }
    let carried = sim.people[who].traits.as_slice();
    let ghost traits = sim.people@[who as int].traits@;
    let mut best: Option<(i64, JobId, TaskType)> = None;
    let ghost mut seen: Seq<(i64, JobId, TaskType)> = Seq::empty();
    let ns = sim.sites.len();
    for site in 0..ns
        invariant
            ns == sim.sites@.len(),
            who < sim.people@.len(),
            carried@ == traits,
            traits == sim.people@[who as int].traits@,
            traits.len() <= crate::traits::MAX_CARRIED,
            seen == board_offers(*sim, who, traits, site as int),
            best == best_in(seen),
    {
        let board = &sim.sites[site];
        if board.industry.is_some() {
            assert(board_offers(*sim, who, traits, site + 1) =~= seen);
        } else {
            let open = board.open_slots();
            let no = open.len();
            let ghost start = seen;
            for k in 0..no
                invariant
                    ns == sim.sites@.len(),
                    site < ns,
                    *board == sim.sites@[site as int],
                    no == open@.len(),
                    open@ == board.spec_open_slots(),
                    who < sim.people@.len(),
                    carried@ == traits,
                    traits.len() <= crate::traits::MAX_CARRIED,
                    start == board_offers(*sim, who, traits, site as int),
                    seen == start + site_offers(*sim, who, traits, site, open@.take(k as int)),
                    best == best_in(seen),
            {
                let slot = open[k];
                assert(open@.take(k + 1).drop_last() =~= open@.take(k as int));
                assert(open@.take(k + 1).last() == slot);
                let ghost before = site_offers(*sim, who, traits, site, open@.take(k as int));
                match board.quest(slot) {
                    None => {
                        assert(site_offers(*sim, who, traits, site, open@.take(k + 1)) =~= before);
                    },
                    Some(quest) => {
                        let job = JobId { site, slot };
                        if sim.postings.already_posted(sim, Who::Person(who), job) {
                            assert(site_offers(*sim, who, traits, site, open@.take(k + 1)) =~= before);
                        } else {
                            let fit = competence_at(quest.task, carried);
                            let c = (fit, job, quest.task);
                            proof {
                                assert(site_offers(*sim, who, traits, site, open@.take(k + 1)) =~= before.push(c));
                                assert(start + before.push(c) =~= seen.push(c));
                                assert(seen.push(c).drop_last() =~= seen);
                                seen = seen.push(c);
                            }
                            let better = match best {
                                None => true,
                                Some(b) => fit > b.0,
                            };
                            if better {
                                best = Some(c);
                            }
                        }
                    },
                }
            }
            assert(open@.take(no as int) =~= open@);
            assert(board_offers(*sim, who, traits, site + 1) =~= seen);
        }
    }
    match best {
        None => None,
        Some(b) => Some((b.1, b.2)),
    }
}

/// Who of a roll stands at home, in roll order.
pub open spec fn at_home_of(sim: Sim, roll: Seq<usize>) -> Seq<usize>
    decreases roll.len(),
{
    if roll.len() == 0 {
        Seq::empty()
    } else {
        at_home_of(sim, roll.drop_last()) + if home_in(sim, roll.last()) { seq![roll.last()] } else { Seq::empty() }
    }
}

/// One idle person's turn: they are posted the open job they fit best, by
/// name, until done, at the standing rate for its kind of work — or, with
/// nothing to fit, the world is left as it was.
pub open spec fn offered_best_fit(before: Sim, after: Sim, tuning: Tuning, now: u64, who: usize) -> bool {
    match best_fit_of(before, who) {
        None => after == before,
        Some(fit) => exists|id: Option<usize>| posted(
            before,
            after,
            tuning,
            now,
            Offer { who: Who::Person(who), what: What::Job(fit.0), until: Until::Done, wage: before.rates@[task_index(fit.1)] },
            id,
        ),
    }
}

/// **Rule two of the attentive player, over a whole world**: everybody in
/// the camp standing idle at their own door when the rule starts, in roll
/// order, has their turn, each in the world the turn before left.
pub open spec fn posted_to_the_idle(before: Sim, after: Sim, tuning: Tuning, now: u64) -> bool {
    exists|chain: Seq<Sim>| #![trigger chain[0]] {
        let idle = at_home_of(before, roll_of(before));
        &&& chain.len() == idle.len() + 1
        &&& chain[0] == before
        &&& chain.last() == after
        &&& forall|k: int| 0 <= k < idle.len() ==> offered_best_fit(#[trigger] chain[k], chain[k + 1], tuning, now, idle[k])
    }
}

/// Who stands at home, of everybody in the camp, in roll order.
fn idle_roll(lens: &Lens<'_>) -> (out: Vec<usize>)
    ensures
        out@ == at_home_of(lens.world(), roll_of(lens.world())),
{
    let roll = lens.roll();
    let n = roll.len();
    let mut out: Vec<usize> = Vec::new();
    for k in 0..n
        invariant
            n == roll@.len(),
            roll@ == roll_of(lens.world()),
            out@ == at_home_of(lens.world(), roll@.take(k as int)),
    {
        assert(roll@.take(k + 1).drop_last() =~= roll@.take(k as int));
        assert(roll@.take(k + 1).last() == roll@[k as int]);
        if lens.at_home(roll[k]) {
            out.push(roll[k]);
        }
        assert(out@ =~= at_home_of(lens.world(), roll@.take(k + 1)));
    }
    assert(roll@.take(n as int) =~= roll@);
    out
}

/// **Post the best-fitting open job to everybody standing idle**, at the
/// standing rate, one job each — rule two of the attentive player.
pub fn post_to_the_idle(sim: &mut Sim, tuning: &Tuning, now: u64)
    requires
        old(sim).wf(),
        tuning.wf(),
    ensures
        final(sim).wf(),
        posted_to_the_idle(*old(sim), *final(sim), *tuning, now),
        same_people_and_money(*final(sim), *old(sim)),
        events_kept(old(sim).events@, final(sim).events@),
{
    let idle = idle_roll(&Lens::on(sim));
    let ghost start = *sim;
    let ghost mut chain: Seq<Sim> = seq![start];
    let n = idle.len();
    assert(start.events@.take(start.events@.len() as int) =~= start.events@);
    for k in 0..n
        invariant
            n == idle@.len(),
            idle@ == at_home_of(start, roll_of(start)),
            sim.wf(),
            tuning.wf(),
            chain.len() == k + 1,
            chain[0] == start,
            chain.last() == *sim,
            forall|j: int| 0 <= j < k ==> offered_best_fit(#[trigger] chain[j], chain[j + 1], *tuning, now, idle@[j]),
            same_people_and_money(*sim, start),
            events_kept(start.events@, sim.events@),
    {
        let who = idle[k];
        let ghost before = *sim;
        match best_fit(sim, who) {
            None => {
                assert(sim.events@.take(before.events@.len() as int) =~= before.events@);
            },
            Some((job, task)) => {
                let wage = sim.rates.of(task);
                let offer = Offer { who: Who::Person(who), what: What::Job(job), until: Until::Done, wage };
                let id = post(sim, tuning, now, offer);
                proof {
                    assert(posted(before, *sim, *tuning, now, offer, id));
                    if !before.modules.spec_enabled(crate::asks::MODULE) {
                        assert(sim.events@.take(before.events@.len() as int) =~= before.events@);
                    }
                }
            },
        }
        proof {
            crate::autonomy::lemma_events_kept(start.events@, before.events@, sim.events@);
            let next = chain.push(*sim);
            assert forall|j: int| 0 <= j < k + 1 implies offered_best_fit(#[trigger] next[j], next[j + 1], *tuning, now, idle@[j]) by {
                if j < k {
                    assert(next[j] == chain[j]);
                    assert(next[j + 1] == chain[j + 1]);
                } else {
                    assert(next[j] == before);
                    assert(next[j + 1] == *sim);
                }
            }
            chain = next;
        }
    }
    proof {
        assert(posted_to_the_idle(start, *sim, *tuning, now)) by {
            assert(chain.len() == at_home_of(start, roll_of(start)).len() + 1);
        }
    }
}

/// Every field of a world but its standing rates is the same.
pub open spec fn same_but_rates(a: Sim, b: Sim) -> bool {
    &&& a.people == b.people
    &&& a.parties == b.parties
    &&& a.sites == b.sites
    &&& a.postings == b.postings
    &&& a.treasury == b.treasury
    &&& a.events == b.events
    &&& a.modules == b.modules
    &&& a.ports == b.ports
    &&& a.shared == b.shared
    &&& a.settlement == b.settlement
    &&& a.locations == b.locations
    &&& a.reckonings == b.reckonings
    &&& a.attention == b.attention
    &&& a.pause == b.pause
    &&& a.pauses == b.pauses
}

/// **Rule three of the attentive player**: reading the feed's tally against
/// yesterday's, when more named asks were declined since then than agreed
/// to, the standing rate the postings were refused on most is raised by the
/// panel's step; the rest of the world is untouched, and today's tally is
/// what comes back.
pub open spec fn raised_the_most_refused(before: Sim, after: Sim, since: (usize, usize), t: (usize, usize)) -> bool {
    &&& t.0 == count_class(before.events@, EventClass::AskAgreed)
    &&& t.1 == count_class(before.events@, EventClass::AskDeclined)
    &&& same_but_rates(after, before)
    &&& after.rates@ == if t.1 - since.1 > t.0 - since.0 && most_refused_of(before) is Some {
        let slot = task_index(most_refused_of(before).unwrap());
        before.rates@.update(slot, crate::asks::clamp_to(before.rates@[slot] + RATE_STEP, 0, RATE_MAX as int) as i64)
    } else {
        before.rates@
    }
}

/// **Raise the most-refused rate when refusals outran agreements** since
/// the tally `since` — rule three of the attentive player.
pub fn raise_the_most_refused(sim: &mut Sim, since: (usize, usize)) -> (t: (usize, usize))
    requires
        since.0 <= count_class(old(sim).events@, EventClass::AskAgreed),
        since.1 <= count_class(old(sim).events@, EventClass::AskDeclined),
    ensures
        raised_the_most_refused(*old(sim), *final(sim), since, t),
{
    let (agreed, declined) = tally(sim);
    if declined - since.1 > agreed - since.0 {
        match most_refused(sim) {
            Some(task) => {
                // The standing rate lies inside the panel's range, so one
                // step from it stays inside 64 bits.
                let _standing: i64 = sim.rates.of(task);
                sim.rates.step(task, RATE_STEP);
            },
            None => {},
        }
    }
    (agreed, declined)
}

proof fn lemma_count_class_grows(a: Seq<Event>, b: Seq<Event>, class: EventClass)
    requires
        events_kept(a, b),
    ensures
        count_class(a, class) <= count_class(b, class),
    decreases b.len(),
{
    if b.len() > a.len() {
        let shorter = b.drop_last();
        assert(shorter.take(a.len() as int) =~= b.take(a.len() as int));
        lemma_count_class_grows(a, shorter, class);
    } else {
        assert(b =~= a);
    }
}

/// **The attentive player's day**, rules two and three: post to the idle,
/// then raise the most-refused rate if refusals outran agreements since
/// yesterday's tally, and return today's tally for tomorrow.
pub fn attend(sim: &mut Sim, tuning: &Tuning, now: u64, since: (usize, usize)) -> (t: (usize, usize))
    requires
        old(sim).wf(),
        tuning.wf(),
        since.0 <= count_class(old(sim).events@, EventClass::AskAgreed),
        since.1 <= count_class(old(sim).events@, EventClass::AskDeclined),
    ensures
        exists|mid: Sim| posted_to_the_idle(*old(sim), mid, *tuning, now) && raised_the_most_refused(mid, *final(sim), since, t),
{
    post_to_the_idle(sim, tuning, now);
    let ghost mid = *sim;
    proof {
        lemma_count_class_grows(old(sim).events@, mid.events@, EventClass::AskAgreed);
        lemma_count_class_grows(old(sim).events@, mid.events@, EventClass::AskDeclined);
    }
    raise_the_most_refused(sim, since)
}

} // verus!

//! **Compliance**: how the cast answers a ladder of offers. The ladder is a
//! row of wages from nothing to well over every standing rate, walked against
//! one open job of each kind of work; a band of the cast is who carries a
//! motivator (or, for the desperate, who is pressed), and what a character
//! takes off the ladder is how many of those offers the job row reads as
//! taken.

use vstd::prelude::*;
use crate::answers::{read, read_of, Verdict};
use crate::asks::{preview_posting, task_at, task_index, Posting, What, Who};
use crate::constants::Tuning;
use crate::people::Character;
use crate::sim::{JobId, Sim, Site, GOLD_BOUND};
use crate::traits::{TaskType, TraitId};

verus! {

/// How many rungs the ladder has.
pub const RUNGS: usize = 7;

/// **The wages the distribution sweep walks**, in gold — from nothing to
/// well over every standing rate, eight apart.
pub open spec fn ladder_spec() -> Seq<i64> {
    seq![0i64, 8, 16, 24, 32, 40, 48]
}

/// The ladder, rung by rung.
pub fn ladder() -> (v: Vec<i64>)
    ensures
        v@ == ladder_spec(),
{
    let v: Vec<i64> = vec![0, 8, 16, 24, 32, 40, 48];
    assert(v@ =~= ladder_spec());
    v
}

/// Which of the cast a band is.
#[derive(Clone, Copy, Debug, PartialEq, Eq, Structural)]
pub enum BandKind {
    /// Who carries `loyal`.
    Loyal,
    /// Who carries `cold`.
    Cold,
    /// Who carries `greedy`.
    Greedy,
    /// Who is pressed to four or more.
    Desperate,
}

/// One band of the cast, as the distribution sweep names them.
#[derive(Clone, Copy, Debug)]
pub struct Band {
    /// The word the report and a failure use.
    pub name: &'static str,
    /// Who is in it.
    pub kind: BandKind,
    /// How many of the ladder's offers this band takes at the shipped set.
    pub takes: usize,
}

/// **The four bands**, and what each takes off the ladder at the shipped
/// set: the loyal comply for less, the cold need paying, the greedy follow
/// the wage, and need opens every sum for the desperate.
pub open spec fn bands_spec() -> Seq<Band> {
    seq![
        Band { name: "loyal", kind: BandKind::Loyal, takes: 44 },
        Band { name: "cold", kind: BandKind::Cold, takes: 16 },
        Band { name: "greedy", kind: BandKind::Greedy, takes: 22 },
        Band { name: "desperate", kind: BandKind::Desperate, takes: 76 },
    ]
}

/// The four bands.
pub fn bands() -> (v: Vec<Band>)
    ensures
        v@ == bands_spec(),
{
    let v: Vec<Band> = vec![
        Band { name: "loyal", kind: BandKind::Loyal, takes: 44 },
        Band { name: "cold", kind: BandKind::Cold, takes: 16 },
        Band { name: "greedy", kind: BandKind::Greedy, takes: 22 },
        Band { name: "desperate", kind: BandKind::Desperate, takes: 76 },
    ];
    assert(v@ =~= bands_spec());
    v
}

/// The desperation the desperate band counts from.
pub const DESPERATE_BAND_AT: i64 = 4;

/// Whether one sheet is in a band.
pub open spec fn in_band(p: Character, kind: BandKind) -> bool {
    match kind {
        BandKind::Loyal => p.traits@.contains(TraitId::Loyal),
        BandKind::Cold => p.traits@.contains(TraitId::Cold),
        BandKind::Greedy => p.traits@.contains(TraitId::Greedy),
        BandKind::Desperate => p.desperation >= DESPERATE_BAND_AT,
    }
}

/// Who among the first `n` of the registry is in a band, in registry order.
pub open spec fn members_prefix(people: Seq<Character>, kind: BandKind, n: int) -> Seq<usize>
    decreases n,
{
    if n <= 0 {
        Seq::empty()
    } else {
        members_prefix(people, kind, n - 1) + if in_band(people[n - 1], kind) {
            seq![(n - 1) as usize]
        } else {
            Seq::empty()
        }
    }
}

fn carries(traits: &[TraitId], t: TraitId) -> (b: bool)
    ensures
        b == traits@.contains(t),
{
    let n = traits.len();
    for i in 0..n
        invariant
            n == traits@.len(),
            forall|j: int| 0 <= j < i ==> traits@[j] != t,
    {
        if traits[i] == t {
            assert(traits@[i as int] == t);
            return true;
        }
    }
    false
}

/// **Who is in a band**, in registry order.
pub fn band_members(sim: &Sim, kind: BandKind) -> (out: Vec<usize>)
    ensures
        out@ == members_prefix(sim.people@, kind, sim.people@.len() as int),
{
    let n = sim.people.len();
    let mut out: Vec<usize> = Vec::new();
    for who in 0..n
        invariant
            n == sim.people@.len(),
            out@ == members_prefix(sim.people@, kind, who as int),
    {
        let person = &sim.people[who];
        let inside = match kind {
            BandKind::Loyal => carries(person.traits.as_slice(), TraitId::Loyal),
            BandKind::Cold => carries(person.traits.as_slice(), TraitId::Cold),
            BandKind::Greedy => carries(person.traits.as_slice(), TraitId::Greedy),
            BandKind::Desperate => person.desperation >= DESPERATE_BAND_AT,
        };
        if inside {
            out.push(who);
        }
        assert(out@ =~= members_prefix(sim.people@, kind, who + 1));
    }
    out
}

/// The first of a run of a site's open rows whose quest is of one kind of work.
pub open spec fn first_of_kind(site: Site, open: Seq<usize>, task: TaskType) -> Option<usize>
    decreases open.len(),
{
    if open.len() == 0 {
        None
    } else if site.spec_quest(open[0]) matches Some(q) && q.task == task {
        Some(open[0])
    } else {
        first_of_kind(site, open.drop_first(), task)
    }
}

/// The first open job of one kind of work, from site `s` on, front first.
pub open spec fn first_job_from(sim: Sim, task: TaskType, s: int) -> Option<JobId>
    decreases sim.sites@.len() - s,
{
    if s < 0 || s >= sim.sites@.len() {
        None
    } else {
        match first_of_kind(sim.sites@[s], sim.sites@[s].spec_open_slots(), task) {
            Some(slot) => Some(JobId { site: s as usize, slot }),
            None => first_job_from(sim, task, s + 1),
        }
    }
}

/// One open job of each of the first `k` kinds of work, where there is one.
pub open spec fn jobs_by_task(sim: Sim, k: int) -> Seq<(TaskType, JobId)>
    decreases k,
{
    if k <= 0 {
        Seq::empty()
    } else {
        jobs_by_task(sim, k - 1) + match first_job_from(sim, task_at(k - 1), 0) {
            Some(job) => seq![(task_at(k - 1), job)],
            None => Seq::empty(),
        }
    }
}

fn first_slot_of_kind(site: &Site, task: TaskType) -> (r: Option<usize>)
    ensures
        r == first_of_kind(*site, site.spec_open_slots(), task),
{
    let open = site.open_slots();
    let n = open.len();
    let mut k: usize = 0;
    assert(open@.skip(0) =~= open@);
    while k < n
        invariant
            n == open@.len(),
            k <= n,
            open@ == site.spec_open_slots(),
            first_of_kind(*site, open@, task) == first_of_kind(*site, open@.skip(k as int), task),
        decreases n - k,
    {
        let slot = open[k];
        assert(open@.skip(k as int)[0] == slot);
        assert(open@.skip(k as int).drop_first() =~= open@.skip(k + 1));
        match site.quest(slot) {
            Some(q) => {
                if q.task == task {
                    return Some(slot);
                }
            },
            None => {},
        }
        k = k + 1;
    }
    assert(open@.skip(n as int) =~= Seq::<usize>::empty());
    None
}

fn first_job(sim: &Sim, task: TaskType) -> (r: Option<JobId>)
    ensures
        r == first_job_from(*sim, task, 0),
{
    let n = sim.sites.len();
    let mut s: usize = 0;
    while s < n
        invariant
            n == sim.sites@.len(),
            s <= n,
            first_job_from(*sim, task, 0) == first_job_from(*sim, task, s as int),
        decreases n - s,
    {
        match first_slot_of_kind(&sim.sites[s], task) {
            Some(slot) => return Some(JobId { site: s, slot }),
            None => {},
        }
        s = s + 1;
    }
    None
}

/// **One open job of each kind of work**, front first — what the ladder is
/// walked against, so an aptitude is never the whole of why a band says no.
pub fn one_job_per_task(sim: &Sim) -> (out: Vec<(TaskType, JobId)>)
    ensures
        out@ == jobs_by_task(*sim, 4),
{
    let mut out: Vec<(TaskType, JobId)> = Vec::new();
    let mut k: usize = 0;
    while k < 4
        invariant
            k <= 4,
            out@ == jobs_by_task(*sim, k as int),
        decreases 4 - k,
    {
        let task = if k == 0 {
            TaskType::Fight
        } else if k == 1 {
            TaskType::Labor
        } else if k == 2 {
            TaskType::Scout
        } else {
            TaskType::Craft
        };
        assert(task == task_at(k as int));
        match first_job(sim, task) {
            Some(job) => out.push((task, job)),
            None => {},
        }
        assert(out@ =~= jobs_by_task(*sim, k + 1));
        k = k + 1;
    }
    out
}

/// Whether a posting is the preview of an offer of `wage` to `who` for `job`.
pub open spec fn is_preview(p: Posting, who: usize, job: JobId, wage: i64) -> bool {
    &&& p.id == usize::MAX
    &&& p.who == Who::Person(who)
    &&& p.what == What::Job(job)
    &&& p.wage == wage
}

/// Whether the job row reads an offer of `wage` to `who` for `job` as taken.
pub open spec fn would_take(sim: Sim, tuning: Tuning, who: usize, job: JobId, wage: i64) -> bool {
    read_of(sim, tuning, 0, who, choose|p: Posting| is_preview(p, who, job, wage), job).0 != Verdict::WouldRefuse
}

/// How many of a run of rungs `who` takes for one job.
pub open spec fn rungs_taken(sim: Sim, tuning: Tuning, who: usize, job: JobId, rungs: Seq<i64>) -> nat
    decreases rungs.len(),
{
    if rungs.len() == 0 {
        0
    } else {
        rungs_taken(sim, tuning, who, job, rungs.drop_last()) + if would_take(
            sim,
            tuning,
            who,
            job,
            rungs.last(),
        ) {
            1nat
        } else {
            0nat
        }
    }
}

/// How many of the ladder's offers `who` takes over a run of jobs.
pub open spec fn ladder_taken(sim: Sim, tuning: Tuning, who: usize, jobs: Seq<(TaskType, JobId)>) -> nat
    decreases jobs.len(),
{
    if jobs.len() == 0 {
        0
    } else {
        ladder_taken(sim, tuning, who, jobs.drop_last()) + rungs_taken(sim, tuning, who, jobs.last().1, ladder_spec())
    }
}

/// A job row's read depends on the posting only through its id, its
/// addressee and its wage.
proof fn lemma_read_by_terms(sim: Sim, tuning: Tuning, now: u64, who: usize, p: Posting, q: Posting, job: JobId)
    requires
        p.id == q.id,
        p.who == q.who,
        p.wage == q.wage,
    ensures
        read_of(sim, tuning, now, who, p, job) == read_of(sim, tuning, now, who, q, job),
{
    assert(crate::answers::asked_terms(p, who, tuning) == crate::answers::asked_terms(q, who, tuning));
    assert(crate::answers::answer_terms(sim, tuning, now, who, p, job) == crate::answers::answer_terms(
        sim,
        tuning,
        now,
        who,
        q,
        job,
    ));
}

/// **How many of the ladder's offers this character would take**: every
/// rung, against one open job of each kind of work, at the standing rate the
/// job row would show.
pub fn takes_off_the_ladder(sim: &Sim, tuning: &Tuning, who: usize) -> (taken: usize)
    requires
        sim.wf(),
        tuning.wf(),
    ensures
        taken == ladder_taken(*sim, *tuning, who, jobs_by_task(*sim, 4)),
{
    let jobs = one_job_per_task(sim);
    let rungs = ladder();
    let nj = jobs.len();
    assert(nj <= 4) by {
        lemma_jobs_by_task_len(*sim, 4);
    }
    let mut taken: usize = 0;
    for i in 0..nj
        invariant
            nj == jobs@.len(),
            nj <= 4,
            jobs@ == jobs_by_task(*sim, 4),
            rungs@ == ladder_spec(),
            sim.wf(),
            tuning.wf(),
            taken == ladder_taken(*sim, *tuning, who, jobs@.take(i as int)),
            taken <= 7 * i,
    {
        let (task, job) = jobs[i];
        let rate = sim.rates.of(task);
        let mut here: usize = 0;
        for r in 0..7usize
            invariant
                rungs@ == ladder_spec(),
                sim.wf(),
                tuning.wf(),
                here == rungs_taken(*sim, *tuning, who, job, rungs@.take(r as int)),
                here <= r,
        {
            let wage = rungs[r];
            assert(rungs@.take(r + 1).drop_last() =~= rungs@.take(r as int));
            let p = preview_posting(who, job.site, job.slot, wage, rate);
            let (verdict, _) = read(sim, tuning, 0, who, &p, job);
            proof {
                assert(is_preview(p, who, job, wage));
                let chosen = choose|q: Posting| is_preview(q, who, job, wage);
                lemma_read_by_terms(*sim, *tuning, 0, who, p, chosen, job);
            }
            if verdict.takes() {
                here = here + 1;
            }
        }
        assert(rungs@.take(7) =~= rungs@);
        assert(jobs@.take(i + 1).drop_last() =~= jobs@.take(i as int));
        taken = taken + here;
    }
    assert(jobs@.take(nj as int) =~= jobs@);
    taken
}

proof fn lemma_jobs_by_task_len(sim: Sim, k: int)
    requires
        k >= 0,
    ensures
        jobs_by_task(sim, k).len() <= k,
    decreases k,
{
    if k > 0 {
        lemma_jobs_by_task_len(sim, k - 1);
    }
}

} // verus!

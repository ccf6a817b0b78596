//! **The scorer** — autonomy's one decision function.
//!
//! Candidate actions in, one chosen action and the words for why out. Every
//! term multiplies a row in; no term asks which trait it is looking at.

use vstd::prelude::*;
use crate::asks::read_the_board;
use crate::constants::Tuning;
use crate::sim::{call_on, claimed_in, dispatch, later, Activity, EventClass, JobId, Module, Party, Sim, Site, GOLD_BOUND};
use crate::stores::{Regarded, REGARD_BOUND};
use crate::text::{int_digits, push_i64};
use crate::traits::{
    aptitude_row, competence_sum, feels_pot, moves_regard, pot_pull_sum, pressure_sum, rows_phrase,
    rows_where, task_id, wants_task, weighted, TraitId,
};

verus! {

/// The module the scorer belongs to.
pub const MODULE: Module = Module::Autonomy;

/// How long a world-day is, in world-minutes.
pub const DAY: u64 = 1440;

/// One thing a character could do next.
#[derive(Clone, Copy, Debug, PartialEq, Eq, Structural)]
pub enum Action {
    /// Claim this job and go.
    SeekWork { job: JobId },
    /// Walk to another character's home tile and stay a while.
    Socialize { toward: usize },
    /// Answer a posting by taking this job for its wage.
    Answer { posting: usize, job: JobId },
    /// Stay home. The floor every other candidate has to beat.
    Idle,
}

/// What produced a term: the rows, or the fact.
#[derive(Debug)]
pub enum Cause {
    /// A fact or a state of the world.
    Fact(String),
    /// These trait rows produced it.
    Rows(Vec<TraitId>),
}

/// What produced a term, as contracts read it.
pub enum CauseV {
    Fact(Seq<char>),
    Rows(Seq<TraitId>),
}

impl View for Cause {
    type V = CauseV;

    open spec fn view(&self) -> CauseV {
        match self {
            Cause::Fact(s) => CauseV::Fact(s@),
            Cause::Rows(r) => CauseV::Rows(r@),
        }
    }
}

/// The attribution a breakdown prints.
pub open spec fn cause_phrase(c: CauseV) -> Seq<char> {
    match c {
        CauseV::Fact(s) => s,
        CauseV::Rows(r) => rows_phrase(r),
    }
}

impl Cause {
    /// **The attribution**, as a breakdown prints it — read off the rows now.
    pub fn phrase(&self) -> (s: String)
        ensures
            s@ == cause_phrase(self@),
    {
        match self {
            Cause::Fact(what) => what.clone(),
            Cause::Rows(rows) => crate::traits::phrase_of(rows.as_slice()),
        }
    }

    /// A fact, said in words.
    pub fn fact(what: &str) -> (c: Cause)
        ensures
            c@ == CauseV::Fact(what@),
    {
        Cause::Fact(String::from_str(what))
    }

    /// The same cause, copied.
    pub fn duplicate(&self) -> (c: Cause)
        ensures
            c@ == self@,
    {
        match self {
            Cause::Fact(what) => Cause::Fact(what.clone()),
            Cause::Rows(rows) => {
                let mut out: Vec<TraitId> = Vec::new();
                let n = rows.len();
                for i in 0..n
                    invariant
                        n == rows@.len(),
                        out@ == rows@.take(i as int),
                {
                    out.push(rows[i]);
                    assert(out@ =~= rows@.take(i + 1));
                }
                assert(rows@.take(n as int) =~= rows@);
                Cause::Rows(out)
            },
        }
    }
}

/// One term of a candidate's sum.
#[derive(Debug)]
pub struct Term {
    /// What the term is, as a report names it.
    pub what: &'static str,
    /// What it added, or, negative, took away.
    pub value: i64,
    /// What produced it.
    pub cause: Cause,
    /// The half-sentence a reason is built from.
    pub because: String,
}

/// A term, as contracts read it.
pub struct TermV {
    pub what: Seq<char>,
    pub value: int,
    pub cause: CauseV,
    pub because: Seq<char>,
}

impl View for Term {
    type V = TermV;

    open spec fn view(&self) -> TermV {
        TermV { what: self.what@, value: self.value as int, cause: self.cause@, because: self.because@ }
    }
}

/// A term built from its parts.
pub open spec fn term(what: Seq<char>, value: int, cause: CauseV, because: Seq<char>) -> TermV {
    TermV { what, value, cause, because }
}

/// The views of a list of terms.
pub open spec fn terms_view(terms: Seq<Term>) -> Seq<TermV> {
    terms.map_values(|t: Term| t@)
}

/// The sum of a list of terms' values.
pub open spec fn total(terms: Seq<TermV>) -> int
    decreases terms.len(),
{
    if terms.len() == 0 { 0 } else { total(terms.drop_last()) + terms.last().value }
}

/// The one-line breakdown of a term.
pub open spec fn term_line(t: TermV) -> Seq<char> {
    (if t.value < 0 { Seq::empty() } else { "+"@ }) + int_digits(t.value) + " "@ + t.what + " - "@
        + cause_phrase(t.cause)
}

impl Term {
    /// **One line of a breakdown**: what it was worth, and what produced it.
    pub fn line(&self) -> (s: String)
        ensures
            s@ == term_line(self@),
    {
        proof { reveal_strlit(""); reveal_strlit("+"); reveal_strlit(" "); reveal_strlit(" - "); }
        let mut s = if self.value < 0 { String::from_str("") } else { String::from_str("+") };
        push_i64(&mut s, self.value);
        s.append(" ");
        s.append(self.what);
        s.append(" - ");
        let phrase = self.cause.phrase();
        s.append(phrase.as_str());
        s
    }

    /// The same term, copied.
    pub fn duplicate(&self) -> (t: Term)
        ensures
            t@ == self@,
    {
        Term { what: self.what, value: self.value, cause: self.cause.duplicate(), because: self.because.clone() }
    }
}

/// Copy a list of terms.
pub fn copy_terms(terms: &Vec<Term>) -> (out: Vec<Term>)
    ensures
        terms_view(out@) == terms_view(terms@),
{
    let mut out: Vec<Term> = Vec::new();
    let n = terms.len();
    for i in 0..n
        invariant
            n == terms@.len(),
            out@.len() == i,
            forall|k: int| 0 <= k < i ==> (#[trigger] out@[k])@ == terms@[k]@,
    {
        out.push(terms[i].duplicate());
    }
    assert(terms_view(out@) =~= terms_view(terms@));
    out
}

/// Put one more term on a list.
pub fn push_term(out: &mut Vec<Term>, t: Term)
    ensures
        terms_view(final(out)@) == terms_view(old(out)@).push(t@),
        final(out)@.len() == old(out)@.len() + 1,
        final(out)@.drop_last() == old(out)@,
        final(out)@.last() == t,
{
    out.push(t);
    assert(terms_view(out@) =~= terms_view(old(out)@).push(t@));
    assert(out@.drop_last() =~= old(out)@);
}

/// A list of terms a sum can be taken over without leaving `i64`.
pub open spec fn terms_ok(ts: Seq<TermV>) -> bool {
    &&& ts.len() <= MAX_TERMS
    &&& forall|i: int| 0 <= i < ts.len() ==> -TERM_BOUND <= #[trigger] ts[i].value <= TERM_BOUND
}

/// The sum of a list of terms, added up.
pub fn sum_terms(terms: &Vec<Term>) -> (s: i64)
    requires
        terms_ok(terms_view(terms@)),
    ensures
        s == total(terms_view(terms@)),
        -8 * TERM_BOUND <= s <= 8 * TERM_BOUND,
{
    let mut acc: i64 = 0;
    let n = terms.len();
    assert forall|k: int| 0 <= k < terms@.len() implies -TERM_BOUND <= #[trigger] terms@[k].value <= TERM_BOUND by {
        assert(terms_view(terms@)[k].value == terms@[k].value);
    }
    for i in 0..n
        invariant
            n == terms@.len(),
            n <= MAX_TERMS,
            forall|k: int| 0 <= k < terms@.len() ==> -TERM_BOUND <= #[trigger] terms@[k].value <= TERM_BOUND,
            acc == total(terms_view(terms@.take(i as int))),
            -100_000_000_000_000_000 * (i as int) <= acc <= 100_000_000_000_000_000 * (i as int),
    {
        assert(terms_view(terms@.take(i + 1)).drop_last() =~= terms_view(terms@.take(i as int)));
        acc = acc + terms[i].value;
    }
    assert(terms@.take(n as int) =~= terms@);
    acc
}

/// A sum over a list of terms the arithmetic can carry stays inside `i64`.
pub proof fn lemma_total_bound(ts: Seq<TermV>)
    requires
        terms_ok(ts),
    ensures
        -TERM_BOUND * ts.len() <= total(ts) <= TERM_BOUND * ts.len(),
    decreases ts.len(),
{
    if ts.len() > 0 {
        assert(terms_ok(ts.drop_last()));
        lemma_total_bound(ts.drop_last());
    }
}

/// The most terms one candidate is weighed by.
pub const MAX_TERMS: usize = 8;

/// The largest magnitude one term can reach in a well-formed world.
pub const TERM_BOUND: i64 = 100_000_000_000_000_000;

/// The arithmetic behind one decision, kept.
#[derive(Debug)]
pub struct Reckoning {
    /// What was chosen, in words, as it read at the moment of choosing.
    pub chose: String,
    /// What it scored.
    pub score: i64,
    /// Every term of that score, in the order they were weighed.
    pub terms: Vec<Term>,
    /// What beat it, and by what score, where this is a reading of a refused offer.
    pub beaten_by: Option<(String, i64)>,
}

impl Reckoning {
    /// **The sum, added up from the terms** rather than trusted.
    pub fn total(&self) -> (s: i64)
        requires
            terms_ok(terms_view(self.terms@)),
        ensures
            s == total(terms_view(self.terms@)),
    {
        sum_terms(&self.terms)
    }
}

/// What the scorer decided, and why.
#[derive(Debug)]
pub struct Judged {
    /// What they will do.
    pub action: Action,
    /// What it scored.
    pub score: i64,
    /// Every term of that score, in the order they were weighed.
    pub terms: Vec<Term>,
    /// The words.
    pub reason: String,
}

/// A drawer row of hours, as world-minutes, never negative.
pub open spec fn hours_minutes(h: i64) -> int {
    if h <= 0 { 0 } else { h * 60 }
}

/// **World-minutes between one character's rescorings**.
pub fn interval(tuning: &Tuning) -> (m: u64)
    requires
        tuning.wf(),
    ensures
        m == (if tuning.scorer_hours <= 1 { 1 } else { tuning.scorer_hours as int }) * 60,
{
    let h = if tuning.scorer_hours <= 1 { 1 } else { tuning.scorer_hours };
    (h as u64) * 60
}

/// The minute at which character `who` is first weighed, unbounded.
pub open spec fn first_score_minute(tuning: Tuning, who: int) -> int {
    (if tuning.scorer_hours <= 1 { 1 } else { tuning.scorer_hours as int }) * 60
        + (if tuning.scorer_stagger <= 0 { 0 } else { tuning.scorer_stagger as int }) * who
}

/// **When character `who` is first weighed**: one interval in, staggered by
/// their roster index.
pub fn first_score(tuning: &Tuning, who: usize) -> (m: u64)
    requires
        tuning.wf(),
        first_score_minute(*tuning, who as int) <= u64::MAX,
    ensures
        m == first_score_minute(*tuning, who as int),
{
    let stagger: u64 = if tuning.scorer_stagger <= 0 { 0 } else { tuning.scorer_stagger as u64 };
    let h: u64 = interval(tuning);
    assert(stagger * (who as u64) <= u64::MAX - h) by (nonlinear_arith)
        requires
            stagger as int * who as int <= u64::MAX - h,
    {}
    h + stagger * (who as u64)
}

/// **How long a job's rest lasts**, in world-minutes.
pub fn rest_minutes(tuning: &Tuning) -> (m: u64)
    requires
        tuning.wf(),
    ensures
        m == hours_minutes(tuning.rest_hours),
{
    if tuning.rest_hours <= 0 { 0 } else { (tuning.rest_hours as u64) * 60 }
}

/// **The window the alive sweep gives everybody**, in world-minutes.
pub fn alive_window(tuning: &Tuning) -> (m: u64)
    requires
        tuning.wf(),
    ensures
        m == (if tuning.alive_days <= 0 { 0 } else { tuning.alive_days as int }) * DAY,
{
    if tuning.alive_days <= 0 { 0 } else { (tuning.alive_days as u64) * DAY }
}

/// **How long a visit lasts**, in world-minutes.
pub fn visit_minutes(tuning: &Tuning) -> (m: u64)
    requires
        tuning.wf(),
    ensures
        m == (if tuning.visit_minutes <= 0 { 0 } else { tuning.visit_minutes as int }),
{
    if tuning.visit_minutes <= 0 { 0 } else { tuning.visit_minutes as u64 }
}

// ── the candidates ─────────────────────────────────────────────────────────

/// One candidate per open job of the first `n` sites, site by site, row by row.
pub open spec fn work_prefix(sites: Seq<Site>, n: int) -> Seq<Action>
    decreases n,
{
    if n <= 0 {
        Seq::empty()
    } else {
        work_prefix(sites, n - 1) + sites[n - 1].spec_open_slots().map_values(
            |slot: usize| Action::SeekWork { job: JobId { site: (n - 1) as usize, slot } },
        )
    }
}

/// One visit per other idle party among the first `n`.
pub open spec fn visit_prefix(parties: Seq<Party>, who: usize, n: int) -> Seq<Action>
    decreases n,
{
    if n <= 0 {
        Seq::empty()
    } else {
        visit_prefix(parties, who, n - 1) + if (n - 1) != who && parties[n - 1].activity == Activity::Idle {
            seq![Action::Socialize { toward: (n - 1) as usize }]
        } else {
            Seq::empty()
        }
    }
}

/// **The candidates open to `who`**: staying home, every open job, and
/// every other character standing at their own door.
pub open spec fn candidates_of(sim: Sim, who: usize) -> Seq<Action> {
    seq![Action::Idle] + work_prefix(sim.sites@, sim.sites@.len() as int) + visit_prefix(
        sim.parties@,
        who,
        sim.parties@.len() as int,
    )
}

/// **The candidates open to `who` right now**, built by the caller and
/// weighed by the scorer.
pub fn candidates(sim: &Sim, who: usize) -> (out: Vec<Action>)
    ensures
        out@ == candidates_of(*sim, who),
{
    let mut out: Vec<Action> = vec![Action::Idle];
    let ns = sim.sites.len();
    for site in 0..ns
        invariant
            ns == sim.sites@.len(),
            out@ == seq![Action::Idle] + work_prefix(sim.sites@, site as int),
    {
        let slots = sim.sites[site].open_slots();
        let ghost before = out@;
        let m = slots.len();
        for k in 0..m
            invariant
                m == slots@.len(),
                slots@ == sim.sites@[site as int].spec_open_slots(),
                out@ == before + slots@.take(k as int).map_values(
                    |slot: usize| Action::SeekWork { job: JobId { site, slot } },
                ),
        {
            out.push(Action::SeekWork { job: JobId { site, slot: slots[k] } });
            assert(out@ =~= before + slots@.take(k + 1).map_values(
                |slot: usize| Action::SeekWork { job: JobId { site, slot } },
            ));
        }
        assert(slots@.take(m as int) =~= slots@);
        assert(out@ =~= seq![Action::Idle] + work_prefix(sim.sites@, site + 1));
    }
    let ghost worked = out@;
    let np = sim.parties.len();
    for other in 0..np
        invariant
            np == sim.parties@.len(),
            worked == seq![Action::Idle] + work_prefix(sim.sites@, ns as int),
            out@ == worked + visit_prefix(sim.parties@, who, other as int),
    {
        if other != who && sim.parties[other].activity == Activity::Idle {
            out.push(Action::Socialize { toward: other });
        }
        assert(out@ =~= worked + visit_prefix(sim.parties@, who, other + 1));
    }
    assert(out@ =~= candidates_of(*sim, who));
    out
}


// ── the weighing ───────────────────────────────────────────────────────────

/// Integer division as code does it: toward zero.
pub open spec fn tdiv(a: int, b: int) -> int {
    if a >= 0 { a / b } else { -((-a) / b) }
}

/// The world-minute a party's rest ends at; nobody without a party rests.
pub open spec fn rest_until(sim: Sim, who: usize) -> u64 {
    if who < sim.parties@.len() { sim.parties@[who as int].rested_until } else { 0 }
}

/// A character's name, or "somebody".
pub open spec fn host_name(sim: Sim, who: usize) -> Seq<char> {
    if who < sim.people@.len() { sim.people@[who as int].name@ } else { "somebody"@ }
}

/// **Which rows moved a regard term**, or the bare fact if none did.
pub open spec fn regard_cause(raw: int, carried: Seq<TraitId>, fact: Seq<char>) -> CauseV {
    let rows = rows_where(carried, moves_regard(raw));
    if rows.len() == 0 { CauseV::Fact(fact) } else { CauseV::Rows(rows) }
}

/// The need term every piece of paid work opens with.
pub open spec fn need_term(desperation: i64, tuning: Tuning) -> TermV {
    term(
        "need"@,
        desperation * tuning.need_weight,
        CauseV::Fact("desperation "@ + int_digits(desperation as int)),
        "needs the money"@,
    )
}

/// The aptitude term for a task, if the carrier has any aptitude for it.
pub open spec fn aptitude_terms(carried: Seq<TraitId>, task: crate::traits::TaskType, tuning: Tuning) -> Seq<TermV> {
    let apt = competence_sum(task, carried);
    if apt != 0 {
        seq![term(
            "aptitude"@,
            apt * tuning.apt_weight,
            CauseV::Rows(seq![aptitude_row(task)]),
            "good at "@ + task_id(task) + " work"@,
        )]
    } else {
        Seq::empty()
    }
}

/// The rest term, while the last job's rest has not ended.
pub open spec fn rest_terms(sim: Sim, tuning: Tuning, now: u64, who: usize) -> Seq<TermV> {
    if now < rest_until(sim, who) {
        seq![term(
            "rest"@,
            -tuning.rest_weight,
            CauseV::Fact("not stopped since the last job"@),
            "not stopped since the last job"@,
        )]
    } else {
        Seq::empty()
    }
}

/// The want term for a job: every want that covers its work.
pub open spec fn want_terms(carried: Seq<TraitId>, task: crate::traits::TaskType, tuning: Tuning) -> Seq<TermV> {
    let p = pressure_sum(task, carried);
    let rows = rows_where(carried, wants_task(task));
    if p != 0 {
        seq![term("want"@, p * tuning.want_weight, CauseV::Rows(rows), rows_phrase(rows) + ", and this is "@ + task_id(task) + " work"@)]
    } else {
        Seq::empty()
    }
}

/// The pot term for a job, for a carrier a pot pulls on.
pub open spec fn pot_terms(carried: Seq<TraitId>, quest: crate::sim::Quest, tuning: Tuning) -> Seq<TermV> {
    let pull = pot_pull_sum(carried);
    if pull != 0 {
        seq![term(
            "pot"@,
            tdiv(pull * quest.pot * tuning.pot_weight, 10),
            CauseV::Rows(rows_where(carried, feels_pot())),
            "the pot is "@ + int_digits(quest.pot as int) + "g"@,
        )]
    } else {
        Seq::empty()
    }
}

/// **What a job is worth to somebody**, term by term: need, the wants that
/// cover its work, the aptitude named after its work, the pot's pull, rest.
pub open spec fn work_terms(sim: Sim, tuning: Tuning, now: u64, who: usize, quest: crate::sim::Quest) -> Seq<TermV> {
    let person = sim.people@[who as int];
    let carried = person.traits@;
    seq![need_term(person.desperation, tuning)] + want_terms(carried, quest.task, tuning) + aptitude_terms(
        carried,
        quest.task,
        tuning,
    ) + pot_terms(carried, quest, tuning) + rest_terms(sim, tuning, now, who)
}

/// **What a visit is worth**: regard, as the visitor's own personality weighs it.
pub open spec fn visit_terms(sim: Sim, tuning: Tuning, who: usize, toward: usize) -> Seq<TermV> {
    let carried = sim.people@[who as int].traits@;
    let raw = sim.shared.spec_regard(who, Regarded::Person(toward)) as int;
    let host = host_name(sim, toward);
    seq![term(
        "regard"@,
        weighted(raw, carried) * tuning.regard_weight,
        regard_cause(raw, carried, "what they make of "@ + host),
        "thinks well of "@ + host,
    )]
}

/// **What one candidate is worth to `who`**, term by term.
pub open spec fn weigh_of(sim: Sim, tuning: Tuning, now: u64, who: usize, action: Action) -> Seq<TermV> {
    if who >= sim.people@.len() {
        Seq::empty()
    } else {
        match action {
            Action::Idle => seq![term(
                "idle"@,
                tuning.idle_floor as int,
                CauseV::Fact("the floor every errand has to beat"@),
                "nothing worth leaving for"@,
            )],
            Action::SeekWork { job } => match sim.quest_of(job) {
                Some(q) => work_terms(sim, tuning, now, who, q),
                None => Seq::empty(),
            },
            Action::Answer { posting, job } => if posting < sim.postings@.len() {
                crate::answers::answer_terms(sim, tuning, now, who, sim.postings@[posting as int], job)
            } else {
                Seq::empty()
            },
            Action::Socialize { toward } => visit_terms(sim, tuning, who, toward),
        }
    }
}

/// What a candidate scores: the sum of its terms.
pub open spec fn score_of(sim: Sim, tuning: Tuning, now: u64, who: usize, action: Action) -> int {
    total(weigh_of(sim, tuning, now, who, action))
}

/// `a`, then `n`, then `b`, as one string.
pub fn said(a: &str, n: i64, b: &str) -> (s: String)
    ensures
        s@ == a@ + int_digits(n as int) + b@,
{
    let mut s = String::from_str(a);
    push_i64(&mut s, n);
    s.append(b);
    s
}

/// `a` then `b` as one string.
pub fn joined(a: &str, b: &str) -> (s: String)
    ensures
        s@ == a@ + b@,
{
    let mut s = String::from_str(a);
    s.append(b);
    s
}

/// **Which rows moved a regard term** — the carrier's own multipliers on the
/// side of the ledger this regard is on — or the bare fact.
pub fn cause_of_regard(raw: i64, carried: &[TraitId], fact: &str) -> (c: Cause)
    ensures
        c@ == regard_cause(raw as int, carried@, fact@),
{
    let rows = crate::traits::weighing_regard(raw, carried);
    if rows.len() == 0 {
        Cause::fact(fact)
    } else {
        Cause::Rows(rows)
    }
}

/// The need term.
pub fn need(desperation: i64, tuning: &Tuning) -> (t: Term)
    requires
        0 <= desperation <= 10,
        tuning.wf(),
    ensures
        t@ == need_term(desperation, *tuning),
        -TERM_BOUND <= t@.value <= TERM_BOUND,
{
    proof { reveal_strlit("desperation "); reveal_strlit(""); reveal_strlit("needs the money"); }
    assert(-100_000 <= desperation * tuning.need_weight <= 100_000) by (nonlinear_arith)
        requires 0 <= desperation <= 10, -10_000 <= tuning.need_weight <= 10_000;
    Term {
        what: "need",
        value: desperation * tuning.need_weight,
        cause: Cause::Fact(said("desperation ", desperation, "")),
        because: String::from_str("needs the money"),
    }
}

/// The aptitude term, if any.
pub fn push_aptitude(out: &mut Vec<Term>, carried: &[TraitId], task: crate::traits::TaskType, tuning: &Tuning)
    requires
        carried@.len() <= crate::traits::MAX_CARRIED,
        tuning.wf(),
    ensures
        terms_view(final(out)@) == terms_view(old(out)@) + aptitude_terms(carried@, task, *tuning),
        forall|i: int| old(out)@.len() <= i < final(out)@.len() ==> -TERM_BOUND <= #[trigger] final(out)@[i].value <= TERM_BOUND,
        final(out)@.len() <= old(out)@.len() + 1,
{
    proof { reveal_strlit("aptitude"); reveal_strlit("good at "); reveal_strlit(" work"); }
    let apt = crate::traits::competence_at(task, carried);
    if apt != 0 {
        assert(-200_000 <= apt * tuning.apt_weight <= 200_000) by (nonlinear_arith)
            requires 0 <= apt <= 16, -10_000 <= tuning.apt_weight <= 10_000;
        let mut because = joined("good at ", task.id());
        because.append(" work");
        let rows = vec![task.aptitude()];
        assert(rows@ =~= seq![aptitude_row(task)]);
        let t = Term { what: "aptitude", value: apt * tuning.apt_weight, cause: Cause::Rows(rows), because };
        assert(t@ == aptitude_terms(carried@, task, *tuning)[0]);
        push_term(out, t);
    }
    assert(terms_view(out@) =~= terms_view(old(out)@) + aptitude_terms(carried@, task, *tuning));
}

/// The rest term, if the last job's rest has not ended.
pub fn push_rest(out: &mut Vec<Term>, sim: &Sim, tuning: &Tuning, now: u64, who: usize)
    requires
        tuning.wf(),
    ensures
        terms_view(final(out)@) == terms_view(old(out)@) + rest_terms(*sim, *tuning, now, who),
        forall|i: int| old(out)@.len() <= i < final(out)@.len() ==> -TERM_BOUND <= #[trigger] final(out)@[i].value <= TERM_BOUND,
        final(out)@.len() <= old(out)@.len() + 1,
{
    proof { reveal_strlit("rest"); reveal_strlit("not stopped since the last job"); }
    let until = if who < sim.parties.len() { sim.parties[who].rested_until } else { 0 };
    if now < until {
        push_term(out, Term {
            what: "rest",
            value: -tuning.rest_weight,
            cause: Cause::fact("not stopped since the last job"),
            because: String::from_str("not stopped since the last job"),
        });
    }
    assert(terms_view(out@) =~= terms_view(old(out)@) + rest_terms(*sim, *tuning, now, who));
}

/// The value of `pull * amount * weight / 10`, as code computes it.
pub fn pull_value(pull: i64, amount: i64, weight: i64) -> (v: i64)
    requires
        -100 <= pull <= 100,
        -GOLD_BOUND <= amount <= GOLD_BOUND,
        -10_000 <= weight <= 10_000,
    ensures
        v == tdiv(pull * amount * weight, 10),
        -TERM_BOUND <= v <= TERM_BOUND,
{
    assert(-100_000_000_000_000 <= pull * amount <= 100_000_000_000_000) by (nonlinear_arith)
        requires -100 <= pull <= 100, -1_000_000_000_000 <= amount <= 1_000_000_000_000;
    let pa = pull * amount;
    assert(-1_000_000_000_000_000_000 <= pa * weight <= 1_000_000_000_000_000_000) by (nonlinear_arith)
        requires -100_000_000_000_000 <= pa <= 100_000_000_000_000, -10_000 <= weight <= 10_000;
    let p = pa * weight;
    if p >= 0 { p / 10 } else { -((-p) / 10) }
}

/// The want term for a job, if any want covers its work.
pub fn push_want(out: &mut Vec<Term>, carried: &[TraitId], task: crate::traits::TaskType, tuning: &Tuning)
    requires
        carried@.len() <= crate::traits::MAX_CARRIED,
        tuning.wf(),
    ensures
        terms_view(final(out)@) == terms_view(old(out)@) + want_terms(carried@, task, *tuning),
        forall|i: int| old(out)@.len() <= i < final(out)@.len() ==> -TERM_BOUND <= #[trigger] final(out)@[i].value <= TERM_BOUND,
        final(out)@.len() <= old(out)@.len() + 1,
{
    proof { reveal_strlit("want"); reveal_strlit(", and this is "); reveal_strlit(" work"); }
    let pressure = crate::traits::pressure_toward(task, carried);
    if pressure != 0 {
        let rows = crate::traits::wanting(task, carried);
        let mut because = crate::traits::phrase_of(rows.as_slice());
        because.append(", and this is ");
        because.append(task.id());
        because.append(" work");
        assert(-240_000 <= pressure * tuning.want_weight <= 240_000) by (nonlinear_arith)
            requires 0 <= pressure <= 24, -10_000 <= tuning.want_weight <= 10_000;
        let t = Term { what: "want", value: pressure * tuning.want_weight, cause: Cause::Rows(rows), because };
        assert(t@ == want_terms(carried@, task, *tuning)[0]);
        push_term(out, t);
    }
    assert(terms_view(out@) =~= terms_view(old(out)@) + want_terms(carried@, task, *tuning));
}

/// The pot term for a job, if a pot pulls on the carrier.
pub fn push_pot(out: &mut Vec<Term>, carried: &[TraitId], quest: crate::sim::Quest, tuning: &Tuning)
    requires
        carried@.len() <= crate::traits::MAX_CARRIED,
        tuning.wf(),
        0 <= quest.pot <= GOLD_BOUND,
    ensures
        terms_view(final(out)@) == terms_view(old(out)@) + pot_terms(carried@, quest, *tuning),
        forall|i: int| old(out)@.len() <= i < final(out)@.len() ==> -TERM_BOUND <= #[trigger] final(out)@[i].value <= TERM_BOUND,
        final(out)@.len() <= old(out)@.len() + 1,
{
    proof { reveal_strlit("pot"); reveal_strlit("the pot is "); reveal_strlit("g"); }
    let pull = crate::traits::pot_pull_of(carried);
    if pull != 0 {
        let t = Term {
            what: "pot",
            value: pull_value(pull, quest.pot, tuning.pot_weight),
            cause: Cause::Rows(crate::traits::drawn_by_a_pot(carried)),
            because: said("the pot is ", quest.pot, "g"),
        };
        assert(t@ == pot_terms(carried@, quest, *tuning)[0]);
        push_term(out, t);
    }
    assert(terms_view(out@) =~= terms_view(old(out)@) + pot_terms(carried@, quest, *tuning));
}

/// **What one candidate is worth to `who`**, and every term of it.
pub fn weigh(sim: &Sim, tuning: &Tuning, now: u64, who: usize, action: Action) -> (terms: Vec<Term>)
    requires
        sim.wf(),
        tuning.wf(),
    ensures
        terms_view(terms@) == weigh_of(*sim, *tuning, now, who, action),
        terms_ok(terms_view(terms@)),
{
    let mut terms: Vec<Term> = Vec::new();
    if who >= sim.people.len() {
        assert(terms_view(terms@) =~= weigh_of(*sim, *tuning, now, who, action));
        return terms;
    }
    let person = &sim.people[who];
    let carried = person.traits.as_slice();
    match action {
        Action::Idle => {
            proof {
                reveal_strlit("idle");
                reveal_strlit("the floor every errand has to beat");
                reveal_strlit("nothing worth leaving for");
            }
            push_term(&mut terms, Term {
                what: "idle",
                value: tuning.idle_floor,
                cause: Cause::fact("the floor every errand has to beat"),
                because: String::from_str("nothing worth leaving for"),
            });
        },
        Action::SeekWork { job } => {
            let quest = match sim.quest(job) {
                Some(q) => q,
                None => {
                    assert(terms_view(terms@) =~= weigh_of(*sim, *tuning, now, who, action));
                    return terms;
                },
            };
            proof { assert(sim.sites@[job.site as int].wf()); }
            push_term(&mut terms, need(person.desperation, tuning));
            push_want(&mut terms, carried, quest.task, tuning);
            push_aptitude(&mut terms, carried, quest.task, tuning);
            push_pot(&mut terms, carried, quest, tuning);
            push_rest(&mut terms, sim, tuning, now, who);
        },
        Action::Answer { posting, job } => {
            match sim.postings.get(posting) {
                Some(p) => {
                    return crate::answers::terms(sim, tuning, now, who, p, job);
                },
                None => {
                    assert(terms_view(terms@) =~= weigh_of(*sim, *tuning, now, who, action));
                    return terms;
                },
            }
        },
        Action::Socialize { toward } => {
            proof {
                reveal_strlit("regard");
                reveal_strlit("what they make of ");
                reveal_strlit("thinks well of ");
                reveal_strlit("somebody");
                crate::stores::lemma_regard_bounded(sim.shared, who, Regarded::Person(toward));
            }
            let raw = sim.shared.regard(who, Regarded::Person(toward));
            let felt = crate::traits::weighted_regard(raw, carried);
            let host = if toward < sim.people.len() { sim.people[toward].name } else { "somebody" };
            assert(-2_560_000_000_000 <= felt * tuning.regard_weight <= 2_560_000_000_000) by (nonlinear_arith)
                requires -256_000_000 <= felt <= 256_000_000, -10_000 <= tuning.regard_weight <= 10_000;
            let t = Term {
                what: "regard",
                value: felt * tuning.regard_weight,
                cause: cause_of_regard(raw, carried, joined("what they make of ", host).as_str()),
                because: joined("thinks well of ", host),
            };
            assert(t@ == visit_terms(*sim, *tuning, who, toward)[0]);
            push_term(&mut terms, t);
        },
    }
    assert(terms_view(terms@) =~= weigh_of(*sim, *tuning, now, who, action));
    terms
}


// ── the decision ───────────────────────────────────────────────────────────

/// Among the first `n` terms, the first strictly-largest positive one.
pub open spec fn loudest(ts: Seq<TermV>, n: int) -> Option<int>
    decreases n,
{
    if n <= 0 {
        None
    } else {
        let prev = loudest(ts, n - 1);
        if ts[n - 1].value > 0 && (prev is None || ts[n - 1].value > ts[prev->0].value) {
            Some(n - 1)
        } else {
            prev
        }
    }
}

proof fn lemma_loudest(ts: Seq<TermV>, n: int)
    requires
        0 <= n <= ts.len(),
    ensures
        loudest(ts, n) matches Some(i) ==> 0 <= i < n && ts[i].value > 0,
    decreases n,
{
    if n > 0 {
        lemma_loudest(ts, n - 1);
    }
}

proof fn lemma_loudest_is_the_first_largest(ts: Seq<TermV>, n: int)
    requires
        0 <= n <= ts.len(),
    ensures
        loudest(ts, n) matches Some(i) ==> {
            &&& 0 <= i < n
            &&& ts[i].value > 0
            &&& forall|j: int| 0 <= j < n ==> (#[trigger] ts[j]).value <= ts[i].value
            &&& forall|j: int| 0 <= j < i ==> (#[trigger] ts[j]).value < ts[i].value
        },
        loudest(ts, n) is None ==> forall|j: int| 0 <= j < n ==> (#[trigger] ts[j]).value <= 0,
    decreases n,
{
    if n > 0 {
        lemma_loudest_is_the_first_largest(ts, n - 1);
    }
}

/// **The reason is the loudest term's own sentence**: when term `i` is
/// positive, no term is larger and every term before it is smaller, the
/// words for a choice weighed by `ts` are what term `i` says; and when no
/// term is positive, they are the stock phrase for staying or for going.
pub proof fn lemma_the_words_are_the_loudest_term(action: Action, ts: Seq<TermV>, i: int)
    ensures
        0 <= i < ts.len() && ts[i].value > 0
            && (forall|j: int| 0 <= j < ts.len() ==> (#[trigger] ts[j]).value <= ts[i].value)
            && (forall|j: int| 0 <= j < i ==> (#[trigger] ts[j]).value < ts[i].value)
            ==> words_of(action, ts) == ts[i].because,
        (forall|j: int| 0 <= j < ts.len() ==> (#[trigger] ts[j]).value <= 0) ==> words_of(action, ts) == if action
            == Action::Idle {
            "nothing worth leaving for"@
        } else {
            "nothing better to do"@
        },
{
    lemma_loudest_is_the_first_largest(ts, ts.len() as int);
    if 0 <= i < ts.len() && ts[i].value > 0
        && (forall|j: int| 0 <= j < ts.len() ==> (#[trigger] ts[j]).value <= ts[i].value)
        && (forall|j: int| 0 <= j < i ==> (#[trigger] ts[j]).value < ts[i].value) {
        match loudest(ts, ts.len() as int) {
            Some(k) => {
                if k < i {
                    assert(ts[k].value < ts[i].value);
                    assert(ts[i].value <= ts[k].value);
                } else if i < k {
                    assert(ts[i].value < ts[k].value);
                }
            },
            None => {
                assert(ts[i].value <= 0);
            },
        }
    }
    if ts.len() > 0 && (forall|j: int| 0 <= j < ts.len() ==> (#[trigger] ts[j]).value <= 0) {
        match loudest(ts, ts.len() as int) {
            Some(k) => { assert(ts[k].value <= 0); },
            None => {},
        }
    }
}

/// **The words**: the first strictly-largest positive term's own sentence.
pub open spec fn words_of(action: Action, ts: Seq<TermV>) -> Seq<char> {
    match loudest(ts, ts.len() as int) {
        Some(i) => ts[i].because,
        None => if action == Action::Idle { "nothing worth leaving for"@ } else { "nothing better to do"@ },
    }
}

/// **The words**: the first strictly-largest positive term's own sentence, so
/// a tie reads as the term the sum opened with.
pub fn words(action: Action, terms: &[Term]) -> (s: String)
    ensures
        s@ == words_of(action, terms_view(terms@)),
{
    proof { reveal_strlit("nothing worth leaving for"); reveal_strlit("nothing better to do"); }
    let ghost ts = terms_view(terms@);
    let n = terms.len();
    let mut best: Option<usize> = None;
    for i in 0..n
        invariant
            n == terms@.len(),
            ts == terms_view(terms@),
            best matches Some(b) ==> loudest(ts, i as int) == Some(b as int),
            best is None ==> loudest(ts, i as int) is None,
    {
        proof { lemma_loudest(ts, i as int); }
        let louder = match best {
            None => terms[i].value > 0,
            Some(b) => terms[i].value > 0 && terms[i].value > terms[b].value,
        };
        if louder {
            best = Some(i);
        }
    }
    match best {
        Some(b) => {
            proof { lemma_loudest(ts, n as int); }
            terms[b].because.clone()
        },
        None => if action == Action::Idle {
            String::from_str("nothing worth leaving for")
        } else {
            String::from_str("nothing better to do")
        },
    }
}

/// Among the first `n` candidates, the first with the highest score.
pub open spec fn best_index(sim: Sim, tuning: Tuning, now: u64, who: usize, open: Seq<Action>, n: int) -> int
    decreases n,
{
    if n <= 1 {
        0
    } else {
        let b = best_index(sim, tuning, now, who, open, n - 1);
        if score_of(sim, tuning, now, who, open[n - 1]) > score_of(sim, tuning, now, who, open[b]) {
            n - 1
        } else {
            b
        }
    }
}

/// **The best candidate is the first with the highest score**: it scores at
/// least every candidate, and strictly more than every one before it.
pub proof fn lemma_best_index(sim: Sim, tuning: Tuning, now: u64, who: usize, open: Seq<Action>, n: int)
    requires
        1 <= n <= open.len(),
    ensures
        0 <= best_index(sim, tuning, now, who, open, n) < n,
        forall|i: int| 0 <= i < n ==> score_of(sim, tuning, now, who, #[trigger] open[i]) <= score_of(
            sim,
            tuning,
            now,
            who,
            open[best_index(sim, tuning, now, who, open, n)],
        ),
        forall|i: int| 0 <= i < best_index(sim, tuning, now, who, open, n) ==> score_of(sim, tuning, now, who, #[trigger] open[i])
            < score_of(sim, tuning, now, who, open[best_index(sim, tuning, now, who, open, n)]),
    decreases n,
{
    if n > 1 {
        lemma_best_index(sim, tuning, now, who, open, n - 1);
    }
}

/// The decision `decide` returns, as contracts read it: the action, its score,
/// its terms and its words.
pub open spec fn chosen(sim: Sim, tuning: Tuning, now: u64, who: usize, open: Seq<Action>) -> (Action, int, Seq<TermV>, Seq<char>) {
    if open.len() == 0 {
        (Action::Idle, tuning.idle_floor as int, Seq::empty(), "nothing worth leaving for"@)
    } else {
        let a = open[best_index(sim, tuning, now, who, open, open.len() as int)];
        let ts = weigh_of(sim, tuning, now, who, a);
        (a, total(ts), ts, words_of(a, ts))
    }
}

/// Whether a judgement is the decision `decide` makes.
pub open spec fn judged_is(j: Judged, d: (Action, int, Seq<TermV>, Seq<char>)) -> bool {
    &&& j.action == d.0
    &&& j.score == d.1
    &&& terms_view(j.terms@) == d.2
    &&& j.reason@ == d.3
}

/// **The one decision function**: the best of these candidates, and the
/// words. Ties go to the earlier candidate.
pub fn decide(sim: &Sim, tuning: &Tuning, now: u64, who: usize, open: &[Action]) -> (j: Judged)
    requires
        sim.wf(),
        tuning.wf(),
    ensures
        judged_is(j, chosen(*sim, *tuning, now, who, open@)),
        terms_ok(terms_view(j.terms@)),
{
    proof { reveal_strlit("nothing worth leaving for"); }
    let mut best = Judged {
        action: Action::Idle,
        score: tuning.idle_floor,
        terms: Vec::new(),
        reason: String::from_str("nothing worth leaving for"),
    };
    assert(terms_view(best.terms@) =~= Seq::<TermV>::empty());
    let n = open.len();
    for i in 0..n
        invariant
            n == open@.len(),
            sim.wf(),
            tuning.wf(),
            terms_ok(terms_view(best.terms@)),
            i == 0 ==> judged_is(best, (Action::Idle, tuning.idle_floor as int, Seq::empty(), "nothing worth leaving for"@)),
            i > 0 ==> judged_is(best, {
                let a = open@[best_index(*sim, *tuning, now, who, open@, i as int)];
                let ts = weigh_of(*sim, *tuning, now, who, a);
                (a, total(ts), ts, words_of(a, ts))
            }),
    {
        let action = open[i];
        let terms = weigh(sim, tuning, now, who, action);
        let score = sum_terms(&terms);
        if i == 0 || score > best.score {
            let reason = words(action, terms.as_slice());
            best = Judged { action, score, reason, terms };
        }
    }
    best
}

/// What a job is called where it is: its quest at its place.
pub open spec fn job_words(sim: Sim, job: JobId) -> Seq<char> {
    let what = match sim.quest_of(job) {
        Some(q) => q.name@,
        None => "work"@,
    };
    what + " at "@ + crate::sim::spec_site_name(sim, job.site)
}

/// **What an action is, in words**.
pub open spec fn describe_of(sim: Sim, action: Action) -> Seq<char> {
    match action {
        Action::Idle => "staying home"@,
        Action::SeekWork { job } => job_words(sim, job),
        Action::Answer { job, .. } => "the posting for "@ + job_words(sim, job),
        Action::Socialize { toward } => "visiting "@ + host_name(sim, toward),
    }
}

fn job_name(sim: &Sim, job: JobId) -> (s: String)
    ensures
        s@ == job_words(*sim, job),
{
    proof { reveal_strlit("work"); reveal_strlit(" at "); }
    let what = match sim.quest(job) {
        Some(q) => q.name,
        None => "work",
    };
    let mut s = joined(what, " at ");
    s.append(crate::sim::site_name(sim, job.site));
    s
}

/// **What an action is, in words** — what a breakdown's heading says.
pub fn describe(sim: &Sim, action: Action) -> (s: String)
    ensures
        s@ == describe_of(*sim, action),
{
    proof {
        reveal_strlit("staying home");
        reveal_strlit("the posting for ");
        reveal_strlit("visiting ");
        reveal_strlit("somebody");
    }
    match action {
        Action::Idle => String::from_str("staying home"),
        Action::SeekWork { job } => job_name(sim, job),
        Action::Answer { job, .. } => {
            let name = job_name(sim, job);
            joined("the posting for ", name.as_str())
        },
        Action::Socialize { toward } => {
            let host = if toward < sim.people.len() { sim.people[toward].name } else { "somebody" };
            joined("visiting ", host)
        },
    }
}

/// Whether `r` is the record of the decision `judged`, made on `sim`: what
/// was chosen in words, its score and every term, and nothing beating it.
pub open spec fn reckons(r: Reckoning, sim: Sim, judged: Judged) -> bool {
    &&& r.chose@ == describe_of(sim, judged.action)
    &&& r.score == judged.score
    &&& terms_view(r.terms@) == terms_view(judged.terms@)
    &&& r.beaten_by is None
}

/// Every field of two worlds but their kept reckonings is the same.
pub open spec fn same_but_reckonings(a: Sim, b: Sim) -> bool {
    &&& a.people == b.people
    &&& a.parties == b.parties
    &&& a.locations == b.locations
    &&& a.sites == b.sites
    &&& a.postings == b.postings
    &&& a.rates == b.rates
    &&& a.treasury == b.treasury
    &&& a.events == b.events
    &&& a.modules == b.modules
    &&& a.ports == b.ports
    &&& a.shared == b.shared
    &&& a.settlement == b.settlement
    &&& a.attention == b.attention
    &&& a.pause == b.pause
    &&& a.pauses == b.pauses
}

proof fn lemma_best_index_reads_no_record(a: Sim, b: Sim, tuning: Tuning, now: u64, who: usize, open: Seq<Action>, n: int)
    requires
        same_but_reckonings(a, b),
    ensures
        best_index(a, tuning, now, who, open, n) == best_index(b, tuning, now, who, open, n),
    decreases n,
{
    assert(a == Sim { reckonings: a.reckonings, ..b });
    if n > 1 {
        lemma_best_index_reads_no_record(a, b, tuning, now, who, open, n - 1);
    }
}

/// **A reckoning is a record, never an input**: two worlds that differ only
/// in the reckonings they keep offer `who` the same candidates, weigh every
/// candidate to the same terms, and choose the same thing for the same
/// reasons.
pub proof fn lemma_a_reckoning_is_never_an_input(a: Sim, b: Sim, tuning: Tuning, now: u64, who: usize, action: Action, open: Seq<Action>)
    requires
        same_but_reckonings(a, b),
    ensures
        candidates_of(a, who) == candidates_of(b, who),
        weigh_of(a, tuning, now, who, action) == weigh_of(b, tuning, now, who, action),
        chosen(a, tuning, now, who, open) == chosen(b, tuning, now, who, open),
{
    assert(a == Sim { reckonings: a.reckonings, ..b });
    lemma_best_index_reads_no_record(a, b, tuning, now, who, open, open.len() as int);
}

/// **The scorer's own return, as a record**.
pub fn reckon(sim: &Sim, judged: &Judged) -> (r: Reckoning)
    ensures
        reckons(r, *sim, *judged),
{
    Reckoning {
        chose: describe(sim, judged.action),
        score: judged.score,
        terms: copy_terms(&judged.terms),
        beaten_by: None,
    }
}


// ── carrying it out ────────────────────────────────────────────────────────

/// The feed `after` is the feed `before` with occurrences appended.
pub open spec fn events_kept(before: Seq<crate::sim::Event>, after: Seq<crate::sim::Event>) -> bool {
    after.len() >= before.len() && after.take(before.len() as int) == before
}

/// Appending keeps the feed; keeping is transitive.
pub proof fn lemma_events_kept(a: Seq<crate::sim::Event>, b: Seq<crate::sim::Event>, c: Seq<crate::sim::Event>)
    requires
        events_kept(a, b),
        events_kept(b, c),
    ensures
        events_kept(a, c),
{
    assert(c.take(a.len() as int) =~= c.take(b.len() as int).take(a.len() as int));
}

/// Every field of a world that holds people and money is the same.
pub open spec fn same_people_and_money(a: Sim, b: Sim) -> bool {
    &&& a.people == b.people
    &&& a.rates == b.rates
    &&& a.treasury == b.treasury
    &&& a.modules == b.modules
    &&& a.ports == b.ports
    &&& a.shared == b.shared
    &&& a.settlement == b.settlement
    &&& a.locations == b.locations
    &&& a.attention == b.attention
    &&& a.pause == b.pause
    &&& a.pauses == b.pauses
}

/// What carrying out a decision does to a world: staying home changes
/// nothing; going for work says so, keeps the arithmetic, and claims the row
/// when the party is free and the row open; a visit says so and keeps the
/// arithmetic; an answer goes through the agreement. No purse, rate or
/// treasury is touched, and the feed only grows.
pub open spec fn carried_out(before: Sim, after: Sim, tuning: Tuning, now: u64, who: usize, action: Action) -> bool {
    &&& same_people_and_money(after, before)
    &&& events_kept(before.events@, after.events@)
    &&& action == Action::Idle ==> after == before
    &&& action is SeekWork ==> {
        let job = action->SeekWork_job;
        let ok = before.spec_is_idle(who) && before.is_open(job);
        &&& after.postings == before.postings
        &&& after.reckonings@.len() == before.reckonings@.len() + 1
        &&& after.events@.len() == before.events@.len() + if ok { 2int } else { 1int }
        &&& after.events@[before.events@.len() as int].class == EventClass::ActionStarted
        &&& ok ==> {
            &&& claimed_in(before.sites@, after.sites@, job, who)
            &&& after.parties@ == before.parties@.update(who as int, Party {
                activity: Activity::Working {
                    until: later(now, before.sites@[job.site as int].quests@[job.slot as int].duration),
                },
                ..before.parties@[who as int]
            })
        }
        &&& !ok ==> after.sites == before.sites && after.parties == before.parties
    }
    &&& action is Socialize ==> {
        let toward = action->toward;
        let ok = before.spec_is_idle(who) && toward < before.people@.len() && toward != who;
        &&& after.postings == before.postings
        &&& after.sites == before.sites
        &&& after.reckonings@.len() == before.reckonings@.len() + 1
        &&& after.events@.len() == before.events@.len() + if ok { 2int } else { 1int }
        &&& after.events@[before.events@.len() as int].class == EventClass::ActionStarted
        &&& ok ==> after.parties@ == before.parties@.update(who as int, Party {
            activity: Activity::Visiting {
                until: later(now, (if tuning.visit_minutes <= 0 { 0 } else { tuning.visit_minutes }) as u64),
            },
            ..before.parties@[who as int]
        })
        &&& !ok ==> after.parties == before.parties
    }
    &&& action is Answer ==> {
        let id = action->posting;
        let job = action->Answer_job;
        let ok = before.spec_is_idle(who) && before.is_open(job);
        if id < before.postings@.len() {
            let asked = before.postings@[id as int];
            &&& after.reckonings@.len() == before.reckonings@.len() + 1
            &&& after.events@.len() == before.events@.len() + 2
            &&& after.events@[before.events@.len() as int].class == EventClass::AskAgreed
            &&& ok ==> {
                &&& claimed_in(before.sites@, after.sites@, job, who)
                &&& after.parties@ == before.parties@.update(who as int, Party {
                    activity: Activity::Working {
                        until: later(now, before.sites@[job.site as int].quests@[job.slot as int].duration),
                    },
                    posting: Some(id),
                    ..before.parties@[who as int]
                })
                &&& after.postings@.len() == before.postings@.len()
                &&& forall|i: int| 0 <= i < before.postings@.len() && i != id ==> #[trigger] after.postings@[i] == before.postings@[i]
                &&& crate::answers::answered_now(asked, after.postings@[id as int], who)
                &&& after.postings@[id as int].answered@.last().1 == crate::asks::Answer::Agreed { job }
                &&& after.postings@[id as int].status == if asked.until == crate::asks::Until::Done {
                    crate::asks::Status::Filled
                } else {
                    asked.status
                }
                &&& after.events@.last().class == EventClass::Departed
            }
            &&& !ok ==> {
                &&& after.sites == before.sites
                &&& after.parties == before.parties
                &&& after.postings == before.postings
                &&& after.events@.last().class == EventClass::AskDropped
            }
        } else {
            after == before
        }
    }
}

/// **Carry out what the scorer chose** — through the one dispatch loop. A
/// decision to do something is said in the feed and its arithmetic kept
/// beside it; staying home is not an occurrence.
pub fn act(sim: &mut Sim, tuning: &Tuning, now: u64, who: usize, judged: Judged)
    requires
        old(sim).wf(),
        tuning.wf(),
    ensures
        final(sim).wf(),
        carried_out(*old(sim), *final(sim), *tuning, now, who, judged.action),
        !(judged.action is Idle) && !(judged.action is Answer && judged.action->posting >= old(sim).postings@.len()) ==> {
            &&& final(sim).reckonings@.drop_last() == old(sim).reckonings@
            &&& reckons(final(sim).reckonings@.last(), *old(sim), judged)
        },
{
    let tile = sim.tile_of(who);
    let reckoning = reckon(sim, &judged);
    assert(old(sim).events@.take(old(sim).events@.len() as int) =~= old(sim).events@);
    proof { reveal_strlit("took "); reveal_strlit(" - "); reveal_strlit("went to see "); reveal_strlit("somebody"); }
    match judged.action {
        Action::Idle => {},
        Action::SeekWork { job } => {
            let mut note = String::from_str("took ");
            let name = job_name(sim, job);
            note.append(name.as_str());
            note.append(" - ");
            note.append(judged.reason.as_str());
            let ghost e0 = sim.events@;
            sim.emit(now, EventClass::ActionStarted, who, tile, note);
            sim.remember(reckoning);
            let ghost mid = *sim;
            let _ = dispatch(sim, now, who, job, judged.reason.as_str());
            assert(sim.events@[e0.len() as int] == mid.events@.last()) by {
                if sim.events@.len() > mid.events@.len() {
                    assert(sim.events@[e0.len() as int] == sim.events@.drop_last()[e0.len() as int]);
                }
            }
            assert(events_kept(e0, sim.events@)) by {
                assert(mid.events@.take(e0.len() as int) =~= e0);
                if sim.events@.len() > mid.events@.len() {
                    assert(sim.events@.take(mid.events@.len() as int) =~= mid.events@);
                } else {
                    assert(sim.events@.take(mid.events@.len() as int) =~= mid.events@);
                }
                lemma_events_kept(e0, mid.events@, sim.events@);
            }
        },
        Action::Answer { .. } => {
            crate::answers::agree(sim, tuning, now, who, judged, reckoning);
        },
        Action::Socialize { toward } => {
            let host = if toward < sim.people.len() { sim.people[toward].name } else { "somebody" };
            let mut note = String::from_str("went to see ");
            note.append(host);
            note.append(" - ");
            note.append(judged.reason.as_str());
            let ghost e0 = sim.events@;
            sim.emit(now, EventClass::ActionStarted, who, tile, note);
            sim.remember(reckoning);
            let ghost mid = *sim;
            let _ = call_on(sim, tuning, now, who, toward, judged.reason.as_str());
            assert(sim.events@[e0.len() as int] == mid.events@.last()) by {
                if sim.events@.len() > mid.events@.len() {
                    assert(sim.events@[e0.len() as int] == sim.events@.drop_last()[e0.len() as int]);
                }
            }
            assert(events_kept(e0, sim.events@)) by {
                assert(mid.events@.take(e0.len() as int) =~= e0);
                if sim.events@.len() > mid.events@.len() {
                    assert(sim.events@.take(mid.events@.len() as int) =~= mid.events@);
                } else {
                    assert(sim.events@.take(mid.events@.len() as int) =~= mid.events@);
                }
                lemma_events_kept(e0, mid.events@, sim.events@);
            }
        },
    }
}

/// The posting a decision takes, if it is an answer.
pub open spec fn taken_of(a: Action) -> Option<usize> {
    match a {
        Action::Answer { posting, .. } => Some(posting),
        _ => None,
    }
}

/// **One turn of weighing, as it happens to a world**: the board is read
/// first; then, in the world that reading left, the best of everything the
/// character could do — their own candidates and every heard posting's — is
/// carried out; then every named ask they heard and did not take is declined
/// with the decision's own words.
pub open spec fn weighed_and_done(before: Sim, after: Sim, tuning: Tuning, now: u64, who: usize) -> bool {
    exists|heard: Sim| #![trigger read_the_board(before, heard, now, who)] {
        let d = chosen(heard, tuning, now, who, candidates_of(heard, who) + crate::answers::answer_candidates(heard, who));
        &&& read_the_board(before, heard, now, who)
        &&& exists|acted: Sim| #![trigger carried_out(heard, acted, tuning, now, who, d.0)] {
            &&& carried_out(heard, acted, tuning, now, who, d.0)
            &&& crate::answers::refusals_recorded(acted, after, who, taken_of(d.0), d.3)
        }
    }
}

/// **One character's turn to weigh what to do.** Nobody who is out is
/// rescored; somebody at home first reads the board, then weighs everything
/// they could do, does the best of it, and says no to every named ask they
/// heard and did not take.
pub fn rescore(sim: &mut Sim, tuning: &Tuning, now: u64, who: usize)
    requires
        old(sim).wf(),
        tuning.wf(),
    ensures
        final(sim).wf(),
        (!old(sim).modules.spec_enabled(MODULE) || !old(sim).spec_is_idle(who)) ==> *final(sim) == *old(sim),
        same_people_and_money(*final(sim), *old(sim)),
        final(sim).postings@.len() == old(sim).postings@.len(),
        crate::asks::hearings_kept(old(sim).postings@, final(sim).postings@),
        crate::asks::terms_kept(old(sim).postings@, final(sim).postings@),
        events_kept(old(sim).events@, final(sim).events@),
        old(sim).modules.spec_enabled(MODULE) && old(sim).spec_is_idle(who) && old(sim).modules.spec_enabled(
            crate::asks::MODULE,
        ) ==> forall|i: int| 0 <= i < old(sim).postings@.len() && crate::asks::unread_notice(#[trigger] old(sim).postings@[i], who)
            ==> final(sim).postings@[i].spec_heard_by(who) is Some,
        old(sim).modules.spec_enabled(MODULE) && old(sim).spec_is_idle(who) ==> weighed_and_done(
            *old(sim),
            *final(sim),
            *tuning,
            now,
            who,
        ),
{
    proof {
        crate::asks::lemma_hearings_kept_refl(sim.postings@);
        assert(sim.events@.take(sim.events@.len() as int) =~= sim.events@);
    }
    if !sim.modules.enabled(MODULE) {
        return;
    }
    if who >= sim.parties.len() || sim.parties[who].activity != Activity::Idle {
        return;
    }
    crate::asks::hear_the_board(sim, now, who);
    proof {
        if !old(sim).modules.spec_enabled(crate::asks::MODULE) {
            assert(sim.events@.take(sim.events@.len() as int) =~= sim.events@);
        }
        let a = old(sim).postings@;
        let b = sim.postings@;
        if old(sim).modules.spec_enabled(crate::asks::MODULE) {
            assert forall|i: int| 0 <= i < a.len() implies {
                &&& (#[trigger] b[i]).heard@.len() >= a[i].heard@.len()
                &&& b[i].heard@.take(a[i].heard@.len() as int) == a[i].heard@
            } by {
                if crate::asks::unread_notice(a[i], who) {
                    assert(b[i].heard@.take(a[i].heard@.len() as int) =~= a[i].heard@);
                } else {
                    assert(b[i].heard@.take(a[i].heard@.len() as int) =~= a[i].heard@);
                }
            }
        }
    }
    let ghost heard = *sim;
    let mut open = candidates(sim, who);
    let mut asked = crate::answers::candidates(sim, who);
    open.append(&mut asked);
    let judged = decide(sim, tuning, now, who, open.as_slice());
    let ghost d = chosen(heard, *tuning, now, who, open@);
    let taken = match judged.action {
        Action::Answer { posting, .. } => Some(posting),
        _ => None,
    };
    let reason = judged.reason.clone();
    act(sim, tuning, now, who, judged);
    let ghost acted = *sim;
    proof {
        let a = heard.postings@;
        let b = acted.postings@;
        assert forall|i: int| 0 <= i < a.len() implies {
            &&& (#[trigger] b[i]).heard@.len() >= a[i].heard@.len()
            &&& b[i].heard@.take(a[i].heard@.len() as int) == a[i].heard@
        } by {
            assert(b[i].heard == a[i].heard);
            assert(b[i].heard@.take(a[i].heard@.len() as int) =~= a[i].heard@);
        }
        crate::asks::lemma_hearings_kept_trans(old(sim).postings@, a, b);
        lemma_events_kept(old(sim).events@, heard.events@, acted.events@);
    }
    crate::answers::record_refusals(sim, now, who, taken, reason.as_str());
    proof {
        assert(open@ == candidates_of(heard, who) + crate::answers::answer_candidates(heard, who));
        assert(taken == taken_of(d.0));
        assert(carried_out(heard, acted, *tuning, now, who, d.0));
        assert(crate::answers::refusals_recorded(acted, *sim, who, taken_of(d.0), d.3));
        assert(read_the_board(*old(sim), heard, now, who));
        assert(weighed_and_done(*old(sim), *sim, *tuning, now, who));
    }
    proof {
        let a = acted.postings@;
        let b = sim.postings@;
        assert forall|i: int| 0 <= i < a.len() implies {
            &&& (#[trigger] b[i]).heard@.len() >= a[i].heard@.len()
            &&& b[i].heard@.take(a[i].heard@.len() as int) == a[i].heard@
        } by {
            assert(b[i].heard == a[i].heard);
            assert(b[i].heard@.take(a[i].heard@.len() as int) =~= a[i].heard@);
        }
        crate::asks::lemma_hearings_kept_trans(old(sim).postings@, a, b);
        if acted.modules.spec_enabled(crate::asks::MODULE) {
            lemma_events_kept(old(sim).events@, acted.events@, sim.events@);
        }
    }
    proof {
        if old(sim).modules.spec_enabled(crate::asks::MODULE) {
            assert forall|i: int| 0 <= i < old(sim).postings@.len() && crate::asks::unread_notice(#[trigger] old(sim).postings@[i], who)
                implies sim.postings@[i].spec_heard_by(who) is Some by {
                let h = heard.postings@[i].heard@;
                assert(h.last() == (who, now));
                lemma_heard_kept(h, who);
                assert(acted.postings@[i].heard == heard.postings@[i].heard);
                assert(sim.postings@[i].heard == acted.postings@[i].heard);
            }
        }
    }
}

/// Hearing is never forgotten: a record whose last hearing is by `who` says
/// they heard.
proof fn lemma_heard_kept(h: Seq<(usize, u64)>, who: usize)
    requires
        h.len() > 0,
        h.last().0 == who,
    ensures
        crate::asks::heard_minute(h, who) is Some,
    decreases h.len(),
{
    if h[0].0 != who {
        assert(h.drop_first().last() == h.last());
        lemma_heard_kept(h.drop_first(), who);
    }
}

/// The sum of two runs of terms is the sum of their sums.
pub proof fn lemma_total_append(a: Seq<TermV>, b: Seq<TermV>)
    ensures
        total(a + b) == total(a) + total(b),
    decreases b.len(),
{
    if b.len() > 0 {
        lemma_total_append(a, b.drop_last());
        assert((a + b).drop_last() =~= a + b.drop_last());
        assert((a + b).last() == b.last());
    }
}

/// A run of one term sums to its value.
pub proof fn lemma_total_one(t: TermV)
    ensures
        total(seq![t]) == t.value,
{
    assert(seq![t].drop_last() =~= Seq::<TermV>::empty());
    assert(seq![t].last() == t);
    assert(total(Seq::<TermV>::empty()) == 0);
}

/// **Need opens every sum**: pressing somebody's desperation moves what any
/// job is worth to them by exactly the need weight per step, and nothing
/// else in the sum moves with it.
pub proof fn lemma_pressing_moves_the_opening_term(a: Sim, b: Sim, tuning: Tuning, now: u64, who: usize, job: JobId)
    requires
        who < a.people@.len(),
        b.people@.len() == a.people@.len(),
        b.people@[who as int].traits@ == a.people@[who as int].traits@,
        b.parties == a.parties,
        b.sites == a.sites,
        a.quest_of(job) is Some,
    ensures
        score_of(b, tuning, now, who, Action::SeekWork { job }) - score_of(a, tuning, now, who, Action::SeekWork { job })
            == (b.people@[who as int].desperation - a.people@[who as int].desperation) * tuning.need_weight,
{
    let q = a.quest_of(job).unwrap();
    assert(b.quest_of(job) == Some(q));
    let carried = a.people@[who as int].traits@;
    let rest = want_terms(carried, q.task, tuning) + aptitude_terms(carried, q.task, tuning) + pot_terms(carried, q, tuning)
        + rest_terms(a, tuning, now, who);
    assert(rest_terms(b, tuning, now, who) == rest_terms(a, tuning, now, who));
    let wa = work_terms(a, tuning, now, who, q);
    let wb = work_terms(b, tuning, now, who, q);
    assert(wa =~= seq![need_term(a.people@[who as int].desperation, tuning)] + rest);
    assert(wb =~= seq![need_term(b.people@[who as int].desperation, tuning)] + rest);
    lemma_total_append(seq![need_term(a.people@[who as int].desperation, tuning)], rest);
    lemma_total_append(seq![need_term(b.people@[who as int].desperation, tuning)], rest);
    lemma_total_one(need_term(a.people@[who as int].desperation, tuning));
    lemma_total_one(need_term(b.people@[who as int].desperation, tuning));
    assert((b.people@[who as int].desperation - a.people@[who as int].desperation) * tuning.need_weight
        == b.people@[who as int].desperation * tuning.need_weight - a.people@[who as int].desperation * tuning.need_weight) by (nonlinear_arith);
}

/// **Staying home is the floor every errand has to beat**: whatever else is
/// on offer beside a character's own candidates, what they decide to do is
/// worth at least what staying home is.
pub proof fn lemma_never_below_the_floor(sim: Sim, tuning: Tuning, now: u64, who: usize, more: Seq<Action>)
    requires
        who < sim.people@.len(),
    ensures
        chosen(sim, tuning, now, who, candidates_of(sim, who) + more).1 >= tuning.idle_floor,
{
    let open = candidates_of(sim, who) + more;
    assert(open[0] == Action::Idle);
    lemma_best_index(sim, tuning, now, who, open, open.len() as int);
    let idle = weigh_of(sim, tuning, now, who, Action::Idle);
    lemma_total_one(idle[0]);
    assert(idle =~= seq![idle[0]]);
    assert(score_of(sim, tuning, now, who, open[0]) == tuning.idle_floor);
}

/// **A decision's score is the sum of the terms it reports**: out of any
/// non-empty run of candidates, the reasons and the number are one
/// derivation, so a surface showing either cannot disagree with the other.
pub proof fn lemma_score_is_the_sum_of_its_terms(sim: Sim, tuning: Tuning, now: u64, who: usize, open: Seq<Action>)
    requires
        open.len() > 0,
    ensures
        chosen(sim, tuning, now, who, open).1 == total(chosen(sim, tuning, now, who, open).2),
        chosen(sim, tuning, now, who, open).2 == weigh_of(sim, tuning, now, who, chosen(sim, tuning, now, who, open).0),
{
}

} // verus!

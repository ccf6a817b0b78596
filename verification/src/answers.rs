//! **Answering an ask**: the candidates a posting is worth weighing as, the
//! terms it is weighed by, the read a job row shows, and the money that moves
//! when the work is done.

use vstd::prelude::*;
use crate::asks::{Until, count_where, covers_job, has_declined, same_but_ledger_feed, Answer, Posting, Status, Who, MODULE, RELUCTANT_MARGIN};
use crate::autonomy::{
    aptitude_terms, need, need_term, push_aptitude, push_rest, push_term, pull_value, regard_cause, rest_terms,
    said, term, terms_ok, terms_view, Cause, CauseV, Term, TermV, TERM_BOUND, Action, candidates_of, chosen,
    decide, lemma_total_bound, sum_terms, total, words, words_of, Judged, Reckoning,
};
use crate::text::push_i64;
use crate::constants::Tuning;
use crate::sim::{claimed_in, dispatch, later, Activity, EventClass, JobId, Party, Sim, GOLD_BOUND};
use crate::stores::Regarded;
use crate::text::int_digits;
use crate::traits::{
    pot_pull_sum, pressure_sum, rows_phrase, rows_where, task_id, wants_anything, wants_task, weighted,
    TaskType, TraitId,
};

verus! {

/// The want term a posting is weighed with: its pressure is every want that
/// covers the work, and its words name every want the carrier holds.
pub open spec fn posting_want_terms(carried: Seq<TraitId>, task: TaskType, tuning: Tuning) -> Seq<TermV> {
    let p = pressure_sum(task, carried);
    if p != 0 {
        seq![term(
            "want"@,
            p * tuning.want_weight,
            CauseV::Rows(rows_where(carried, wants_task(task))),
            rows_phrase(rows_where(carried, wants_anything())) + ", and this is "@ + task_id(task) + " work"@,
        )]
    } else {
        Seq::empty()
    }
}

/// The wage term: a pot the player fills, felt by affinity and by need.
pub open spec fn wage_terms(carried: Seq<TraitId>, desperation: i64, wage: i64, tuning: Tuning) -> Seq<TermV> {
    let pull = pot_pull_sum(carried) + desperation;
    if pull != 0 && wage != 0 {
        seq![term(
            "wage"@,
            crate::autonomy::tdiv(pull * wage * tuning.pot_weight, 10),
            CauseV::Fact("the wage is "@ + int_digits(wage as int) + "g"@),
            "the wage is "@ + int_digits(wage as int) + "g"@,
        )]
    } else {
        Seq::empty()
    }
}

/// The regard term: what they think of the player, as they feel it.
pub open spec fn player_regard_terms(sim: Sim, who: usize, tuning: Tuning) -> Seq<TermV> {
    let carried = sim.people@[who as int].traits@;
    let raw = sim.shared.spec_regard(who, Regarded::Player) as int;
    let felt = weighted(raw, carried);
    if felt != 0 {
        seq![term(
            "regard"@,
            felt * tuning.regard_weight,
            regard_cause(raw, carried, "what they make of you"@),
            if felt > 0 { "would do it for you"@ } else { "owes you nothing"@ },
        )]
    } else {
        Seq::empty()
    }
}

/// The targeted bonus: being asked by name.
pub open spec fn asked_terms(posting: Posting, who: usize, tuning: Tuning) -> Seq<TermV> {
    if posting.who == Who::Person(who) {
        seq![term("asked"@, tuning.ask_targeted as int, CauseV::Fact("was asked by name"@), "was asked by name"@)]
    } else {
        Seq::empty()
    }
}

/// **What a posting is worth to somebody**, term by term: need, the wants
/// that cover the work, the aptitude, the wage's pull, what they think of the
/// player, being asked by name, and rest.
pub open spec fn answer_terms(sim: Sim, tuning: Tuning, now: u64, who: usize, posting: Posting, job: JobId) -> Seq<TermV> {
    if who >= sim.people@.len() {
        Seq::empty()
    } else {
        match sim.quest_of(job) {
            None => Seq::empty(),
            Some(quest) => {
                let person = sim.people@[who as int];
                let carried = person.traits@;
                seq![need_term(person.desperation, tuning)] + posting_want_terms(carried, quest.task, tuning)
                    + aptitude_terms(carried, quest.task, tuning) + wage_terms(carried, person.desperation, posting.wage, tuning)
                    + player_regard_terms(sim, who, tuning) + asked_terms(posting, who, tuning) + rest_terms(
                    sim,
                    tuning,
                    now,
                    who,
                )
            },
        }
    }
}

fn push_posting_want(out: &mut Vec<Term>, carried: &[TraitId], task: TaskType, tuning: &Tuning)
    requires
        carried@.len() <= crate::traits::MAX_CARRIED,
        tuning.wf(),
    ensures
        terms_view(final(out)@) == terms_view(old(out)@) + posting_want_terms(carried@, task, *tuning),
        forall|i: int| old(out)@.len() <= i < final(out)@.len() ==> -TERM_BOUND <= #[trigger] final(out)@[i].value <= TERM_BOUND,
        final(out)@.len() <= old(out)@.len() + 1,
{
    proof { reveal_strlit("want"); reveal_strlit(", and this is "); reveal_strlit(" work"); }
    let pressure = crate::traits::pressure_toward(task, carried);
    if pressure != 0 {
        let rows = crate::traits::wanting(task, carried);
        let every = crate::traits::wanting_anything(carried);
        let mut because = crate::traits::phrase_of(every.as_slice());
        because.append(", and this is ");
        because.append(task.id());
        because.append(" work");
        assert(-240_000 <= pressure * tuning.want_weight <= 240_000) by (nonlinear_arith)
            requires 0 <= pressure <= 24, -10_000 <= tuning.want_weight <= 10_000;
        let t = Term { what: "want", value: pressure * tuning.want_weight, cause: Cause::Rows(rows), because };
        assert(t@ == posting_want_terms(carried@, task, *tuning)[0]);
        push_term(out, t);
    }
    assert(terms_view(out@) =~= terms_view(old(out)@) + posting_want_terms(carried@, task, *tuning));
}

fn push_wage(out: &mut Vec<Term>, carried: &[TraitId], desperation: i64, wage: i64, tuning: &Tuning)
    requires
        carried@.len() <= crate::traits::MAX_CARRIED,
        0 <= desperation <= 10,
        -GOLD_BOUND <= wage <= GOLD_BOUND,
        tuning.wf(),
    ensures
        terms_view(final(out)@) == terms_view(old(out)@) + wage_terms(carried@, desperation, wage, *tuning),
        forall|i: int| old(out)@.len() <= i < final(out)@.len() ==> -TERM_BOUND <= #[trigger] final(out)@[i].value <= TERM_BOUND,
        final(out)@.len() <= old(out)@.len() + 1,
{
    proof { reveal_strlit("wage"); reveal_strlit("the wage is "); reveal_strlit("g"); }
    let pull = crate::traits::pot_pull_of(carried) + desperation;
    if pull != 0 && wage != 0 {
        let t = Term {
            what: "wage",
            value: pull_value(pull, wage, tuning.pot_weight),
            cause: Cause::Fact(said("the wage is ", wage, "g")),
            because: said("the wage is ", wage, "g"),
        };
        assert(t@ == wage_terms(carried@, desperation, wage, *tuning)[0]);
        push_term(out, t);
    }
    assert(terms_view(out@) =~= terms_view(old(out)@) + wage_terms(carried@, desperation, wage, *tuning));
}

fn push_player_regard(out: &mut Vec<Term>, sim: &Sim, who: usize, tuning: &Tuning)
    requires
        sim.wf(),
        who < sim.people@.len(),
        tuning.wf(),
    ensures
        terms_view(final(out)@) == terms_view(old(out)@) + player_regard_terms(*sim, who, *tuning),
        forall|i: int| old(out)@.len() <= i < final(out)@.len() ==> -TERM_BOUND <= #[trigger] final(out)@[i].value <= TERM_BOUND,
        final(out)@.len() <= old(out)@.len() + 1,
{
    proof {
        reveal_strlit("regard");
        reveal_strlit("what they make of you");
        reveal_strlit("would do it for you");
        reveal_strlit("owes you nothing");
        crate::stores::lemma_regard_bounded(sim.shared, who, Regarded::Player);
        assert(sim.people@[who as int].wf());
    }
    let carried = sim.people[who].traits.as_slice();
    let raw = sim.shared.regard(who, Regarded::Player);
    let felt = crate::traits::weighted_regard(raw, carried);
    if felt != 0 {
        assert(-2_560_000_000_000 <= felt * tuning.regard_weight <= 2_560_000_000_000) by (nonlinear_arith)
            requires -256_000_000 <= felt <= 256_000_000, -10_000 <= tuning.regard_weight <= 10_000;
        let t = Term {
            what: "regard",
            value: felt * tuning.regard_weight,
            cause: crate::autonomy::cause_of_regard(raw, carried, "what they make of you"),
            because: if felt > 0 {
                String::from_str("would do it for you")
            } else {
                String::from_str("owes you nothing")
            },
        };
        assert(t@ == player_regard_terms(*sim, who, *tuning)[0]);
        push_term(out, t);
    }
    assert(terms_view(out@) =~= terms_view(old(out)@) + player_regard_terms(*sim, who, *tuning));
}

fn push_asked(out: &mut Vec<Term>, posting: &Posting, who: usize, tuning: &Tuning)
    requires
        tuning.wf(),
    ensures
        terms_view(final(out)@) == terms_view(old(out)@) + asked_terms(*posting, who, *tuning),
        forall|i: int| old(out)@.len() <= i < final(out)@.len() ==> -TERM_BOUND <= #[trigger] final(out)@[i].value <= TERM_BOUND,
        final(out)@.len() <= old(out)@.len() + 1,
{
    proof { reveal_strlit("asked"); reveal_strlit("was asked by name"); }
    if posting.targets(who) {
        push_term(out, Term {
            what: "asked",
            value: tuning.ask_targeted,
            cause: Cause::fact("was asked by name"),
            because: String::from_str("was asked by name"),
        });
    }
    assert(terms_view(out@) =~= terms_view(old(out)@) + asked_terms(*posting, who, *tuning));
}

/// **What a posting is worth to somebody**, term by term. The job's own pot is
/// not among them: the pot is the player's, and the worker's money is the wage.
pub fn terms(sim: &Sim, tuning: &Tuning, now: u64, who: usize, posting: &Posting, job: JobId) -> (out: Vec<Term>)
    requires
        sim.wf(),
        tuning.wf(),
        -GOLD_BOUND <= posting.wage <= GOLD_BOUND,
    ensures
        terms_view(out@) == answer_terms(*sim, *tuning, now, who, *posting, job),
        terms_ok(terms_view(out@)),
{
    let mut out: Vec<Term> = Vec::new();
    if who >= sim.people.len() {
        assert(terms_view(out@) =~= answer_terms(*sim, *tuning, now, who, *posting, job));
        return out;
    }
    let quest = match sim.quest(job) {
        Some(q) => q,
        None => {
            assert(terms_view(out@) =~= answer_terms(*sim, *tuning, now, who, *posting, job));
            return out;
        },
    };
    let person = &sim.people[who];
    proof { assert(person.wf()); }
    let carried = person.traits.as_slice();
    push_term(&mut out, need(person.desperation, tuning));
    push_posting_want(&mut out, carried, quest.task, tuning);
    push_aptitude(&mut out, carried, quest.task, tuning);
    push_wage(&mut out, carried, person.desperation, posting.wage, tuning);
    push_player_regard(&mut out, sim, who, tuning);
    push_asked(&mut out, posting, who, tuning);
    push_rest(&mut out, sim, tuning, now, who);
    assert(terms_view(out@) =~= answer_terms(*sim, *tuning, now, who, *posting, job));
    out
}


// ── the candidates and the read ────────────────────────────────────────────

/// The answers a posting offers among the first `k` open rows of one site.
pub open spec fn covered_slots(sim: Sim, posting: Posting, site: usize, slots: Seq<usize>, k: int) -> Seq<Action>
    decreases k,
{
    if k <= 0 {
        Seq::empty()
    } else {
        let job = JobId { site, slot: slots[k - 1] };
        covered_slots(sim, posting, site, slots, k - 1) + if covers_job(posting.what, sim, job) {
            seq![Action::Answer { posting: posting.id, job }]
        } else {
            Seq::empty()
        }
    }
}

/// The answers a posting offers over the first `n` sites.
pub open spec fn covered_sites(sim: Sim, posting: Posting, n: int) -> Seq<Action>
    decreases n,
{
    if n <= 0 {
        Seq::empty()
    } else {
        let slots = sim.sites@[n - 1].spec_open_slots();
        covered_sites(sim, posting, n - 1) + covered_slots(sim, posting, (n - 1) as usize, slots, slots.len() as int)
    }
}

/// The answers the first `n` postings offer `who`.
pub open spec fn posting_prefix(sim: Sim, who: usize, n: int) -> Seq<Action>
    decreases n,
{
    if n <= 0 {
        Seq::empty()
    } else {
        let p = sim.postings@[n - 1];
        posting_prefix(sim, who, n - 1) + if p.spec_open_to(who) {
            covered_sites(sim, p, sim.sites@.len() as int)
        } else {
            Seq::empty()
        }
    }
}

/// **The candidates a heard posting is worth weighing as** — one per open
/// job it covers, for every posting open to `who`.
pub open spec fn answer_candidates(sim: Sim, who: usize) -> Seq<Action> {
    if !sim.modules.spec_enabled(MODULE) {
        Seq::empty()
    } else {
        posting_prefix(sim, who, sim.postings@.len() as int)
    }
}

fn covered_by(sim: &Sim, posting: &Posting, out: &mut Vec<Action>)
    ensures
        final(out)@ == old(out)@ + covered_sites(*sim, *posting, sim.sites@.len() as int),
{
    let ns = sim.sites.len();
    let ghost start = out@;
    for site in 0..ns
        invariant
            ns == sim.sites@.len(),
            out@ == start + covered_sites(*sim, *posting, site as int),
    {
        let slots = sim.sites[site].open_slots();
        let ghost before = out@;
        let m = slots.len();
        for k in 0..m
            invariant
                m == slots@.len(),
                slots@ == sim.sites@[site as int].spec_open_slots(),
                out@ == before + covered_slots(*sim, *posting, site, slots@, k as int),
        {
            let job = JobId { site, slot: slots[k] };
            if posting.what.covers(sim, job) {
                out.push(Action::Answer { posting: posting.id, job });
            }
            assert(out@ =~= before + covered_slots(*sim, *posting, site, slots@, k + 1));
        }
        assert(out@ =~= start + covered_sites(*sim, *posting, site + 1));
    }
}

/// **The candidates a heard posting is worth weighing as** — one per open job
/// the posting covers, for every posting `who` may weigh.
pub fn candidates(sim: &Sim, who: usize) -> (out: Vec<Action>)
    ensures
        out@ == answer_candidates(*sim, who),
{
    let mut out: Vec<Action> = Vec::new();
    if !sim.modules.enabled(MODULE) {
        return out;
    }
    let all = sim.postings.all();
    let n = all.len();
    for i in 0..n
        invariant
            n == sim.postings@.len(),
            all@ == sim.postings@,
            sim.modules.spec_enabled(MODULE),
            out@ == posting_prefix(*sim, who, i as int),
    {
        let posting = &all[i];
        if posting.open_to(who) {
            covered_by(sim, posting, &mut out);
        }
        assert(out@ =~= posting_prefix(*sim, who, i + 1));
    }
    out
}

/// What the row says the character would do, in three words.
#[derive(Clone, Copy, Debug, PartialEq, Eq, Structural)]
pub enum Verdict {
    /// The posting wins, and comfortably.
    WouldTake,
    /// The posting wins by less than the reluctant margin.
    Reluctant,
    /// Something else wins.
    WouldRefuse,
}

/// The words a job row prints for a verdict.
pub open spec fn verdict_name(v: Verdict) -> Seq<char> {
    match v {
        Verdict::WouldTake => "would take it"@,
        Verdict::Reluctant => "reluctant"@,
        Verdict::WouldRefuse => "would refuse"@,
    }
}

impl Verdict {
    /// The words a job row prints.
    pub fn name(self) -> (s: &'static str)
        ensures
            s@ == verdict_name(self),
    {
        match self {
            Verdict::WouldTake => "would take it",
            Verdict::Reluctant => "reluctant",
            Verdict::WouldRefuse => "would refuse",
        }
    }

    /// Whether this reading means they take the work.
    pub fn takes(self) -> (b: bool)
        ensures
            b == (self != Verdict::WouldRefuse),
    {
        match self {
            Verdict::WouldTake => true,
            Verdict::Reluctant => true,
            Verdict::WouldRefuse => false,
        }
    }
}

/// Every action but this one.
pub open spec fn other_than(ask: Action) -> spec_fn(Action) -> bool {
    |a: Action| a != ask
}

/// Everything else `who` could do at this minute, without this ask.
pub open spec fn rivals_of(sim: Sim, who: usize, ask: Action) -> Seq<Action> {
    (candidates_of(sim, who) + answer_candidates(sim, who)).filter(other_than(ask))
}

/// **The read a job row shows** for a posting and a job: the verdict and its words.
pub open spec fn read_of(sim: Sim, tuning: Tuning, now: u64, who: usize, posting: Posting, job: JobId) -> (Verdict, Seq<char>) {
    let ask = Action::Answer { posting: posting.id, job };
    let mine = answer_terms(sim, tuning, now, who, posting, job);
    let score = total(mine);
    let rival = chosen(sim, tuning, now, who, rivals_of(sim, who, ask));
    if score > rival.1 {
        (if score - rival.1 >= RELUCTANT_MARGIN { Verdict::WouldTake } else { Verdict::Reluctant }, words_of(ask, mine))
    } else {
        (Verdict::WouldRefuse, rival.3)
    }
}

/// **The verdict is the margin over the best rival**: with `score` the sum of
/// the ask's own terms and `best` the score of the best of everything else
/// open to `who`, the read is "would take it" when the ask wins by the
/// reluctant margin or more, "reluctant" when it wins by less, and "would
/// refuse" when it does not win at all.
pub proof fn lemma_the_verdict_is_the_margin(sim: Sim, tuning: Tuning, now: u64, who: usize, posting: Posting, job: JobId)
    ensures ({
        let score = total(answer_terms(sim, tuning, now, who, posting, job));
        let best = chosen(sim, tuning, now, who, rivals_of(sim, who, Action::Answer { posting: posting.id, job })).1;
        let verdict = read_of(sim, tuning, now, who, posting, job).0;
        &&& score - best >= RELUCTANT_MARGIN ==> verdict == Verdict::WouldTake
        &&& 0 < score - best < RELUCTANT_MARGIN ==> verdict == Verdict::Reluctant
        &&& score <= best ==> verdict == Verdict::WouldRefuse
    }),
{
}

/// **The read the job row shows, and the answer the sim gives — one
/// comparison**: the ask's own sum against the best of everything else.
pub fn read(sim: &Sim, tuning: &Tuning, now: u64, who: usize, posting: &Posting, job: JobId) -> (r: (Verdict, String))
    requires
        sim.wf(),
        tuning.wf(),
        -GOLD_BOUND <= posting.wage <= GOLD_BOUND,
    ensures
        r.0 == read_of(*sim, *tuning, now, who, *posting, job).0,
        r.1@ == read_of(*sim, *tuning, now, who, *posting, job).1,
{
    let mine = terms(sim, tuning, now, who, posting, job);
    let score = sum_terms(&mine);
    let ask = Action::Answer { posting: posting.id, job };
    let mut open = crate::autonomy::candidates(sim, who);
    let mut asked = candidates(sim, who);
    open.append(&mut asked);
    let ghost every = open@;
    let mut rivals: Vec<Action> = Vec::new();
    let n = open.len();
    proof { reveal_with_fuel(Seq::<_>::filter, 1); }
    assert(every.take(0) =~= Seq::<Action>::empty());
    for i in 0..n
        invariant
            n == open@.len(),
            open@ == every,
            rivals@ == every.take(i as int).filter(other_than(ask)),
    {
        assert(every.take(i + 1).drop_last() =~= every.take(i as int));
        if open[i] != ask {
            rivals.push(open[i]);
        }
        proof {
            reveal_with_fuel(Seq::<_>::filter, 1);
            assert(every.take(i + 1).drop_last() =~= every.take(i as int));
            assert(every.take(i + 1).last() == every[i as int]);
        }
    }
    assert(every.take(n as int) =~= every);
    let rival = decide(sim, tuning, now, who, rivals.as_slice());
    proof {
        lemma_total_bound(terms_view(rival.terms@));
    }
    let rival_score = rival.score;
    assert(-8 * TERM_BOUND <= rival_score <= 8 * TERM_BOUND) by {
        if rivals@.len() == 0 {
        } else {
            lemma_total_bound(terms_view(rival.terms@));
        }
    }
    if score > rival_score {
        let verdict = if score - rival_score >= RELUCTANT_MARGIN { Verdict::WouldTake } else { Verdict::Reluctant };
        return (verdict, words(ask, mine.as_slice()));
    }
    (Verdict::WouldRefuse, rival.reason)
}


// ── the answer's bookkeeping and the money ─────────────────────────────────

/// Every field of a world but the ledger, the board, the parties, the feed and
/// the kept decisions is the same.
pub open spec fn same_people_and_money(a: Sim, b: Sim) -> bool {
    &&& a.people == b.people
    &&& a.rates == b.rates
    &&& a.treasury == b.treasury
    &&& a.modules == b.modules
    &&& a.ports == b.ports
    &&& a.shared == b.shared
    &&& a.settlement == b.settlement
    &&& a.locations == b.locations
    &&& a.attention == b.attention
    &&& a.pause == b.pause
    &&& a.pauses == b.pauses
}

/// `after` is `before` with one more answer, by `who`, on its record, and
/// nothing else moved but perhaps its status.
pub open spec fn answered_now(before: Posting, after: Posting, who: usize) -> bool {
    &&& after.answered@.len() == before.answered@.len() + 1
    &&& after.answered@.drop_last() == before.answered@
    &&& after.answered@.last().0 == who
    &&& after.id == before.id
    &&& after.who == before.who
    &&& after.what == before.what
    &&& after.until == before.until
    &&& after.wage == before.wage
    &&& after.rate_at_posting == before.rate_at_posting
    &&& after.made_at == before.made_at
    &&& after.heard == before.heard
}

/// **They declined**: a posting made to somebody by name says so in words,
/// and the refusal goes on its record.
pub fn decline(sim: &mut Sim, now: u64, who: usize, id: usize, reason: &str)
    requires
        old(sim).wf(),
    ensures
        final(sim).wf(),
        !(id < old(sim).postings@.len() && old(sim).postings@[id as int].spec_targets(who)
            && old(sim).postings@[id as int].status == Status::Open) ==> *final(sim) == *old(sim),
        (id < old(sim).postings@.len() && old(sim).postings@[id as int].spec_targets(who)
            && old(sim).postings@[id as int].status == Status::Open) ==> {
            &&& same_but_ledger_feed(*final(sim), *old(sim))
            &&& final(sim).postings@.len() == old(sim).postings@.len()
            &&& forall|i: int| 0 <= i < old(sim).postings@.len() && i != id ==> #[trigger] final(sim).postings@[i] == old(sim).postings@[i]
            &&& answered_now(old(sim).postings@[id as int], final(sim).postings@[id as int], who)
            &&& final(sim).postings@[id as int].answered@.last().1 matches Answer::Declined { reason: r } && r@ == reason@
            &&& final(sim).postings@[id as int].status == Status::Open
            &&& final(sim).events@.len() == old(sim).events@.len() + 1
            &&& final(sim).events@.drop_last() == old(sim).events@
            &&& final(sim).events@.last().class == EventClass::AskDeclined
            &&& final(sim).events@.last().party == who
        },
{
    let what = match sim.postings.get(id) {
        Some(p) => {
            if !p.targets(who) || p.status != Status::Open {
                return;
            }
            p.what.label(sim)
        },
        None => return,
    };
    let tile = sim.tile_of(who);
    proof { reveal_strlit("will not take "); reveal_strlit(" - "); }
    let mut note = String::from_str("will not take ");
    note.append(what.as_str());
    note.append(" - ");
    note.append(reason);
    sim.emit(now, EventClass::AskDeclined, who, tile, note);
    let answer = Answer::Declined { reason: String::from_str(reason) };
    sim.postings.record_answer(id, who, answer);
    assert(sim.postings@[id as int].answered@.drop_last() =~= old(sim).postings@[id as int].answered@);
}


/// A named ask `who` heard and is refusing by doing something else.
pub open spec fn refusable(p: Posting, who: usize, taken: Option<usize>) -> bool {
    &&& p.status == Status::Open
    &&& p.spec_targets(who)
    &&& p.spec_heard_by(who) is Some
    &&& Some(p.id) != taken
    &&& !has_declined(p.answered@, who)
}

/// Whether a posting is one `who` is refusing.
pub open spec fn refused_by(who: usize, taken: Option<usize>) -> spec_fn(Posting) -> bool {
    |p: Posting| refusable(p, who, taken)
}

/// `after` is `before` with a refusal by `who`, for `reason`, on its record.
pub open spec fn refused_now(before: Posting, after: Posting, who: usize, reason: Seq<char>) -> bool {
    &&& answered_now(before, after, who)
    &&& after.status == before.status
    &&& after.answered@.last().1 matches Answer::Declined { reason: r } && r@ == reason
}

/// What recording refusals does to a world: with the asks module off,
/// nothing; with it on, every named ask `who` heard, did not take and had not
/// yet declined is declined now with the reason, said in the feed, and
/// nothing but the ledger and the feed moves.
pub open spec fn refusals_recorded(before: Sim, after: Sim, who: usize, taken: Option<usize>, reason: Seq<char>) -> bool {
    if !before.modules.spec_enabled(MODULE) {
        after == before
    } else {
        &&& same_but_ledger_feed(after, before)
        &&& after.postings@.len() == before.postings@.len()
        &&& forall|i: int| 0 <= i < before.postings@.len() ==> if refusable(before.postings@[i], who, taken) {
            refused_now(before.postings@[i], #[trigger] after.postings@[i], who, reason)
        } else {
            after.postings@[i] == before.postings@[i]
        }
        &&& after.events@.len() == before.events@.len() + count_where(
            before.postings@,
            refused_by(who, taken),
            before.postings@.len() as int,
        )
        &&& after.events@.take(before.events@.len() as int) == before.events@
    }
}

/// **Everything this character was asked and did not take**: whatever they
/// chose, a named ask they heard and did not choose is a refusal, and a
/// refusal is said — once.
pub fn record_refusals(sim: &mut Sim, now: u64, who: usize, taken: Option<usize>, reason: &str)
    requires
        old(sim).wf(),
    ensures
        final(sim).wf(),
        refusals_recorded(*old(sim), *final(sim), who, taken, reason@),
{
    if !sim.modules.enabled(MODULE) {
        return;
    }
    let ghost before = *sim;
    let ghost keep = refused_by(who, taken);
    let n = sim.postings.len();
    for id in 0..n
        invariant
            n == before.postings@.len(),
            keep == refused_by(who, taken),
            sim.wf(),
            same_but_ledger_feed(*sim, before),
            sim.postings@.len() == n,
            forall|i: int| 0 <= i < id ==> if refusable(before.postings@[i], who, taken) {
                refused_now(before.postings@[i], #[trigger] sim.postings@[i], who, reason@)
            } else {
                sim.postings@[i] == before.postings@[i]
            },
            forall|i: int| id <= i < n ==> #[trigger] sim.postings@[i] == before.postings@[i],
            sim.events@.len() == before.events@.len() + count_where(before.postings@, keep, id as int),
            sim.events@.take(before.events@.len() as int) == before.events@,
    {
        let wanted = match sim.postings.get(id) {
            Some(p) => p.status == Status::Open && p.targets(who) && p.heard_by(who).is_some()
                && taken != Some(p.id) && !p.declined_by(who),
            None => false,
        };
        let ghost events_before = sim.events@;
        if wanted {
            assert(id < sim.postings@.len() && sim.postings@[id as int].spec_targets(who)
                && sim.postings@[id as int].status == Status::Open);
            decline(sim, now, who, id, reason);
            assert(sim.events@.drop_last() == events_before);
            assert(sim.events@.take(before.events@.len() as int) =~= before.events@) by {
                assert forall|k: int| 0 <= k < before.events@.len() implies sim.events@[k] == before.events@[k] by {
                    assert(sim.events@[k] == sim.events@.drop_last()[k]);
                }
            }
        }
        assert(keep(before.postings@[id as int]) == wanted);
    }
}

/// `v` compared with `expectation`: one step up, one step down, or nothing.
pub open spec fn wage_step(wage: i64, expectation: i64, step: i64) -> int {
    if wage > expectation { step as int } else if wage < expectation { -step } else { 0 }
}

/// **The wage is paid on completion**, treasury to wallet in full, and the
/// paying moves regard for the player by what it was measured against.
pub fn settle_wage(sim: &mut Sim, tuning: &Tuning, who: usize) -> (paid: i64)
    requires
        old(sim).wf(),
        tuning.wf(),
        -i64::MAX + GOLD_BOUND <= old(sim).treasury <= i64::MAX - GOLD_BOUND,
        who < old(sim).people@.len() ==> -i64::MAX + GOLD_BOUND <= old(sim).people@[who as int].wallet <= i64::MAX - GOLD_BOUND,
    ensures
        final(sim).wf(),
        ({
            let owed = if who < old(sim).parties@.len() { old(sim).parties@[who as int].posting } else { None };
            match owed {
                Some(id) if id < old(sim).postings@.len() => {
                    let posting = old(sim).postings@[id as int];
                    let delta = wage_step(posting.wage, posting.rate_at_posting, tuning.wage_regard);
                    &&& paid == posting.wage
                    &&& final(sim).treasury == old(sim).treasury - paid
                    &&& final(sim).people@.len() == old(sim).people@.len()
                    &&& forall|i: int| 0 <= i < old(sim).people@.len() ==> (#[trigger] final(sim).people@[i]).wallet
                        == old(sim).people@[i].wallet + if i == who { paid as int } else { 0 }
                    &&& forall|i: int| 0 <= i < old(sim).people@.len() && i != who ==> #[trigger] final(sim).people@[i] == old(sim).people@[i]
                    &&& final(sim).shared.spec_regard(who, Regarded::Player) == if delta == 0 {
                        old(sim).shared.spec_regard(who, Regarded::Player) as int
                    } else {
                        crate::stores::clamp(old(sim).shared.spec_regard(who, Regarded::Player) + delta, tuning.regard_max as int)
                    }
                    &&& forall|f: usize, t: Regarded| !(f == who && t == Regarded::Player) ==> final(sim).shared.spec_regard(f, t)
                        == old(sim).shared.spec_regard(f, t)
                    &&& final(sim).parties@ == old(sim).parties@.update(who as int, Party { posting: None, ..old(sim).parties@[who as int] })
                    &&& final(sim).postings == old(sim).postings
                    &&& final(sim).events == old(sim).events
                    &&& final(sim).sites == old(sim).sites
                },
                _ => paid == 0 && *final(sim) == *old(sim),
            }
        }),
{
    let id = if who < sim.parties.len() {
        match sim.parties[who].posting {
            Some(id) => id,
            None => return 0,
        }
    } else {
        return 0;
    };
    let (wage, expectation) = match sim.postings.get(id) {
        Some(p) => (p.wage, p.rate_at_posting),
        None => return 0,
    };
    sim.treasury = sim.treasury - wage;
    if who < sim.people.len() {
        let w = sim.people[who].wallet;
        sim.people[who].wallet = w + wage;
    }
    let delta = if wage > expectation {
        tuning.wage_regard
    } else if wage < expectation {
        -tuning.wage_regard
    } else {
        0
    };
    if delta != 0 {
        sim.shared.adjust_regard(tuning, who, Regarded::Player, delta);
    }
    let mut party = sim.parties[who];
    party.posting = None;
    sim.parties.set(who, party);
    wage
}

/// **The drop seam**: a character abandons a posting's job because something
/// pressed harder. The posting stands open again.
pub fn drop_errand(sim: &mut Sim, now: u64, who: usize, why: &str)
    requires
        old(sim).wf(),
    ensures
        final(sim).wf(),
        ({
            let owed = if who < old(sim).parties@.len() { old(sim).parties@[who as int].posting } else { None };
            match owed {
                None => *final(sim) == *old(sim),
                Some(id) => {
                    &&& same_people_and_money(*final(sim), *old(sim))
                    &&& final(sim).sites == old(sim).sites
                    &&& final(sim).parties@ == old(sim).parties@.update(who as int, Party { posting: None, ..old(sim).parties@[who as int] })
                    &&& final(sim).postings@.len() == old(sim).postings@.len()
                    &&& forall|i: int| 0 <= i < old(sim).postings@.len() && i != id ==> #[trigger] final(sim).postings@[i] == old(sim).postings@[i]
                    &&& id < old(sim).postings@.len() ==> final(sim).postings@[id as int].status == Status::Open
                        && final(sim).postings@[id as int].answered == old(sim).postings@[id as int].answered
                        && final(sim).postings@[id as int].heard == old(sim).postings@[id as int].heard
                    &&& id >= old(sim).postings@.len() ==> final(sim).postings == old(sim).postings
                    &&& final(sim).events@.len() == old(sim).events@.len() + 1
                    &&& final(sim).events@.drop_last() == old(sim).events@
                    &&& final(sim).events@.last().class == EventClass::AskDropped
                    &&& final(sim).events@.last().party == who
                },
            }
        }),
{
    if who >= sim.parties.len() {
        return;
    }
    let id = match sim.parties[who].posting {
        Some(id) => id,
        None => return,
    };
    let tile = sim.parties[who].tile;
    proof { reveal_strlit("the work"); reveal_strlit("dropped "); reveal_strlit(" - "); }
    let what = match sim.postings.get(id) {
        Some(p) => p.what.label(sim),
        None => String::from_str("the work"),
    };
    let mut note = String::from_str("dropped ");
    note.append(what.as_str());
    note.append(" - ");
    note.append(why);
    sim.emit(now, EventClass::AskDropped, who, tile, note);
    let mut party = sim.parties[who];
    party.posting = None;
    sim.parties.set(who, party);
    if id < sim.postings.len() {
        sim.postings.set_status(id, Status::Open);
    }
}


/// **They agreed**: the posting is answered, the job is theirs, and the
/// journey is the ordinary dispatch. If the row went while they were
/// deciding, the posting stands and the failure is said.
pub fn agree(sim: &mut Sim, tuning: &Tuning, now: u64, who: usize, judged: Judged, reckoning: Reckoning)
    requires
        old(sim).wf(),
    ensures
        final(sim).wf(),
        match judged.action {
            Action::Answer { posting: id, job } => if id < old(sim).postings@.len() {
                let ok = old(sim).spec_is_idle(who) && old(sim).is_open(job);
                let before = old(sim).postings@[id as int];
                &&& same_people_and_money(*final(sim), *old(sim))
                &&& final(sim).reckonings@ == old(sim).reckonings@.push(reckoning)
                &&& final(sim).events@.len() == old(sim).events@.len() + 2
                &&& final(sim).events@.take(old(sim).events@.len() as int) == old(sim).events@
                &&& final(sim).events@[old(sim).events@.len() as int].class == EventClass::AskAgreed
                &&& ok ==> {
                    &&& claimed_in(old(sim).sites@, final(sim).sites@, job, who)
                    &&& final(sim).parties@ == old(sim).parties@.update(who as int, Party {
                        activity: Activity::Working {
                            until: later(now, old(sim).sites@[job.site as int].quests@[job.slot as int].duration),
                        },
                        posting: Some(id),
                        ..old(sim).parties@[who as int]
                    })
                    &&& final(sim).postings@.len() == old(sim).postings@.len()
                    &&& forall|i: int| 0 <= i < old(sim).postings@.len() && i != id ==> #[trigger] final(sim).postings@[i] == old(sim).postings@[i]
                    &&& answered_now(before, final(sim).postings@[id as int], who)
                    &&& final(sim).postings@[id as int].answered@.last().1 == Answer::Agreed { job }
                    &&& final(sim).postings@[id as int].status == if before.until == Until::Done {
                        Status::Filled
                    } else {
                        before.status
                    }
                    &&& final(sim).events@.last().class == EventClass::Departed
                }
                &&& !ok ==> {
                    &&& final(sim).sites == old(sim).sites
                    &&& final(sim).parties == old(sim).parties
                    &&& final(sim).postings == old(sim).postings
                    &&& final(sim).events@.last().class == EventClass::AskDropped
                }
            } else {
                *final(sim) == *old(sim)
            },
            _ => *final(sim) == *old(sim),
        },
{
    let (id, job) = match judged.action {
        Action::Answer { posting, job } => (posting, job),
        _ => return,
    };
    let (wage, until) = match sim.postings.get(id) {
        Some(p) => (p.wage, p.until),
        None => return,
    };
    let reason = judged.reason;
    proof {
        reveal_strlit("that job");
        reveal_strlit("took ");
        reveal_strlit(" for ");
        reveal_strlit("g - ");
        reveal_strlit("could not start ");
        reveal_strlit(" - the row went while they answered");
    }
    let name = match sim.quest(job) {
        Some(q) => q.name,
        None => "that job",
    };
    let tile = sim.tile_of(who);
    let mut note = String::from_str("took ");
    note.append(name);
    note.append(" for ");
    push_i64(&mut note, wage);
    note.append("g - ");
    note.append(reason.as_str());
    let ghost e0 = sim.events@;
    sim.emit(now, EventClass::AskAgreed, who, tile, note);
    sim.remember(reckoning);
    let ghost mid = *sim;
    let dispatched = dispatch(sim, now, who, job, reason.as_str());
    if dispatched.is_err() {
        let mut dropped = String::from_str("could not start ");
        dropped.append(name);
        dropped.append(" - the row went while they answered");
        sim.emit(now, EventClass::AskDropped, who, tile, dropped);
        assert(sim.events@.take(e0.len() as int) =~= e0) by {
            assert forall|k: int| 0 <= k < e0.len() implies sim.events@[k] == e0[k] by {
                assert(sim.events@[k] == sim.events@.drop_last()[k]);
                assert(mid.events@[k] == mid.events@.drop_last()[k]);
            }
        }
        assert(sim.events@[e0.len() as int] == mid.events@.last());
        return;
    }
    let mut party = sim.parties[who];
    party.posting = Some(id);
    sim.parties.set(who, party);
    sim.postings.record_answer(id, who, Answer::Agreed { job });
    if until == Until::Done {
        sim.postings.set_status(id, Status::Filled);
    }
    assert(sim.postings@[id as int].answered@.drop_last() =~= old(sim).postings@[id as int].answered@);
    assert(sim.events@.take(e0.len() as int) =~= e0) by {
        assert forall|k: int| 0 <= k < e0.len() implies sim.events@[k] == e0[k] by {
            assert(sim.events@[k] == sim.events@.drop_last()[k]);
            assert(mid.events@[k] == mid.events@.drop_last()[k]);
        }
    }
    assert(sim.events@[e0.len() as int] == mid.events@.last());
}

/// The best of a run of candidates does not look past the run.
proof fn lemma_best_index_prefix(sim: Sim, tuning: Tuning, now: u64, who: usize, open: Seq<Action>, extra: Action, n: int)
    requires
        1 <= n <= open.len(),
    ensures
        crate::autonomy::best_index(sim, tuning, now, who, open.push(extra), n)
            == crate::autonomy::best_index(sim, tuning, now, who, open, n),
    decreases n,
{
    if n > 1 {
        lemma_best_index_prefix(sim, tuning, now, who, open, extra, n - 1);
        assert(open.push(extra)[n - 1] == open[n - 1]);
        let b = crate::autonomy::best_index(sim, tuning, now, who, open, n - 1);
        crate::autonomy::lemma_best_index(sim, tuning, now, who, open, n - 1);
        assert(open.push(extra)[b] == open[b]);
    }
}

/// **The job row's read is the scorer's own answer**: for a posting on the
/// ledger, weigh everything else `who` could do with the ask added last, and
/// the decision takes the ask exactly when the row reads it as taken — one
/// comparison, two readers.
pub proof fn lemma_read_is_the_answer(sim: Sim, tuning: Tuning, now: u64, who: usize, posting: Posting, job: JobId)
    requires
        posting.id < sim.postings@.len(),
        sim.postings@[posting.id as int] == posting,
    ensures
        ({
            let ask = Action::Answer { posting: posting.id, job };
            let decision = chosen(sim, tuning, now, who, rivals_of(sim, who, ask).push(ask));
            (decision.0 == ask) <==> read_of(sim, tuning, now, who, posting, job).0 != Verdict::WouldRefuse
        }),
{
    let ask = Action::Answer { posting: posting.id, job };
    let every = crate::autonomy::candidates_of(sim, who) + answer_candidates(sim, who);
    let r = rivals_of(sim, who, ask);
    assert(every[0] == Action::Idle);
    assert(other_than(ask)(every[0]));
    every.lemma_filter_contains(other_than(ask), 0);
    assert(r.len() >= 1);
    let all = r.push(ask);
    let n = r.len() as int;
    lemma_best_index_prefix(sim, tuning, now, who, r, ask, n);
    crate::autonomy::lemma_best_index(sim, tuning, now, who, r, n);
    let b = crate::autonomy::best_index(sim, tuning, now, who, r, n);
    assert(all[n] == ask);
    assert(all[b] == r[b]);
    every.lemma_filter_pred(other_than(ask), b);
    assert(r[b] != ask);
    assert(crate::autonomy::score_of(sim, tuning, now, who, ask) == total(answer_terms(sim, tuning, now, who, posting, job)));
}

/// Whether an action answers one posting, for a job the posting covers.
pub open spec fn answers_posting(a: Action, p: Posting, sim: Sim) -> bool {
    match a {
        Action::Answer { posting, job } => posting == p.id && covers_job(p.what, sim, job),
        _ => false,
    }
}

/// Whether an action answers a posting `who` may weigh: one on the ledger,
/// standing, heard by them, addressed to them or to anyone, for a job it covers.
pub open spec fn answers_a_heard_posting(sim: Sim, who: usize, a: Action) -> bool {
    match a {
        Action::Answer { posting, job } => {
            &&& posting < sim.postings@.len()
            &&& sim.postings@[posting as int].spec_open_to(who)
            &&& covers_job(sim.postings@[posting as int].what, sim, job)
        },
        _ => false,
    }
}

proof fn lemma_covered_slots(sim: Sim, p: Posting, site: usize, slots: Seq<usize>, k: int)
    requires
        k <= slots.len(),
    ensures
        forall|i: int| 0 <= i < covered_slots(sim, p, site, slots, k).len() ==> answers_posting(
            #[trigger] covered_slots(sim, p, site, slots, k)[i],
            p,
            sim,
        ),
    decreases k,
{
    if k > 0 {
        lemma_covered_slots(sim, p, site, slots, k - 1);
        let prev = covered_slots(sim, p, site, slots, k - 1);
        let cur = covered_slots(sim, p, site, slots, k);
        assert forall|i: int| 0 <= i < cur.len() implies answers_posting(#[trigger] cur[i], p, sim) by {
            if i < prev.len() {
                assert(cur[i] == prev[i]);
            }
        }
    }
}

proof fn lemma_covered_sites(sim: Sim, p: Posting, n: int)
    requires
        n <= sim.sites@.len(),
    ensures
        forall|i: int| 0 <= i < covered_sites(sim, p, n).len() ==> answers_posting(
            #[trigger] covered_sites(sim, p, n)[i],
            p,
            sim,
        ),
    decreases n,
{
    if n > 0 {
        lemma_covered_sites(sim, p, n - 1);
        let slots = sim.sites@[n - 1].spec_open_slots();
        lemma_covered_slots(sim, p, (n - 1) as usize, slots, slots.len() as int);
        let prev = covered_sites(sim, p, n - 1);
        let more = covered_slots(sim, p, (n - 1) as usize, slots, slots.len() as int);
        let cur = covered_sites(sim, p, n);
        assert(cur == prev + more);
        assert forall|i: int| 0 <= i < cur.len() implies answers_posting(#[trigger] cur[i], p, sim) by {
            if i < prev.len() {
                assert(cur[i] == prev[i]);
            } else {
                assert(cur[i] == more[i - prev.len()]);
            }
        }
    }
}

proof fn lemma_posting_prefix(sim: Sim, who: usize, n: int)
    requires
        n <= sim.postings@.len(),
        sim.postings.wf(),
    ensures
        forall|i: int| 0 <= i < posting_prefix(sim, who, n).len() ==> answers_a_heard_posting(
            sim,
            who,
            #[trigger] posting_prefix(sim, who, n)[i],
        ),
    decreases n,
{
    if n > 0 {
        lemma_posting_prefix(sim, who, n - 1);
        let p = sim.postings@[n - 1];
        assert(p.id == n - 1);
        let prev = posting_prefix(sim, who, n - 1);
        let cur = posting_prefix(sim, who, n);
        if p.spec_open_to(who) {
            lemma_covered_sites(sim, p, sim.sites@.len() as int);
            let more = covered_sites(sim, p, sim.sites@.len() as int);
            assert(cur == prev + more);
            assert forall|i: int| 0 <= i < cur.len() implies answers_a_heard_posting(sim, who, #[trigger] cur[i]) by {
                if i < prev.len() {
                    assert(cur[i] == prev[i]);
                } else {
                    assert(cur[i] == more[i - prev.len()]);
                    assert(answers_posting(more[i - prev.len()], p, sim));
                }
            }
        } else {
            assert(cur =~= prev);
        }
    }
}

/// **A posting binds nobody until it is heard**: every answer `who` can
/// weigh is to a posting on the ledger that is standing, that they have
/// heard, and that is addressed to them or to anyone, for a job it covers —
/// so a withdrawn posting, or one they never heard, is never answered.
pub proof fn lemma_answers_are_to_heard_postings(sim: Sim, who: usize)
    requires
        sim.postings.wf(),
    ensures
        forall|i: int| 0 <= i < answer_candidates(sim, who).len() ==> answers_a_heard_posting(
            sim,
            who,
            #[trigger] answer_candidates(sim, who)[i],
        ),
{
    if sim.modules.spec_enabled(MODULE) {
        lemma_posting_prefix(sim, who, sim.postings@.len() as int);
    }
}

proof fn lemma_pot_pull_nonneg(s: Seq<TraitId>)
    ensures
        crate::traits::pot_pull_sum(s) >= 0,
    decreases s.len(),
{
    if s.len() > 0 {
        lemma_pot_pull_nonneg(s.drop_last());
    }
}

proof fn lemma_wage_total(carried: Seq<TraitId>, desperation: i64, wage: i64, tuning: Tuning)
    ensures
        total(wage_terms(carried, desperation, wage, tuning)) == crate::autonomy::tdiv(
            (crate::traits::pot_pull_sum(carried) + desperation) * wage * tuning.pot_weight,
            10,
        ),
{
    let pull = crate::traits::pot_pull_sum(carried) + desperation;
    if pull != 0 && wage != 0 {
        crate::autonomy::lemma_total_one(wage_terms(carried, desperation, wage, tuning)[0]);
        assert(wage_terms(carried, desperation, wage, tuning) =~= seq![wage_terms(carried, desperation, wage, tuning)[0]]);
    } else {
        assert(pull * wage * tuning.pot_weight == 0) by (nonlinear_arith)
            requires pull == 0 || wage == 0;
        assert(total(Seq::<TermV>::empty()) == 0);
    }
}

/// **The wage is a lever**: with desperation and the pot's weight at
/// nothing or more, offering more never makes a posting worth less to the
/// person asked — every other term of the sum stays exactly as it was.
pub proof fn lemma_the_wage_is_a_lever(sim: Sim, tuning: Tuning, now: u64, who: usize, p: Posting, q: Posting, job: JobId)
    requires
        sim.wf(),
        tuning.pot_weight >= 0,
        p.who == q.who,
        p.wage <= q.wage,
    ensures
        total(answer_terms(sim, tuning, now, who, p, job)) <= total(answer_terms(sim, tuning, now, who, q, job)),
{
    if who < sim.people@.len() && sim.quest_of(job) is Some {
        let quest = sim.quest_of(job).unwrap();
        let person = sim.people@[who as int];
        assert(person.wf());
        let carried = person.traits@;
        let a = seq![need_term(person.desperation, tuning)] + posting_want_terms(carried, quest.task, tuning)
            + aptitude_terms(carried, quest.task, tuning);
        let wp = wage_terms(carried, person.desperation, p.wage, tuning);
        let wq = wage_terms(carried, person.desperation, q.wage, tuning);
        let b = player_regard_terms(sim, who, tuning);
        let c = asked_terms(p, who, tuning);
        assert(asked_terms(q, who, tuning) == c);
        let d = rest_terms(sim, tuning, now, who);
        assert(answer_terms(sim, tuning, now, who, p, job) == a + wp + b + c + d);
        assert(answer_terms(sim, tuning, now, who, q, job) == a + wq + b + c + d);
        crate::autonomy::lemma_total_append(a + wp + b + c, d);
        crate::autonomy::lemma_total_append(a + wp + b, c);
        crate::autonomy::lemma_total_append(a + wp, b);
        crate::autonomy::lemma_total_append(a, wp);
        crate::autonomy::lemma_total_append(a + wq + b + c, d);
        crate::autonomy::lemma_total_append(a + wq + b, c);
        crate::autonomy::lemma_total_append(a + wq, b);
        crate::autonomy::lemma_total_append(a, wq);
        lemma_wage_total(carried, person.desperation, p.wage, tuning);
        lemma_wage_total(carried, person.desperation, q.wage, tuning);
        lemma_pot_pull_nonneg(carried);
        let pull = crate::traits::pot_pull_sum(carried) + person.desperation;
        assert(pull >= 0);
        let x = pull * p.wage * tuning.pot_weight;
        let y = pull * q.wage * tuning.pot_weight;
        assert(x <= y) by (nonlinear_arith)
            requires pull >= 0, tuning.pot_weight >= 0, p.wage <= q.wage, x == pull * p.wage * tuning.pot_weight,
                y == pull * q.wage * tuning.pot_weight;
        assert(crate::autonomy::tdiv(x, 10) <= crate::autonomy::tdiv(y, 10)) by (nonlinear_arith)
            requires x <= y;
    }
}

/// **An offer the row reads as taken stays taken at a higher wage**: the
/// same posting, offering more, is never refused where it was taken.
pub proof fn lemma_more_is_never_refused(sim: Sim, tuning: Tuning, now: u64, who: usize, p: Posting, q: Posting, job: JobId)
    requires
        sim.wf(),
        tuning.pot_weight >= 0,
        p.id == q.id,
        p.who == q.who,
        p.wage <= q.wage,
        read_of(sim, tuning, now, who, p, job).0 != Verdict::WouldRefuse,
    ensures
        read_of(sim, tuning, now, who, q, job).0 != Verdict::WouldRefuse,
{
    lemma_the_wage_is_a_lever(sim, tuning, now, who, p, q, job);
}

} // verus!

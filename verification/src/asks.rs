//! **Asks**: the player's ledger of postings, the standing rates, and the
//! hearing. The player never orders; the player posts, and a posting binds
//! nobody until it is heard.

use vstd::prelude::*;
use crate::lens::Lens;
use crate::people::Tile;
use crate::constants::Tuning;
use crate::sim::{Activity, EventClass, JobId, Module, Sim, GOLD_BOUND};
use crate::text::{int_digits, push_i64};
use crate::traits::{task_id, TaskType};

verus! {

/// The module the ledger belongs to.
pub const MODULE: Module = Module::Asks;

/// What one tap of the standing-rates panel moves a rate by, in gold.
pub const RATE_STEP: i64 = 4;

/// The most a standing rate may be set to, in gold.
pub const RATE_MAX: i64 = 60;

/// How much better than its rivals a posting has to score before the row
/// stops calling the character reluctant.
pub const RELUCTANT_MARGIN: i64 = 6;

/// One row of the standing-rate table.
#[derive(Clone, Copy, Debug, PartialEq, Eq, Structural)]
pub struct RateSpec {
    /// Which kind of work.
    pub task: TaskType,
    /// What it opens at, in gold per fulfilment.
    pub opening: i64,
}

/// The table's row for a task: its place in the rates.
pub open spec fn task_index(task: TaskType) -> int {
    match task {
        TaskType::Fight => 0,
        TaskType::Labor => 1,
        TaskType::Scout => 2,
        TaskType::Craft => 3,
    }
}

/// The task at a row of the table.
pub open spec fn task_at(i: int) -> TaskType {
    if i == 0 { TaskType::Fight } else if i == 1 { TaskType::Labor } else if i == 2 { TaskType::Scout } else { TaskType::Craft }
}

/// What each row of the table opens at.
pub open spec fn opening_rates() -> Seq<i64> {
    seq![24i64, 16, 20, 20]
}

/// **The standing rates table**: a task type, and what the settlement pays
/// for it before the player says otherwise.
pub fn rate_table() -> (t: Vec<RateSpec>)
    ensures
        t@.len() == 4,
        forall|i: int| 0 <= i < 4 ==> (#[trigger] t@[i]).task == task_at(i) && t@[i].opening == opening_rates()[i],
{
    vec![
        RateSpec { task: TaskType::Fight, opening: 24 },
        RateSpec { task: TaskType::Labor, opening: 16 },
        RateSpec { task: TaskType::Scout, opening: 20 },
        RateSpec { task: TaskType::Craft, opening: 20 },
    ]
}

/// A task type's row in the rate table.
fn index_of(task: TaskType) -> (i: usize)
    ensures
        i == task_index(task),
{
    match task {
        TaskType::Fight => 0,
        TaskType::Labor => 1,
        TaskType::Scout => 2,
        TaskType::Craft => 3,
    }
}

/// What the settlement pays per task type right now.
#[derive(Debug, PartialEq, Eq)]
pub struct Rates {
    per_task: Vec<i64>,
}

impl View for Rates {
    type V = Seq<i64>;

    closed spec fn view(&self) -> Seq<i64> {
        self.per_task@
    }
}

/// **A step is read back, and is the only row it moves**: after a table
/// `before` has had the rate for `task` set to `held` (what `Rates::step`
/// does to the view), reading `task` gives `held` and reading any other task
/// gives what it gave before.
pub proof fn lemma_step_reads_back(before: Seq<i64>, after: Seq<i64>, task: TaskType, held: i64)
    requires
        before.len() == 4,
        after == before.update(task_index(task), held),
    ensures
        after[task_index(task)] == held,
        forall|other: TaskType| other != task ==> after[#[trigger] task_index(other)] == before[task_index(other)],
{
}

/// `v` held inside `[lo, hi]`.
pub open spec fn clamp_to(v: int, lo: int, hi: int) -> int {
    if v < lo { lo } else if v > hi { hi } else { v }
}

/// The stamp spelling of a rate table.
pub open spec fn stamp_of(v: Seq<i64>) -> Seq<char> {
    "rates:"@ + task_id(TaskType::Fight) + "="@ + int_digits(v[0] as int) + ","@ + task_id(
        TaskType::Labor,
    ) + "="@ + int_digits(v[1] as int) + ","@ + task_id(TaskType::Scout) + "="@ + int_digits(
        v[2] as int,
    ) + ","@ + task_id(TaskType::Craft) + "="@ + int_digits(v[3] as int)
}

impl Rates {
    #[verifier::type_invariant]
    closed spec fn inv(self) -> bool {
        &&& self.per_task@.len() == 4
        &&& forall|i: int| 0 <= i < 4 ==> 0 <= #[trigger] self.per_task@[i] <= RATE_MAX
    }

    /// **The table's own values** — what a scenario opens on.
    pub fn opening() -> (r: Rates)
        ensures
            r@ == opening_rates(),
            r@.len() == 4,
    {
        let r = Rates { per_task: vec![24, 16, 20, 20] };
        assert(r.per_task@ =~= opening_rates());
        r
    }

    /// **The standing rate** for this kind of work.
    pub fn of(&self, task: TaskType) -> (r: i64)
        ensures
            r == self@[task_index(task)],
            0 <= r <= RATE_MAX,
            self@.len() == 4,
            forall|i: int| 0 <= i < 4 ==> 0 <= #[trigger] self@[i] <= RATE_MAX,
    {
        proof { use_type_invariant(self); }
        self.per_task[index_of(task)]
    }

    /// **Move one rate by `delta`**, held inside the panel's range; the one
    /// write, so nothing can set a rate the panel could not have.
    pub fn step(&mut self, task: TaskType, delta: i64) -> (held: i64)
        requires
            old(self)@[task_index(task)] + delta <= i64::MAX,
        ensures
            held == clamp_to(old(self)@[task_index(task)] + delta, 0, RATE_MAX as int),
            final(self)@ == old(self)@.update(task_index(task), held),
            old(self)@.len() == 4,
            final(self)@.len() == 4,
            forall|i: int| 0 <= i < 4 ==> 0 <= #[trigger] final(self)@[i] <= RATE_MAX,
    {
        proof { use_type_invariant(&*self); }
        let slot = index_of(task);
        let next = self.per_task[slot] + delta;
        let held = if next < 0 { 0 } else if next > RATE_MAX { RATE_MAX } else { next };
        let mut next_rates: Vec<i64> = Vec::new();
        for i in 0..4usize
            invariant
                next_rates@.len() == i,
                self.per_task@.len() == 4,
                0 <= held <= RATE_MAX,
                forall|j: int| 0 <= j < 4 ==> 0 <= #[trigger] self.per_task@[j] <= RATE_MAX,
                forall|j: int| 0 <= j < i ==> #[trigger] next_rates@[j] == if j == slot {
                    held
                } else {
                    self.per_task@[j]
                },
        {
            if i == slot {
                next_rates.push(held);
            } else {
                next_rates.push(self.per_task[i]);
            }
        }
        assert(next_rates@ =~= self.per_task@.update(slot as int, held));
        *self = Rates { per_task: next_rates };
        held
    }

    /// **The rates as a stamp carries them**: `rates:fight=24,labor=16,...`.
    pub fn stamp(&self) -> (s: String)
        ensures
            s@ == stamp_of(self@),
    {
        proof {
            use_type_invariant(self);
            reveal_strlit("rates:");
            reveal_strlit("=");
            reveal_strlit(",");
        }
        let mut s = String::from_str("rates:");
        s.append(TaskType::Fight.id());
        s.append("=");
        push_i64(&mut s, self.per_task[0]);
        s.append(",");
        s.append(TaskType::Labor.id());
        s.append("=");
        push_i64(&mut s, self.per_task[1]);
        s.append(",");
        s.append(TaskType::Scout.id());
        s.append("=");
        push_i64(&mut s, self.per_task[2]);
        s.append(",");
        s.append(TaskType::Craft.id());
        s.append("=");
        push_i64(&mut s, self.per_task[3]);
        s
    }
}

impl Default for Rates {
    fn default() -> (r: Rates)
        ensures
            r@ == opening_rates(),
    {
        Rates::opening()
    }
}

/// Who a posting is addressed to.
#[derive(Clone, Copy, Debug, PartialEq, Eq, Structural)]
pub enum Who {
    /// Anybody who hears it — the bounty.
    Anyone,
    /// One named character — the contract.
    Person(usize),
}

/// What a posting asks for.
#[derive(Clone, Copy, Debug, PartialEq, Eq, Structural)]
pub enum What {
    /// This job, by site and row.
    Job(JobId),
    /// Any open job at this site.
    Site(usize),
    /// Any open job of this kind, anywhere.
    Task(TaskType),
}

/// **Whether a posting's `what` covers a job** — the one matcher, so the
/// ledger, the scorer's candidates and the answer all mean the same thing.
pub open spec fn covers_job(what: What, sim: Sim, job: JobId) -> bool {
    match sim.quest_of(job) {
        None => false,
        Some(quest) => match what {
            What::Job(named) => named == job,
            What::Site(site) => site == job.site,
            What::Task(task) => quest.task == task,
        },
    }
}

impl What {
    /// **Whether this posting covers that job**.
    pub fn covers(self, sim: &Sim, job: JobId) -> (b: bool)
        ensures
            b == covers_job(self, *sim, job),
    {
        let quest = match sim.quest(job) {
            Some(q) => q,
            None => return false,
        };
        match self {
            What::Job(named) => named == job,
            What::Site(site) => site == job.site,
            What::Task(task) => quest.task == task,
        }
    }
}

/// How a ledger row and a feed line name what a posting asks for.
pub open spec fn what_words(what: What, sim: Sim) -> Seq<char> {
    match what {
        What::Job(job) => match sim.quest_of(job) {
            Some(q) => q.name@,
            None => "that job"@,
        },
        What::Site(site) => "any job at "@ + crate::sim::spec_site_name(sim, site),
        What::Task(task) => "any "@ + task_id(task) + " work"@,
    }
}

impl What {
    /// **How a ledger row and a feed line name it**.
    pub fn label(self, sim: &Sim) -> (s: String)
        ensures
            s@ == what_words(self, *sim),
    {
        proof {
            reveal_strlit("that job");
            reveal_strlit("any job at ");
            reveal_strlit("any ");
            reveal_strlit(" work");
        }
        match self {
            What::Job(job) => match sim.quest(job) {
                Some(q) => String::from_str(q.name),
                None => String::from_str("that job"),
            },
            What::Site(site) => {
                let mut s = String::from_str("any job at ");
                s.append(crate::sim::site_name(sim, site));
                s
            },
            What::Task(task) => {
                let mut s = String::from_str("any ");
                s.append(task.id());
                s.append(" work");
                s
            },
        }
    }

    /// **The same, through a lens**, for the surfaces.
    pub fn label_through(self, lens: &Lens<'_>) -> (s: String)
        ensures
            s@ == what_words(self, lens.world()),
    {
        self.label(lens.sim())
    }
}

/// The terms of a posting, without who it is addressed to.
pub open spec fn terms_words(p: Posting, sim: Sim) -> Seq<char> {
    what_words(p.what, sim) + " - "@ + int_digits(p.wage as int) + "g - until "@ + until_name(p.until)
}

/// The one-line summary a ledger row and a feed sentence share.
pub open spec fn line_words(p: Posting, sim: Sim) -> Seq<char> {
    (match p.who {
        Who::Anyone => "anyone"@,
        Who::Person(index) => crate::lens::name_of(sim, index),
    }) + " - "@ + terms_words(p, sim)
}

/// How long a posting stands.
#[derive(Clone, Copy, Debug, PartialEq, Eq, Structural)]
pub enum Until {
    /// One fulfilment closes it.
    Done,
    /// It stands until the player takes it down.
    Withdrawn,
}

/// The word a ledger row prints for how long a posting stands.
pub open spec fn until_name(u: Until) -> Seq<char> {
    match u {
        Until::Done => "done"@,
        Until::Withdrawn => "withdrawn"@,
    }
}

impl Until {
    /// The word a ledger row prints.
    pub fn name(self) -> (s: &'static str)
        ensures
            s@ == until_name(self),
    {
        match self {
            Until::Done => "done",
            Until::Withdrawn => "withdrawn",
        }
    }
}

/// What has become of a posting.
#[derive(Clone, Copy, Debug, PartialEq, Eq, Structural)]
pub enum Status {
    /// Standing, and answerable.
    Open,
    /// Somebody agreed and the work is theirs.
    Filled,
    /// The player took it down.
    Withdrawn,
}

/// The word a ledger row prints for a status.
pub open spec fn status_name(s: Status) -> Seq<char> {
    match s {
        Status::Open => "open"@,
        Status::Filled => "filled"@,
        Status::Withdrawn => "withdrawn"@,
    }
}

impl Status {
    /// The word a ledger row prints.
    pub fn name(self) -> (s: &'static str)
        ensures
            s@ == status_name(self),
    {
        match self {
            Status::Open => "open",
            Status::Filled => "filled",
            Status::Withdrawn => "withdrawn",
        }
    }
}

/// What somebody said, and why.
#[derive(Clone, Debug)]
pub enum Answer {
    /// They took it, and this is the job they took.
    Agreed { job: JobId },
    /// They did not, and this is the scorer's reason for what they did instead.
    Declined { reason: String },
}

/// When `who` first heard, on a posting's record of hearings.
pub open spec fn heard_minute(heard: Seq<(usize, u64)>, who: usize) -> Option<u64>
    decreases heard.len(),
{
    if heard.len() == 0 {
        None
    } else if heard[0].0 == who {
        Some(heard[0].1)
    } else {
        heard_minute(heard.drop_first(), who)
    }
}

/// Whether `who` has declined on a posting's record of answers.
pub open spec fn has_declined(answered: Seq<(usize, Answer)>, who: usize) -> bool {
    exists|i: int| 0 <= i < answered.len() && answered[i].0 == who && answered[i].1 is Declined
}

/// One posting, as the ledger records it.
#[derive(Clone, Debug)]
pub struct Posting {
    /// Its id — its index on the ledger.
    pub id: usize,
    /// Who it is addressed to.
    pub who: Who,
    /// What it asks for.
    pub what: What,
    /// How long it stands.
    pub until: Until,
    /// What it pays per fulfilment, in gold.
    pub wage: i64,
    /// The standing rate for its work at the moment it was made.
    pub rate_at_posting: i64,
    /// The world-minute it was made at.
    pub made_at: u64,
    /// Who has heard it, and when.
    pub heard: Vec<(usize, u64)>,
    /// Who has answered it, and what they said.
    pub answered: Vec<(usize, Answer)>,
    /// What has become of it.
    pub status: Status,
}

impl Posting {
    /// When this character heard it, if they have.
    pub open spec fn spec_heard_by(&self, who: usize) -> Option<u64> {
        heard_minute(self.heard@, who)
    }

    /// Whether it is addressed to this character by name.
    pub open spec fn spec_targets(&self, who: usize) -> bool {
        self.who == Who::Person(who)
    }

    /// Whether this character may weigh it.
    pub open spec fn spec_open_to(&self, who: usize) -> bool {
        &&& self.status == Status::Open
        &&& self.spec_heard_by(who) is Some
        &&& (self.who == Who::Anyone || self.spec_targets(who))
    }

    /// **Whether this character has heard it**, and when.
    #[verifier::when_used_as_spec(spec_heard_by)]
    pub fn heard_by(&self, who: usize) -> (m: Option<u64>)
        ensures
            m == self.spec_heard_by(who),
    {
        let n = self.heard.len();
        let mut i: usize = 0;
        assert(self.heard@.skip(0) =~= self.heard@);
        while i < n
            invariant
                n == self.heard@.len(),
                0 <= i <= n,
                heard_minute(self.heard@, who) == heard_minute(self.heard@.skip(i as int), who),
            decreases n - i,
        {
            assert(self.heard@.skip(i as int).drop_first() =~= self.heard@.skip(i + 1));
            let (index, minute) = self.heard[i];
            if index == who {
                return Some(minute);
            }
            i = i + 1;
        }
        None
    }

    /// **Whether it is addressed to this character** by name.
    #[verifier::when_used_as_spec(spec_targets)]
    pub fn targets(&self, who: usize) -> (b: bool)
        ensures
            b == self.spec_targets(who),
    {
        self.who == Who::Person(who)
    }

    /// **Whether this character may weigh it**: it is standing, they have
    /// heard it, and it is either theirs by name or open to anybody.
    #[verifier::when_used_as_spec(spec_open_to)]
    pub fn open_to(&self, who: usize) -> (b: bool)
        ensures
            b == self.spec_open_to(who),
    {
        self.status == Status::Open && self.heard_by(who).is_some() && (self.who == Who::Anyone
            || self.targets(who))
    }

    /// **What is being asked for**, without who it is addressed to.
    pub fn terms_line(&self, lens: &Lens<'_>) -> (s: String)
        ensures
            s@ == terms_words(*self, lens.world()),
    {
        proof { reveal_strlit(" - "); reveal_strlit("g - until "); }
        let mut s = self.what.label_through(lens);
        s.append(" - ");
        push_i64(&mut s, self.wage);
        s.append("g - until ");
        s.append(self.until.name());
        s
    }

    /// **The one-line summary** a ledger row and a feed sentence share.
    pub fn line(&self, lens: &Lens<'_>) -> (s: String)
        ensures
            s@ == line_words(*self, lens.world()),
    {
        proof { reveal_strlit("anyone"); reveal_strlit(" - "); }
        let mut s = match self.who {
            Who::Anyone => String::from_str("anyone"),
            Who::Person(index) => String::from_str(lens.name(index)),
        };
        s.append(" - ");
        let rest = self.terms_line(lens);
        s.append(rest.as_str());
        s
    }

    /// Whether `who` has already said no to it.
    pub fn declined_by(&self, who: usize) -> (b: bool)
        ensures
            b == has_declined(self.answered@, who),
    {
        let n = self.answered.len();
        for i in 0..n
            invariant
                n == self.answered@.len(),
                forall|j: int| 0 <= j < i ==> !(self.answered@[j].0 == who && self.answered@[j].1 is Declined),
        {
            let declined = match &self.answered[i].1 {
                Answer::Declined { .. } => true,
                Answer::Agreed { .. } => false,
            };
            if self.answered[i].0 == who && declined {
                return true;
            }
        }
        false
    }
}

/// The ledger's own bounds: a posting's id is its place, and every sum of
/// gold on it is one the ledger can carry.
pub open spec fn rows_wf(rows: Seq<Posting>) -> bool {
    forall|i: int| 0 <= i < rows.len() ==> {
        &&& (#[trigger] rows[i]).id == i
        &&& -GOLD_BOUND <= rows[i].wage <= GOLD_BOUND
        &&& -GOLD_BOUND <= rows[i].rate_at_posting <= GOLD_BOUND
    }
}

/// `ids` are the ids of the rows at `src`, rows that `picks` chose, taken
/// in ledger order.
pub open spec fn picked_by(rows: Seq<Posting>, ids: Seq<usize>, picks: spec_fn(&Posting) -> bool, src: Seq<int>) -> bool {
    &&& src.len() == ids.len()
    &&& forall|k: int| 0 <= k < src.len() ==> {
        &&& 0 <= #[trigger] src[k] < rows.len()
        &&& ids[k] == rows[src[k]].id
        &&& picks(&rows[src[k]])
    }
    &&& forall|a: int, b: int| 0 <= a < b < src.len() ==> src[a] < src[b]
}

/// `ids` are the ids of rows that `picks` chose, taken in ledger order,
/// whatever ids the rows carry.
pub open spec fn picked_rows(rows: Seq<Posting>, ids: Seq<usize>, picks: spec_fn(&Posting) -> bool) -> bool {
    exists|src: Seq<int>| picked_by(rows, ids, picks, src)
}

/// The player's ledger: every posting ever made, in the order they were made.
#[derive(Clone, Debug)]
pub struct Postings {
    rows: Vec<Posting>,
}

impl View for Postings {
    type V = Seq<Posting>;

    closed spec fn view(&self) -> Seq<Posting> {
        self.rows@
    }
}

impl Postings {
    /// The ledger's own bounds.
    pub open spec fn wf(&self) -> bool {
        rows_wf(self@)
    }

    /// An empty ledger.
    pub fn new() -> (p: Postings)
        ensures
            p@.len() == 0,
            p.wf(),
    {
        Postings { rows: Vec::new() }
    }

    /// **Every posting**, oldest first.
    pub fn all(&self) -> (rows: &[Posting])
        ensures
            rows@ == self@,
    {
        self.rows.as_slice()
    }

    /// How many postings the ledger holds.
    pub fn len(&self) -> (n: usize)
        ensures
            n == self@.len(),
    {
        self.rows.len()
    }

    /// **One posting** by id.
    pub fn get(&self, id: usize) -> (p: Option<&Posting>)
        ensures
            match p {
                Some(r) => id < self@.len() && *r == self@[id as int],
                None => id >= self@.len(),
            },
    {
        if id < self.rows.len() {
            Some(&self.rows[id])
        } else {
            None
        }
    }

    /// **Put a new posting on the ledger** and hand back its id — the one
    /// write that makes a posting exist.
    pub fn push(&mut self, posting: Posting) -> (id: usize)
        ensures
            id == old(self)@.len(),
            final(self)@ == old(self)@.push(posting),
            old(self).wf() && posting.id == id && -GOLD_BOUND <= posting.wage <= GOLD_BOUND
                && -GOLD_BOUND <= posting.rate_at_posting <= GOLD_BOUND ==> final(self).wf(),
    {
        let id = self.rows.len();
        self.rows.push(posting);
        id
    }

    /// Record that `who` heard posting `id` at `minute`.
    pub fn record_hearing(&mut self, id: usize, who: usize, minute: u64)
        requires
            id < old(self)@.len(),
        ensures
            final(self)@.len() == old(self)@.len(),
            forall|i: int| 0 <= i < old(self)@.len() && i != id ==> #[trigger] final(self)@[i] == old(self)@[i],
            final(self)@[id as int].heard@ == old(self)@[id as int].heard@.push((who, minute)),
            final(self)@[id as int].id == old(self)@[id as int].id,
            final(self)@[id as int].who == old(self)@[id as int].who,
            final(self)@[id as int].what == old(self)@[id as int].what,
            final(self)@[id as int].until == old(self)@[id as int].until,
            final(self)@[id as int].wage == old(self)@[id as int].wage,
            final(self)@[id as int].rate_at_posting == old(self)@[id as int].rate_at_posting,
            final(self)@[id as int].made_at == old(self)@[id as int].made_at,
            final(self)@[id as int].answered == old(self)@[id as int].answered,
            final(self)@[id as int].status == old(self)@[id as int].status,
            old(self).wf() ==> final(self).wf(),
    {
        match self.get_mut(id) {
            Some(p) => {
                p.heard.push((who, minute));
            },
            None => {},
        }
    }

    /// Set what has become of posting `id`.
    pub fn set_status(&mut self, id: usize, status: Status)
        requires
            id < old(self)@.len(),
        ensures
            final(self)@.len() == old(self)@.len(),
            forall|i: int| 0 <= i < old(self)@.len() && i != id ==> #[trigger] final(self)@[i] == old(self)@[i],
            final(self)@[id as int].status == status,
            final(self)@[id as int].heard == old(self)@[id as int].heard,
            final(self)@[id as int].id == old(self)@[id as int].id,
            final(self)@[id as int].who == old(self)@[id as int].who,
            final(self)@[id as int].what == old(self)@[id as int].what,
            final(self)@[id as int].until == old(self)@[id as int].until,
            final(self)@[id as int].wage == old(self)@[id as int].wage,
            final(self)@[id as int].rate_at_posting == old(self)@[id as int].rate_at_posting,
            final(self)@[id as int].made_at == old(self)@[id as int].made_at,
            final(self)@[id as int].answered == old(self)@[id as int].answered,
            old(self).wf() ==> final(self).wf(),
    {
        match self.get_mut(id) {
            Some(p) => {
                p.status = status;
            },
            None => {},
        }
    }

    /// Record what `who` answered to posting `id`.
    pub fn record_answer(&mut self, id: usize, who: usize, answer: Answer)
        requires
            id < old(self)@.len(),
        ensures
            final(self)@.len() == old(self)@.len(),
            forall|i: int| 0 <= i < old(self)@.len() && i != id ==> #[trigger] final(self)@[i] == old(self)@[i],
            final(self)@[id as int].answered@ == old(self)@[id as int].answered@.push((who, answer)),
            final(self)@[id as int].status == old(self)@[id as int].status,
            final(self)@[id as int].heard == old(self)@[id as int].heard,
            final(self)@[id as int].id == old(self)@[id as int].id,
            final(self)@[id as int].who == old(self)@[id as int].who,
            final(self)@[id as int].what == old(self)@[id as int].what,
            final(self)@[id as int].until == old(self)@[id as int].until,
            final(self)@[id as int].wage == old(self)@[id as int].wage,
            final(self)@[id as int].rate_at_posting == old(self)@[id as int].rate_at_posting,
            final(self)@[id as int].made_at == old(self)@[id as int].made_at,
            old(self).wf() ==> final(self).wf(),
    {
        match self.get_mut(id) {
            Some(p) => {
                p.answered.push((who, answer));
            },
            None => {},
        }
    }

    /// **One posting**, to write an answer, a hearing or a status onto.
    pub fn get_mut(&mut self, id: usize) -> (p: Option<&mut Posting>)
        ensures
            match p {
                Some(r) => {
                    &&& id < old(self)@.len()
                    &&& *r == old(self)@[id as int]
                    &&& final(self)@ == old(self)@.update(id as int, *final(r))
                },
                None => id >= old(self)@.len() && final(self)@ == old(self)@,
            },
    {
        if id < self.rows.len() {
            Some(&mut self.rows[id])
        } else {
            None
        }
    }
}


// ── hearing ────────────────────────────────────────────────────────────────

/// `after` is `before` with `who` heard at `minute`, and nothing else moved.
pub open spec fn heard_now(before: Posting, after: Posting, who: usize, minute: u64) -> bool {
    &&& after.heard@ == before.heard@.push((who, minute))
    &&& after.id == before.id
    &&& after.who == before.who
    &&& after.what == before.what
    &&& after.until == before.until
    &&& after.wage == before.wage
    &&& after.rate_at_posting == before.rate_at_posting
    &&& after.made_at == before.made_at
    &&& after.answered == before.answered
    &&& after.status == before.status
}

/// A standing notice on the board that `who` has not read yet.
pub open spec fn unread_notice(p: Posting, who: usize) -> bool {
    p.status == Status::Open && p.who == Who::Anyone && p.spec_heard_by(who) is None
}

/// A standing ask to `who` by name that has not reached them yet.
pub open spec fn undelivered_ask(p: Posting, who: usize) -> bool {
    p.status == Status::Open && p.spec_targets(who) && p.spec_heard_by(who) is None
}

/// How many of the first `n` postings satisfy `keep`.
pub open spec fn count_where(rows: Seq<Posting>, keep: spec_fn(Posting) -> bool, n: int) -> nat
    decreases n,
{
    if n <= 0 { 0 } else { count_where(rows, keep, n - 1) + if keep(rows[n - 1]) { 1nat } else { 0nat } }
}

/// Every field of a world but the ledger and the feed is the same.
pub open spec fn same_but_ledger_feed(a: Sim, b: Sim) -> bool {
    &&& a.people == b.people
    &&& a.parties == b.parties
    &&& a.sites == b.sites
    &&& a.rates == b.rates
    &&& a.treasury == b.treasury
    &&& a.modules == b.modules
    &&& a.ports == b.ports
    &&& a.shared == b.shared
    &&& a.settlement == b.settlement
    &&& a.locations == b.locations
    &&& a.reckonings == b.reckonings
    &&& a.attention == b.attention
    &&& a.pause == b.pause
    &&& a.pauses == b.pauses
}

/// The ledger `after` is `before` with every posting `keep` picks heard by
/// `who` at `minute`, and every other posting untouched.
pub open spec fn heard_where(before: Seq<Posting>, after: Seq<Posting>, keep: spec_fn(Posting) -> bool, who: usize, minute: u64) -> bool {
    &&& after.len() == before.len()
    &&& forall|i: int| 0 <= i < before.len() ==> if keep(before[i]) {
        heard_now(before[i], #[trigger] after[i], who, minute)
    } else {
        after[i] == before[i]
    }
}

/// Whether a notice is unread by `who`.
pub open spec fn unread_by(who: usize) -> spec_fn(Posting) -> bool {
    |p: Posting| unread_notice(p, who)
}

/// Whether an ask to `who` is undelivered.
pub open spec fn undelivered_to(who: usize) -> spec_fn(Posting) -> bool {
    |p: Posting| undelivered_ask(p, who)
}

/// Hear every posting `keep` picks, saying so in the feed with `opening`.
fn hear_all(sim: &mut Sim, now: u64, who: usize, road: bool)
    requires
        old(sim).wf(),
    ensures
        final(sim).wf(),
        same_but_ledger_feed(*final(sim), *old(sim)),
        heard_where(old(sim).postings@, final(sim).postings@, if road { undelivered_to(who) } else { unread_by(who) }, who, now),
        final(sim).events@.len() == old(sim).events@.len() + count_where(
            old(sim).postings@,
            if road { undelivered_to(who) } else { unread_by(who) },
            old(sim).postings@.len() as int,
        ),
        final(sim).events@.take(old(sim).events@.len() as int) == old(sim).events@,
        forall|k: int| old(sim).events@.len() <= k < final(sim).events@.len() ==> {
            &&& (#[trigger] final(sim).events@[k]).class == EventClass::AskHeard
            &&& final(sim).events@[k].party == who
            &&& final(sim).events@[k].minute == now
        },
{
    let ghost keep = if road { undelivered_to(who) } else { unread_by(who) };
    let ghost before = *sim;
    let n = sim.postings.len();
    for id in 0..n
        invariant
            n == before.postings@.len(),
            keep == (if road { undelivered_to(who) } else { unread_by(who) }),
            sim.wf(),
            same_but_ledger_feed(*sim, before),
            sim.postings@.len() == n,
            forall|i: int| 0 <= i < id ==> if keep(before.postings@[i]) {
                heard_now(before.postings@[i], #[trigger] sim.postings@[i], who, now)
            } else {
                sim.postings@[i] == before.postings@[i]
            },
            forall|i: int| id <= i < n ==> #[trigger] sim.postings@[i] == before.postings@[i],
            sim.events@.len() == before.events@.len() + count_where(before.postings@, keep, id as int),
            sim.events@.take(before.events@.len() as int) == before.events@,
            forall|k: int| before.events@.len() <= k < sim.events@.len() ==> {
                &&& (#[trigger] sim.events@[k]).class == EventClass::AskHeard
                &&& sim.events@[k].party == who
                &&& sim.events@[k].minute == now
            },
    {
        let (wanted, line) = match sim.postings.get(id) {
            Some(p) => {
                let wanted = p.status == Status::Open && p.heard_by(who).is_none() && if road {
                    p.targets(who)
                } else {
                    p.who == Who::Anyone
                };
                let line = p.terms_line(&Lens::on(sim));
                (wanted, line)
            },
            None => (false, String::new()),
        };
        let ghost events_before = sim.events@;
        if wanted {
            sim.postings.record_hearing(id, who, now);
            let tile = sim.tile_of(who);
            proof { reveal_strlit("heard the ask on the road - "); reveal_strlit("read the board - "); }
            let mut note = if road {
                String::from_str("heard the ask on the road - ")
            } else {
                String::from_str("read the board - ")
            };
            note.append(line.as_str());
            sim.emit(now, EventClass::AskHeard, who, tile, note);
            assert(sim.events@.take(before.events@.len() as int) =~= before.events@) by {
                assert(sim.events@.drop_last() == events_before);
                assert forall|k: int| 0 <= k < before.events@.len() implies sim.events@[k] == before.events@[k] by {
                    assert(sim.events@[k] == sim.events@.drop_last()[k]);
                }
            }
            assert forall|k: int| before.events@.len() <= k < sim.events@.len() implies {
                &&& (#[trigger] sim.events@[k]).class == EventClass::AskHeard
                &&& sim.events@[k].party == who
                &&& sim.events@[k].minute == now
            } by {
                if k < sim.events@.len() - 1 {
                    assert(sim.events@[k] == sim.events@.drop_last()[k]);
                }
            }
        }
        assert(keep(before.postings@[id as int]) == wanted);
    }
}

/// What reading the board does to a world: with the asks module off,
/// nothing; with it on, every standing notice `who` has not heard is heard
/// now and said in the feed, and nothing but the ledger and the feed moves.
pub open spec fn read_the_board(before: Sim, after: Sim, now: u64, who: usize) -> bool {
    if !before.modules.spec_enabled(MODULE) {
        after == before
    } else {
        &&& same_but_ledger_feed(after, before)
        &&& heard_where(before.postings@, after.postings@, unread_by(who), who, now)
        &&& after.events@.len() == before.events@.len() + count_where(
            before.postings@,
            unread_by(who),
            before.postings@.len() as int,
        )
        &&& after.events@.take(before.events@.len() as int) == before.events@
    }
}

/// **The open board, read at camp**: a character at home hears every standing
/// notice on the board on their next rescore.
pub fn hear_the_board(sim: &mut Sim, now: u64, who: usize)
    requires
        old(sim).wf(),
    ensures
        final(sim).wf(),
        read_the_board(*old(sim), *final(sim), now, who),
{
    if !sim.modules.enabled(MODULE) {
        return;
    }
    hear_all(sim, now, who, false);
}

/// **The messenger arrives**: every ask waiting on this character by name is
/// heard at the world-minute they reach wherever they were going.
pub fn deliver_on_arrival(sim: &mut Sim, now: u64, who: usize)
    requires
        old(sim).wf(),
    ensures
        final(sim).wf(),
        !old(sim).modules.spec_enabled(MODULE) ==> *final(sim) == *old(sim),
        old(sim).modules.spec_enabled(MODULE) ==> {
            &&& same_but_ledger_feed(*final(sim), *old(sim))
            &&& heard_where(old(sim).postings@, final(sim).postings@, undelivered_to(who), who, now)
            &&& final(sim).events@.len() == old(sim).events@.len() + count_where(
                old(sim).postings@,
                undelivered_to(who),
                old(sim).postings@.len() as int,
            )
            &&& final(sim).events@.take(old(sim).events@.len() as int) == old(sim).events@
        },
{
    if !sim.modules.enabled(MODULE) {
        return;
    }
    hear_all(sim, now, who, true);
}


/// **A hearing, on the record and in the feed**: posting `id` is heard by
/// `who` at `now` — one more entry on its record of hearings and nothing else
/// on the ledger changed — and the feed says so, under their party, at their
/// tile, and nothing else in the world moves.
pub open spec fn heard_recorded(before: Sim, after: Sim, now: u64, who: usize, id: usize) -> bool {
    let p = before.postings@[id as int];
    let q = after.postings@[id as int];
    &&& same_but_ledger_feed(after, before)
    &&& after.postings@.len() == before.postings@.len()
    &&& forall|i: int| 0 <= i < before.postings@.len() && i != id ==> #[trigger] after.postings@[i] == before.postings@[i]
    &&& q.heard@ == p.heard@.push((who, now))
    &&& q.id == p.id && q.who == p.who && q.what == p.what && q.until == p.until
    &&& q.wage == p.wage && q.rate_at_posting == p.rate_at_posting && q.made_at == p.made_at
    &&& q.answered == p.answered && q.status == p.status
    &&& after.events@.drop_last() == before.events@
    &&& after.events@.len() == before.events@.len() + 1
    &&& after.events@.last().class == EventClass::AskHeard
    &&& after.events@.last().minute == now
    &&& after.events@.last().party == who
    &&& after.events@.last().tile == before.spec_tile_of(who)
}

/// The party index the player's own occurrences are said under.
pub const PLAYER: usize = usize::MAX;

/// What hearing a posting does to a world: nothing, unless the posting is
/// standing, `who` has not heard it and stands idle at home; then the
/// hearing goes on the record and in the feed, and `who` weighs it there and
/// then, through the one scorer.
pub open spec fn heard_and_weighed(before: Sim, after: Sim, tuning: Tuning, now: u64, who: usize, id: usize) -> bool {
    let live = id < before.postings@.len() && before.postings@[id as int].status == Status::Open
        && before.postings@[id as int].spec_heard_by(who) is None && before.spec_is_idle(who);
    &&& !live ==> after == before
    &&& crate::autonomy::events_kept(before.events@, after.events@)
    &&& live ==> {
        &&& crate::autonomy::same_people_and_money(after, before)
        &&& after.postings@.len() == before.postings@.len()
        &&& terms_kept(before.postings@, after.postings@)
        &&& after.postings@[id as int].spec_heard_by(who) == Some(now)
        &&& after.events@.len() > before.events@.len()
        &&& after.events@[before.events@.len() as int].class == EventClass::AskHeard
        &&& exists|mid: Sim| #![trigger heard_recorded(before, mid, now, who, id)] {
            &&& heard_recorded(before, mid, now, who, id)
            &&& mid.modules.spec_enabled(crate::autonomy::MODULE) ==> crate::autonomy::weighed_and_done(
                mid,
                after,
                tuning,
                now,
                who,
            )
            &&& !mid.modules.spec_enabled(crate::autonomy::MODULE) ==> after == mid
        }
    }
}

/// **Somebody hears a posting**: recorded on the record, said in the feed, and
/// — because being asked is being asked — weighed there and then by somebody
/// standing idle at home, through the one scorer. Somebody who is out hears it
/// when the messenger reaches them instead.
pub fn hear(sim: &mut Sim, tuning: &Tuning, now: u64, who: usize, id: usize)
    requires
        old(sim).wf(),
        tuning.wf(),
    ensures
        final(sim).wf(),
        heard_and_weighed(*old(sim), *final(sim), *tuning, now, who, id),
{
    proof { assert(sim.events@.take(sim.events@.len() as int) =~= sim.events@); }
    match sim.postings.get(id) {
        Some(p) => {
            if p.status != Status::Open || p.heard_by(who).is_some() {
                return;
            }
        },
        None => return,
    }
    if who >= sim.parties.len() || sim.parties[who].activity != Activity::Idle {
        return;
    }
    let line = match sim.postings.get(id) {
        Some(p) => p.terms_line(&Lens::on(sim)),
        None => return,
    };
    let ghost h0 = sim.postings@[id as int].heard@;
    sim.postings.record_hearing(id, who, now);
    proof { lemma_heard_appended(h0, who, now); }
    let tile = sim.tile_of(who);
    proof { reveal_strlit("heard the ask - "); }
    let mut note = String::from_str("heard the ask - ");
    note.append(line.as_str());
    let ghost e0 = sim.events@.len();
    sim.emit(now, EventClass::AskHeard, who, tile, note);
    let ghost mid = *sim;
    proof {
        assert(heard_recorded(*old(sim), mid, now, who, id));
        assert(mid.spec_is_idle(who));
    }
    crate::autonomy::rescore(sim, tuning, now, who);
    proof {
        lemma_heard_prefix(mid.postings@[id as int].heard@, sim.postings@[id as int].heard@, who);
        assert(sim.events@[e0 as int] == mid.events@[e0 as int]) by {
            assert(sim.events@[e0 as int] == sim.events@.take(mid.events@.len() as int)[e0 as int]);
        }
        assert(mid.events@.take(old(sim).events@.len() as int) =~= old(sim).events@);
        crate::autonomy::lemma_events_kept(old(sim).events@, mid.events@, sim.events@);
    }
}

/// What a posting asks, of whom, for how much and since when, is never
/// rewritten: every posting keeps its terms.
pub open spec fn terms_kept(a: Seq<Posting>, b: Seq<Posting>) -> bool {
    &&& b.len() == a.len()
    &&& forall|i: int| 0 <= i < a.len() ==> {
        &&& (#[trigger] b[i]).id == a[i].id
        &&& b[i].who == a[i].who
        &&& b[i].what == a[i].what
        &&& b[i].until == a[i].until
        &&& b[i].wage == a[i].wage
        &&& b[i].rate_at_posting == a[i].rate_at_posting
        &&& b[i].made_at == a[i].made_at
    }
}

/// Nobody's record of hearings ever loses one: every posting's hearings are a
/// prefix of what they become.
pub open spec fn hearings_kept(a: Seq<Posting>, b: Seq<Posting>) -> bool {
    &&& b.len() == a.len()
    &&& forall|i: int| 0 <= i < a.len() ==> {
        &&& (#[trigger] b[i]).heard@.len() >= a[i].heard@.len()
        &&& b[i].heard@.take(a[i].heard@.len() as int) == a[i].heard@
    }
}

/// Keeping hearings is transitive.
pub proof fn lemma_hearings_kept_trans(a: Seq<Posting>, b: Seq<Posting>, c: Seq<Posting>)
    requires
        hearings_kept(a, b),
        hearings_kept(b, c),
    ensures
        hearings_kept(a, c),
{
    assert forall|i: int| 0 <= i < a.len() implies {
        &&& (#[trigger] c[i]).heard@.len() >= a[i].heard@.len()
        &&& c[i].heard@.take(a[i].heard@.len() as int) == a[i].heard@
    } by {
        assert(c[i].heard@.take(a[i].heard@.len() as int) =~= c[i].heard@.take(b[i].heard@.len() as int).take(
            a[i].heard@.len() as int,
        ));
    }
}

/// A ledger that is the same, or the same with hearings appended, keeps them.
pub proof fn lemma_hearings_kept_refl(a: Seq<Posting>)
    ensures
        hearings_kept(a, a),
{
    assert forall|i: int| 0 <= i < a.len() implies (#[trigger] a[i]).heard@.take(a[i].heard@.len() as int) == a[i].heard@ by {
        assert(a[i].heard@.take(a[i].heard@.len() as int) =~= a[i].heard@);
    }
}

/// Who heard first stays who heard first however the record grows.
pub proof fn lemma_heard_prefix(a: Seq<(usize, u64)>, b: Seq<(usize, u64)>, who: usize)
    requires
        heard_minute(a, who) is Some,
        b.len() >= a.len(),
        b.take(a.len() as int) == a,
    ensures
        heard_minute(b, who) == heard_minute(a, who),
    decreases a.len(),
{
    assert(b[0] == a[0]);
    if a[0].0 != who {
        assert(b.drop_first().take(a.drop_first().len() as int) =~= a.drop_first());
        lemma_heard_prefix(a.drop_first(), b.drop_first(), who);
    }
}

/// A record that did not say `who` heard, with `who` appended at `minute`,
/// says they heard at `minute`.
proof fn lemma_heard_appended(h: Seq<(usize, u64)>, who: usize, minute: u64)
    requires
        heard_minute(h, who) is None,
    ensures
        heard_minute(h.push((who, minute)), who) == Some(minute),
    decreases h.len(),
{
    if h.len() > 0 {
        assert(h.push((who, minute)).drop_first() =~= h.drop_first().push((who, minute)));
        lemma_heard_appended(h.drop_first(), who, minute);
    }
}


/// The task type whose standing rate a posting for `what` inherits: the work
/// it names, or a site's first open row.
pub open spec fn rate_task(sim: Sim, what: What) -> Option<TaskType> {
    match what {
        What::Task(task) => Some(task),
        What::Job(job) => match sim.quest_of(job) {
            Some(q) => Some(q.task),
            None => None,
        },
        What::Site(site) => if site < sim.sites@.len() && sim.sites@[site as int].spec_open_slots().len() > 0 {
            match sim.sites@[site as int].spec_quest(sim.sites@[site as int].spec_open_slots()[0]) {
                Some(q) => Some(q.task),
                None => None,
            }
        } else {
            None
        },
    }
}

/// **A site's posting takes the rate of its first open row**: when row `s`
/// of site `site` is open and no row before it is, a posting for any job at
/// that site is made at the standing rate for the work row `s` holds — and
/// a site with no open row inherits no rate at all.
pub proof fn lemma_a_site_takes_its_first_open_rate(sim: Sim, site: usize, s: int)
    requires
        site < sim.sites@.len(),
        0 <= s < sim.sites@[site as int].states@.len(),
        s < sim.sites@[site as int].quests@.len(),
        sim.sites@[site as int].states@[s] is Open,
        forall|j: int| 0 <= j < s ==> !(#[trigger] sim.sites@[site as int].states@[j] is Open),
    ensures
        rate_for_of(sim, What::Site(site)) == sim.rates@[task_index(sim.sites@[site as int].quests@[s].task)],
{
    let states = sim.sites@[site as int].states@;
    let n = states.len() as int;
    assert(states.len() == sim.sites@[site as int].states.len());
    crate::sim::lemma_open_prefix(states, n);
    let open = crate::sim::open_prefix(states, n);
    assert(open.contains(s as usize));
    let k = choose|k: int| 0 <= k < open.len() && open[k] == s as usize;
    assert(open[0] <= open[k]) by {
        if k > 0 {
            assert(open[0] < open[k]);
        }
    }
    assert(states[open[0] as int] is Open);
    assert(open[0] == s);
}

/// **No open row, no inherited rate** for a posting at a site.
pub proof fn lemma_a_closed_site_inherits_nothing(sim: Sim, site: usize)
    requires
        site < sim.sites@.len(),
        forall|j: int| 0 <= j < sim.sites@[site as int].states@.len() ==> !(#[trigger] sim.sites@[site as int].states@[j] is Open),
    ensures
        rate_for_of(sim, What::Site(site)) == 0,
{
    let states = sim.sites@[site as int].states@;
    assert(states.len() == sim.sites@[site as int].states.len());
    crate::sim::lemma_open_prefix(states, states.len() as int);
    let open = crate::sim::open_prefix(states, states.len() as int);
    if open.len() > 0 {
        assert(states[open[0] as int] is Open);
    }
}

/// The standing rate a posting for `what` inherits.
pub open spec fn rate_for_of(sim: Sim, what: What) -> i64 {
    match rate_task(sim, what) {
        Some(task) => sim.rates@[task_index(task)],
        None => 0,
    }
}

/// **The standing rate a posting for this work inherits**.
pub fn rate_for(sim: &Sim, what: What) -> (r: i64)
    ensures
        r == rate_for_of(*sim, what),
        0 <= r <= RATE_MAX,
{
    let task = match what {
        What::Task(task) => Some(task),
        What::Job(job) => match sim.quest(job) {
            Some(q) => Some(q.task),
            None => None,
        },
        What::Site(site) => if site < sim.sites.len() {
            let board = &sim.sites[site];
            let slots = board.open_slots();
            if slots.len() > 0 {
                match board.quest(slots[0]) {
                    Some(q) => Some(q.task),
                    None => None,
                }
            } else {
                None
            }
        } else {
            None
        },
    };
    match task {
        Some(task) => sim.rates.of(task),
        None => 0,
    }
}

/// What is being asked for: who, what, until when, and for how much.
#[derive(Clone, Copy, Debug, PartialEq, Eq, Structural)]
pub struct Offer {
    /// Who it is addressed to.
    pub who: Who,
    /// What it asks for.
    pub what: What,
    /// How long it stands.
    pub until: Until,
    /// What it pays per fulfilment.
    pub wage: i64,
}

/// **The posting a job row is previewing** — the one a tap would make. Never
/// on the ledger; its id is one no ledger row can have.
pub fn preview_posting(who: usize, site: usize, slot: usize, wage: i64, rate: i64) -> (p: Posting)
    ensures
        p.id == usize::MAX,
        p.who == Who::Person(who),
        p.what == What::Job(JobId { site, slot }),
        p.until == Until::Done,
        p.wage == wage,
        p.rate_at_posting == rate,
        p.made_at == 0,
        p.heard@.len() == 0,
        p.answered@.len() == 0,
        p.status == Status::Open,
{
    Posting {
        id: usize::MAX,
        who: Who::Person(who),
        what: What::Job(JobId { site, slot }),
        until: Until::Done,
        wage,
        rate_at_posting: rate,
        made_at: 0,
        heard: Vec::new(),
        answered: Vec::new(),
        status: Status::Open,
    }
}

/// **What the fit column means**, and what it does not mean yet.
pub fn fit_means() -> (s: String)
    ensures
        s@ == "fit: their aptitude for this work. It sways whether they agree; every job succeeds until resolution lands."@,
{
    String::from_str("fit: their aptitude for this work. It sways whether they agree; every job succeeds until resolution lands.")
}

/// Whether a posting stands open for `who` on `job` already.
pub open spec fn posted_for(p: Posting, sim: Sim, who: Who, job: JobId) -> bool {
    p.status == Status::Open && p.who == who && covers_job(p.what, sim, job)
}

impl Postings {
    /// **Whether this job already has a standing posting on it** for this
    /// addressee — what stops one tap from making the same ask twice.
    pub fn already_posted(&self, sim: &Sim, who: Who, job: JobId) -> (b: bool)
        ensures
            b == exists|i: int| 0 <= i < self@.len() && posted_for(self@[i], *sim, who, job),
    {
        let n = self.rows.len();
        for i in 0..n
            invariant
                n == self@.len(),
                forall|j: int| 0 <= j < i ==> !posted_for(self@[j], *sim, who, job),
        {
            let p = &self.rows[i];
            if p.status == Status::Open && p.who == who && p.what.covers(sim, job) {
                return true;
            }
        }
        false
    }

    /// **Every posting a predicate picks**, by id, oldest first.
    pub fn ids_where(&self, wanted: impl Fn(&Posting) -> bool) -> (ids: Vec<usize>)
        requires
            forall|p: &Posting| #[trigger] wanted.requires((p,)),
        ensures
            ids@.len() <= self@.len(),
            forall|i: int| 0 <= i < self@.len() && (forall|b: bool| wanted.ensures((&self@[i],), b) ==> b)
                ==> ids@.contains(#[trigger] self@[i].id),
            self.wf() ==> forall|k: int| 0 <= k < ids@.len() ==> {
                &&& (#[trigger] ids@[k]) < self@.len()
                &&& wanted.ensures((&self@[ids@[k] as int],), true)
            },
            self.wf() ==> forall|a: int, b: int| 0 <= a < b < ids@.len() ==> ids@[a] < ids@[b],
            picked_rows(self@, ids@, |p: &Posting| wanted.ensures((p,), true)),
    {
        let mut out: Vec<usize> = Vec::new();
        let ghost mut src: Seq<int> = Seq::empty();
        let n = self.rows.len();
        for i in 0..n
            invariant
                n == self@.len(),
                forall|p: &Posting| #[trigger] wanted.requires((p,)),
                out@.len() <= i,
                src.len() == out@.len(),
                forall|k: int| 0 <= k < out@.len() ==> 0 <= #[trigger] src[k] < i && out@[k] == self@[src[k]].id
                    && wanted.ensures((&self@[src[k]],), true),
                forall|j: int| 0 <= j < i && (forall|b: bool| wanted.ensures((&self@[j],), b) ==> b)
                    ==> out@.contains(#[trigger] self@[j].id),
                forall|a: int, b: int| 0 <= a < b < src.len() ==> src[a] < src[b],
        {
            let p = &self.rows[i];
            let keep = wanted(p);
            let ghost out0 = out@;
            if keep {
                out.push(p.id);
                proof { src = src.push(i as int); }
            }
            assert forall|j: int| 0 <= j < i + 1 && (forall|b: bool| wanted.ensures((&self@[j],), b) ==> b)
                implies out@.contains(#[trigger] self@[j].id) by {
                if j == i {
                    assert(wanted.ensures((&self@[j],), keep));
                    assert(out@[out@.len() - 1] == self@[i as int].id);
                } else {
                    assert(out0.contains(self@[j].id));
                    let k = choose|k: int| 0 <= k < out0.len() && out0[k] == self@[j].id;
                    assert(out@[k] == self@[j].id);
                }
            }
        }
        proof {
            assert(picked_by(self@, out@, |p: &Posting| wanted.ensures((p,), true), src));
            if self.wf() {
                assert forall|k: int| 0 <= k < out@.len() implies {
                    &&& (#[trigger] out@[k]) < self@.len()
                    &&& wanted.ensures((&self@[out@[k] as int],), true)
                } by {
                    assert(self@[src[k]].id == src[k]);
                    assert(out@[k] == src[k]);
                }
                assert forall|a: int, b: int| 0 <= a < b < out@.len() implies out@[a] < out@[b] by {
                    assert(src[a] < src[b]);
                    assert(self@[src[a]].id == src[a]);
                    assert(self@[src[b]].id == src[b]);
                }
            }
        }
        out
    }
}

/// What one posting does to a world: with the asks module off, nothing;
/// with it on, one more row on the ledger at the end, made as offered and
/// against the standing rate, said first in the feed, heard at once by an
/// addressee standing idle at home — and no purse, rate or treasury touched.
pub open spec fn posted(before: Sim, after: Sim, tuning: Tuning, now: u64, offer: Offer, id: Option<usize>) -> bool {
    if !before.modules.spec_enabled(MODULE) {
        id is None && after == before
    } else {
        let made = after.postings@[before.postings@.len() as int];
        &&& id == Some(before.postings@.len() as usize)
        &&& after.postings@.len() == before.postings@.len() + 1
        &&& made.id == before.postings@.len()
        &&& made.who == offer.who
        &&& made.what == offer.what
        &&& made.until == offer.until
        &&& made.wage == offer.wage
        &&& made.rate_at_posting == rate_for_of(before, offer.what)
        &&& made.made_at == now
        &&& terms_kept(before.postings@, after.postings@.take(before.postings@.len() as int))
        &&& crate::autonomy::same_people_and_money(after, before)
        &&& crate::autonomy::events_kept(before.events@, after.events@)
        &&& after.events@.len() > before.events@.len()
        &&& after.events@[before.events@.len() as int].class == EventClass::PostingMade
        &&& offer.who matches Who::Person(index) ==> (before.spec_is_idle(index) ==> made.spec_heard_by(index) == Some(now))
        &&& exists|ledgered: Sim| #![trigger ledgered.postings@.last(), ledgered.events@.last()] {
            let row = ledgered.postings@.last();
            &&& same_but_ledger_feed(ledgered, before)
            &&& ledgered.postings@.drop_last() == before.postings@
            &&& ledgered.postings@.len() == before.postings@.len() + 1
            &&& row.id == before.postings@.len() && row.who == offer.who && row.what == offer.what
            &&& row.until == offer.until && row.wage == offer.wage && row.rate_at_posting == rate_for_of(before, offer.what)
            &&& row.made_at == now && row.heard@.len() == 0 && row.answered@.len() == 0 && row.status == Status::Open
            &&& ledgered.events@.drop_last() == before.events@
            &&& ledgered.events@.len() == before.events@.len() + 1
            &&& ledgered.events@.last().class == EventClass::PostingMade
            &&& ledgered.events@.last().party == PLAYER
            &&& match offer.who {
                Who::Person(index) => heard_and_weighed(ledgered, after, tuning, now, index, row.id),
                Who::Anyone => after == ledgered,
            }
        }
    }
}

/// **Make a posting** — the player's whole verb. The record keeps the standing
/// rate it was made against; hearing follows at once for somebody in camp.
pub fn post(sim: &mut Sim, tuning: &Tuning, now: u64, offer: Offer) -> (id: Option<usize>)
    requires
        old(sim).wf(),
        tuning.wf(),
        -GOLD_BOUND <= offer.wage <= GOLD_BOUND,
    ensures
        final(sim).wf(),
        posted(*old(sim), *final(sim), *tuning, now, offer, id),
{
    if !sim.modules.enabled(MODULE) {
        return None;
    }
    let rate = rate_for(sim, offer.what);
    let id = sim.postings.len();
    let posting = Posting {
        id,
        who: offer.who,
        what: offer.what,
        until: offer.until,
        wage: offer.wage,
        rate_at_posting: rate,
        made_at: now,
        heard: Vec::new(),
        answered: Vec::new(),
        status: Status::Open,
    };
    let line = posting.line(&Lens::on(sim));
    sim.postings.push(posting);
    proof { reveal_strlit("posted: "); }
    let mut note = String::from_str("posted: ");
    note.append(line.as_str());
    let ghost e0 = sim.events@.len();
    sim.emit(now, EventClass::PostingMade, PLAYER, Tile::new(crate::sim::TOWN_X, crate::sim::TOWN_Y), note);
    let ghost mid = *sim;
    proof {
        assert(mid.postings@.drop_last() =~= old(sim).postings@);
        assert(mid.postings@.last().heard@.len() == 0);
    }
    match offer.who {
        Who::Person(index) => {
            hear(sim, tuning, now, index, id);
        },
        Who::Anyone => {},
    }
    proof {
        assert(crate::autonomy::events_kept(old(sim).events@, mid.events@)) by {
            assert(mid.events@.take(old(sim).events@.len() as int) =~= old(sim).events@);
        }
        if offer.who is Anyone {
            assert(sim.events@.take(mid.events@.len() as int) =~= mid.events@);
        }
        crate::autonomy::lemma_events_kept(old(sim).events@, mid.events@, sim.events@);
        assert(sim.events@[e0 as int] == mid.events@[e0 as int]) by {
            if offer.who is Person {
                assert(sim.events@[e0 as int] == sim.events@.take(mid.events@.len() as int)[e0 as int]);
            }
        }
        assert(sim.postings@.take(old(sim).postings@.len() as int).len() == old(sim).postings@.len());
    }
    Some(id)
}

/// **Withdraw a posting** — instant on the ledger, so a posting taken down
/// before it was heard is one nobody ever answers.
pub fn withdraw(sim: &mut Sim, now: u64, id: usize)
    requires
        old(sim).wf(),
    ensures
        final(sim).wf(),
        !(old(sim).modules.spec_enabled(MODULE) && id < old(sim).postings@.len()
            && old(sim).postings@[id as int].status == Status::Open) ==> *final(sim) == *old(sim),
        (old(sim).modules.spec_enabled(MODULE) && id < old(sim).postings@.len()
            && old(sim).postings@[id as int].status == Status::Open) ==> {
            &&& same_but_ledger_feed(*final(sim), *old(sim))
            &&& final(sim).postings@.len() == old(sim).postings@.len()
            &&& forall|i: int| 0 <= i < old(sim).postings@.len() && i != id ==> #[trigger] final(sim).postings@[i] == old(sim).postings@[i]
            &&& final(sim).postings@[id as int].status == Status::Withdrawn
            &&& final(sim).postings@[id as int].id == old(sim).postings@[id as int].id
            &&& final(sim).postings@[id as int].who == old(sim).postings@[id as int].who
            &&& final(sim).postings@[id as int].what == old(sim).postings@[id as int].what
            &&& final(sim).postings@[id as int].until == old(sim).postings@[id as int].until
            &&& final(sim).postings@[id as int].wage == old(sim).postings@[id as int].wage
            &&& final(sim).postings@[id as int].rate_at_posting == old(sim).postings@[id as int].rate_at_posting
            &&& final(sim).postings@[id as int].made_at == old(sim).postings@[id as int].made_at
            &&& final(sim).postings@[id as int].heard == old(sim).postings@[id as int].heard
            &&& final(sim).postings@[id as int].answered == old(sim).postings@[id as int].answered
            &&& final(sim).events@.len() == old(sim).events@.len() + 1
            &&& final(sim).events@.drop_last() == old(sim).events@
            &&& final(sim).events@.last().class == EventClass::PostingWithdrawn
        },
{
    if !sim.modules.enabled(MODULE) {
        return;
    }
    match sim.postings.get(id) {
        Some(p) => {
            if p.status != Status::Open {
                return;
            }
        },
        None => return,
    }
    sim.postings.set_status(id, Status::Withdrawn);
    let line = match sim.postings.get(id) {
        Some(p) => p.terms_line(&Lens::on(sim)),
        None => return,
    };
    proof { reveal_strlit("withdrew: "); }
    let mut note = String::from_str("withdrew: ");
    note.append(line.as_str());
    sim.emit(now, EventClass::PostingWithdrawn, PLAYER, Tile::new(crate::sim::TOWN_X, crate::sim::TOWN_Y), note);
}

} // verus!

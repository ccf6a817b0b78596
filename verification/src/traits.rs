//! The trait vocabulary and the arithmetic every scorer term reads off it.
//!
//! Every number a trait contributes is a field of its row; a row that does
//! not own a field holds the neutral value, so a sum over rows never has to
//! ask which trait it is looking at.

use vstd::prelude::*;

verus! {

/// The most rows one sheet may carry; it bounds every product over rows.
pub const MAX_CARRIED: usize = 8;

/// A kind of work.
#[derive(Clone, Copy, Debug, PartialEq, Eq, Structural)]
pub enum TaskType {
    Fight,
    Labor,
    Scout,
    Craft,
}

impl TaskType {
    /// The id a stamp and a line spell the task by.
    pub fn id(self) -> (s: &'static str)
        ensures
            s@ == task_id(self),
    {
        match self {
            TaskType::Fight => "fight",
            TaskType::Labor => "labor",
            TaskType::Scout => "scout",
            TaskType::Craft => "craft",
        }
    }

    /// The aptitude a character needs for this kind of work.
    pub fn aptitude(self) -> (t: TraitId)
        ensures
            t == aptitude_row(self),
    {
        match self {
            TaskType::Fight => TraitId::Fight,
            TaskType::Labor => TraitId::Labor,
            TaskType::Scout => TraitId::Scout,
            TaskType::Craft => TraitId::Craft,
        }
    }
}

/// The spelling of a task's id.
pub open spec fn task_id(t: TaskType) -> Seq<char> {
    match t {
        TaskType::Fight => "fight"@,
        TaskType::Labor => "labor"@,
        TaskType::Scout => "scout"@,
        TaskType::Craft => "craft"@,
    }
}

/// The aptitude row named after a task.
pub open spec fn aptitude_row(t: TaskType) -> TraitId {
    match t {
        TaskType::Fight => TraitId::Fight,
        TaskType::Labor => TraitId::Labor,
        TaskType::Scout => TraitId::Scout,
        TaskType::Craft => TraitId::Craft,
    }
}

/// One row of the vocabulary.
#[derive(Clone, Copy, Debug, PartialEq, Eq, Structural)]
pub enum TraitId {
    Fight,
    Labor,
    Scout,
    Craft,
    Greedy,
    Indebted,
    Caring,
    Renown,
    Maker,
    Loyal,
    Cold,
    Restless,
    Proud,
    Vengeful,
    Craven,
    Pious,
    Pragmatic,
    Upright,
}

/// Which work a want favours.
#[derive(Clone, Copy, Debug, PartialEq, Eq, Structural)]
pub enum Favors {
    /// No work at all.
    Nothing,
    /// Any paid work.
    AnyWork,
    /// Work of one kind.
    Only(TaskType),
}

/// Whether a `favors` field covers a task.
pub open spec fn favors_covers(f: Favors, task: TaskType) -> bool {
    match f {
        Favors::Nothing => false,
        Favors::AnyWork => true,
        Favors::Only(t) => t == task,
    }
}

/// The name a sheet and a breakdown print for a row.
pub open spec fn trait_name(t: TraitId) -> Seq<char> {
    match t {
        TraitId::Fight => "fight"@,
        TraitId::Labor => "labor"@,
        TraitId::Scout => "scout"@,
        TraitId::Craft => "craft"@,
        TraitId::Greedy => "greedy"@,
        TraitId::Indebted => "indebted"@,
        TraitId::Caring => "caring"@,
        TraitId::Renown => "renown"@,
        TraitId::Maker => "maker"@,
        TraitId::Loyal => "loyal"@,
        TraitId::Cold => "cold"@,
        TraitId::Restless => "restless"@,
        TraitId::Proud => "proud"@,
        TraitId::Vengeful => "vengeful"@,
        TraitId::Craven => "craven"@,
        TraitId::Pious => "pious"@,
        TraitId::Pragmatic => "pragmatic"@,
        TraitId::Upright => "upright"@,
    }
}

/// How hard a want pulls toward the work it favours.
pub open spec fn pressure(t: TraitId) -> int {
    match t {
        TraitId::Indebted => 3,
        TraitId::Renown => 2,
        TraitId::Maker => 2,
        TraitId::Restless => 2,
        _ => 0,
    }
}

/// Which work a row's want favours.
pub open spec fn favors(t: TraitId) -> Favors {
    match t {
        TraitId::Indebted => Favors::AnyWork,
        TraitId::Renown => Favors::Only(TaskType::Fight),
        TraitId::Maker => Favors::Only(TaskType::Craft),
        TraitId::Restless => Favors::Only(TaskType::Scout),
        _ => Favors::Nothing,
    }
}

/// The aptitude a row gives for a task: an aptitude row is worth two at the
/// work that carries its id.
pub open spec fn aptitude_of(t: TraitId, task: TaskType) -> int {
    if t == aptitude_row(task) { 2 } else { 0 }
}

/// How strongly a row feels a pot.
pub open spec fn pot_affinity(t: TraitId) -> int {
    match t {
        TraitId::Greedy => 1,
        _ => 0,
    }
}

/// The multiplier a row puts on warm regard, as (numerator, denominator).
pub open spec fn bond_mult(t: TraitId) -> (int, int) {
    match t {
        TraitId::Loyal => (2, 1),
        TraitId::Cold => (1, 2),
        _ => (1, 1),
    }
}

/// The multiplier a row puts on cold regard, as (numerator, denominator).
pub open spec fn grudge_mult(t: TraitId) -> (int, int) {
    match t {
        TraitId::Vengeful => (2, 1),
        _ => (1, 1),
    }
}

/// The multiplier a row puts on upkeep, as (numerator, denominator).
pub open spec fn upkeep_mult(t: TraitId) -> (int, int) {
    match t {
        TraitId::Caring => (3, 2),
        TraitId::Indebted => (5, 4),
        TraitId::Maker => (5, 4),
        _ => (1, 1),
    }
}

/// The sum of a want's pressure over every row whose favours cover `task`.
pub open spec fn pressure_sum(task: TaskType, s: Seq<TraitId>) -> int
    decreases s.len(),
{
    if s.len() == 0 {
        0
    } else {
        pressure_sum(task, s.drop_last()) + (if favors_covers(favors(s.last()), task) {
            pressure(s.last())
        } else {
            0
        })
    }
}

/// The aptitude sum for a task.
pub open spec fn competence_sum(task: TaskType, s: Seq<TraitId>) -> int
    decreases s.len(),
{
    if s.len() == 0 {
        0
    } else {
        competence_sum(task, s.drop_last()) + aptitude_of(s.last(), task)
    }
}

/// The pot affinity sum.
pub open spec fn pot_pull_sum(s: Seq<TraitId>) -> int
    decreases s.len(),
{
    if s.len() == 0 {
        0
    } else {
        pot_pull_sum(s.drop_last()) + pot_affinity(s.last())
    }
}

/// Scale `v` by a multiplier, rounding toward zero as integer division in
/// code does.
pub open spec fn scale(v: int, m: (int, int)) -> int {
    let p = v * m.0;
    if p >= 0 { p / m.1 } else { -((-p) / m.1) }
}

/// Regard as its holder feels it: warm regard through every bond multiplier,
/// cold regard through every grudge multiplier, row by row in sheet order.
pub open spec fn weighted(raw: int, s: Seq<TraitId>) -> int
    decreases s.len(),
{
    if s.len() == 0 {
        raw
    } else {
        let m = if raw >= 0 { bond_mult(s.last()) } else { grudge_mult(s.last()) };
        scale(weighted(raw, s.drop_last()), m)
    }
}

/// Upkeep as its carrier pays it: the base through every upkeep multiplier.
pub open spec fn upkeep(base: int, s: Seq<TraitId>) -> int
    decreases s.len(),
{
    if s.len() == 0 {
        base
    } else {
        scale(upkeep(base, s.drop_last()), upkeep_mult(s.last()))
    }
}

/// The rows of a sheet that satisfy `keep`, in sheet order.
pub open spec fn rows_where(s: Seq<TraitId>, keep: spec_fn(TraitId) -> bool) -> Seq<TraitId>
    decreases s.len(),
{
    if s.len() == 0 {
        Seq::empty()
    } else {
        rows_where(s.drop_last(), keep) + if keep(s.last()) { seq![s.last()] } else { Seq::empty() }
    }
}

/// Whether a row holds a want toward `task`.
pub open spec fn wants_task(task: TaskType) -> spec_fn(TraitId) -> bool {
    |t: TraitId| pressure(t) != 0 && favors_covers(favors(t), task)
}

/// Whether a row holds any want at all.
pub open spec fn wants_anything() -> spec_fn(TraitId) -> bool {
    |t: TraitId| pressure(t) != 0
}

/// Whether a row feels a pot.
pub open spec fn feels_pot() -> spec_fn(TraitId) -> bool {
    |t: TraitId| pot_affinity(t) != 0
}

/// Whether a row moves a regard of this sign.
pub open spec fn moves_regard(raw: int) -> spec_fn(TraitId) -> bool {
    |t: TraitId| if raw >= 0 { bond_mult(t) != (1int, 1int) } else { grudge_mult(t) != (1int, 1int) }
}

/// The names of some rows, joined by " and ".
pub open spec fn rows_phrase(rows: Seq<TraitId>) -> Seq<char>
    decreases rows.len(),
{
    if rows.len() == 0 {
        Seq::empty()
    } else if rows.len() == 1 {
        trait_name(rows[0])
    } else {
        rows_phrase(rows.drop_last()) + " and "@ + trait_name(rows.last())
    }
}

/// `b` doubled `n` times.
pub open spec fn doubled(b: int, n: nat) -> int
    decreases n,
{
    if n == 0 { b } else { 2 * doubled(b, (n - 1) as nat) }
}

proof fn lemma_doubled_mono(b: int, m: nat, n: nat)
    requires
        0 <= b,
        m <= n,
    ensures
        0 <= doubled(b, m) <= doubled(b, n),
    decreases n,
{
    if n > m {
        lemma_doubled_mono(b, m, (n - 1) as nat);
    } else {
        lemma_doubled_nonneg(b, n);
    }
}

proof fn lemma_doubled_nonneg(b: int, n: nat)
    requires
        0 <= b,
    ensures
        0 <= doubled(b, n),
    decreases n,
{
    if n > 0 {
        lemma_doubled_nonneg(b, (n - 1) as nat);
    }
}

proof fn lemma_doubled_eight(b: int)
    ensures
        doubled(b, 8) == 256 * b,
{
    reveal_with_fuel(doubled, 9);
}

/// Scaling by any multiplier in the vocabulary at most doubles a magnitude.
proof fn lemma_scale_bound(v: int, m: (int, int), b: int)
    requires
        -b <= v <= b,
        1 <= m.1,
        0 <= m.0 <= 2 * m.1,
    ensures
        -2 * b <= scale(v, m) <= 2 * b,
{
    let p = v * m.0;
    if v >= 0 {
        assert(0 <= p <= v * (2 * m.1)) by (nonlinear_arith)
            requires p == v * m.0, 0 <= m.0 <= 2 * m.1, v >= 0;
        assert(p / m.1 <= 2 * v) by (nonlinear_arith)
            requires 0 <= p <= v * (2 * m.1), 1 <= m.1;
        assert(p / m.1 >= 0) by (nonlinear_arith)
            requires 0 <= p, 1 <= m.1;
    } else {
        assert(0 <= -p <= (-v) * (2 * m.1)) by (nonlinear_arith)
            requires p == v * m.0, 0 <= m.0 <= 2 * m.1, v < 0;
        assert((-p) / m.1 <= 2 * (-v)) by (nonlinear_arith)
            requires 0 <= -p <= (-v) * (2 * m.1), 1 <= m.1;
        assert((-p) / m.1 >= 0) by (nonlinear_arith)
            requires 0 <= -p, 1 <= m.1;
    }
}

/// Scaling by a multiplier in the vocabulary, as integer code computes it.
fn scale_exec(v: i64, num: i64, den: i64) -> (r: i64)
    requires
        -1_000_000_000 <= v <= 1_000_000_000,
        1 <= den <= 4,
        0 <= num <= 2 * den,
    ensures
        r == scale(v as int, (num as int, den as int)),
{
    assert(-8_000_000_000 <= v * num <= 8_000_000_000) by (nonlinear_arith)
        requires -1_000_000_000 <= v <= 1_000_000_000, 0 <= num <= 8;
    let p = v * num;
    if p >= 0 {
        p / den
    } else {
        -((-p) / den)
    }
}

impl TraitId {
    /// The name a sheet prints.
    pub fn name(self) -> (s: &'static str)
        ensures
            s@ == trait_name(self),
    {
        match self {
            TraitId::Fight => "fight",
            TraitId::Labor => "labor",
            TraitId::Scout => "scout",
            TraitId::Craft => "craft",
            TraitId::Greedy => "greedy",
            TraitId::Indebted => "indebted",
            TraitId::Caring => "caring",
            TraitId::Renown => "renown",
            TraitId::Maker => "maker",
            TraitId::Loyal => "loyal",
            TraitId::Cold => "cold",
            TraitId::Restless => "restless",
            TraitId::Proud => "proud",
            TraitId::Vengeful => "vengeful",
            TraitId::Craven => "craven",
            TraitId::Pious => "pious",
            TraitId::Pragmatic => "pragmatic",
            TraitId::Upright => "upright",
        }
    }

    /// The row's want pressure.
    pub fn pressure(self) -> (r: i64)
        ensures
            r == pressure(self),
    {
        match self {
            TraitId::Indebted => 3,
            TraitId::Renown => 2,
            TraitId::Maker => 2,
            TraitId::Restless => 2,
            _ => 0,
        }
    }

    /// Whether a want favours this kind of work.
    pub fn favors_task(self, task: TaskType) -> (r: bool)
        ensures
            r == favors_covers(favors(self), task),
    {
        match self {
            TraitId::Indebted => true,
            TraitId::Renown => task == TaskType::Fight,
            TraitId::Maker => task == TaskType::Craft,
            TraitId::Restless => task == TaskType::Scout,
            _ => false,
        }
    }

    /// The row's pot affinity.
    pub fn pot_affinity(self) -> (r: i64)
        ensures
            r == pot_affinity(self),
    {
        match self {
            TraitId::Greedy => 1,
            _ => 0,
        }
    }

    /// The row's bond multiplier.
    pub fn bond(self) -> (r: (i64, i64))
        ensures
            (r.0 as int, r.1 as int) == bond_mult(self),
    {
        match self {
            TraitId::Loyal => (2, 1),
            TraitId::Cold => (1, 2),
            _ => (1, 1),
        }
    }

    /// The row's grudge multiplier.
    pub fn grudge(self) -> (r: (i64, i64))
        ensures
            (r.0 as int, r.1 as int) == grudge_mult(self),
    {
        match self {
            TraitId::Vengeful => (2, 1),
            _ => (1, 1),
        }
    }

    /// The row's upkeep multiplier.
    pub fn upkeep(self) -> (r: (i64, i64))
        ensures
            (r.0 as int, r.1 as int) == upkeep_mult(self),
    {
        match self {
            TraitId::Caring => (3, 2),
            TraitId::Indebted => (5, 4),
            TraitId::Maker => (5, 4),
            _ => (1, 1),
        }
    }
}

/// **The pressure of every want that covers this work**, summed.
pub fn pressure_toward(task: TaskType, carried: &[TraitId]) -> (p: i64)
    requires
        carried@.len() <= MAX_CARRIED,
    ensures
        p == pressure_sum(task, carried@),
        0 <= p <= 3 * carried@.len(),
{
    let mut acc: i64 = 0;
    let n = carried.len();
    for i in 0..n
        invariant
            n == carried@.len(),
            n <= MAX_CARRIED,
            acc == pressure_sum(task, carried@.take(i as int)),
            0 <= acc <= 3 * i,
    {
        assert(carried@.take(i + 1).drop_last() =~= carried@.take(i as int));
        let t = carried[i];
        if t.favors_task(task) {
            acc = acc + t.pressure();
        }
    }
    assert(carried@.take(n as int) =~= carried@);
    acc
}

/// **The aptitude for a task**: the aptitude rows named after it.
pub fn competence_at(task: TaskType, carried: &[TraitId]) -> (c: i64)
    requires
        carried@.len() <= MAX_CARRIED,
    ensures
        c == competence_sum(task, carried@),
        0 <= c <= 2 * carried@.len(),
{
    let mut acc: i64 = 0;
    let n = carried.len();
    let apt = task.aptitude();
    for i in 0..n
        invariant
            n == carried@.len(),
            n <= MAX_CARRIED,
            apt == aptitude_row(task),
            acc == competence_sum(task, carried@.take(i as int)),
            0 <= acc <= 2 * i,
    {
        assert(carried@.take(i + 1).drop_last() =~= carried@.take(i as int));
        if carried[i] == apt {
            acc = acc + 2;
        }
    }
    assert(carried@.take(n as int) =~= carried@);
    acc
}

/// **How hard a pot pulls**, summed over the carrier's affinities.
pub fn pot_pull_of(carried: &[TraitId]) -> (p: i64)
    requires
        carried@.len() <= MAX_CARRIED,
    ensures
        p == pot_pull_sum(carried@),
        0 <= p <= carried@.len(),
{
    let mut acc: i64 = 0;
    let n = carried.len();
    for i in 0..n
        invariant
            n == carried@.len(),
            n <= MAX_CARRIED,
            acc == pot_pull_sum(carried@.take(i as int)),
            0 <= acc <= i,
    {
        assert(carried@.take(i + 1).drop_last() =~= carried@.take(i as int));
        acc = acc + carried[i].pot_affinity();
    }
    assert(carried@.take(n as int) =~= carried@);
    acc
}

/// **Regard as the holder feels it**: warm regard through every bond
/// multiplier they carry, cold regard through every grudge multiplier.
pub fn weighted_regard(raw: i64, carried: &[TraitId]) -> (w: i64)
    requires
        carried@.len() <= MAX_CARRIED,
        -1_000_000 <= raw <= 1_000_000,
    ensures
        w == weighted(raw as int, carried@),
        -256_000_000 <= w <= 256_000_000,
{
    let mut acc: i64 = raw;
    let n = carried.len();
    let ghost b: int = if raw >= 0 { raw as int } else { -raw };
    for i in 0..n
        invariant
            n == carried@.len(),
            n <= MAX_CARRIED,
            b == (if raw >= 0 { raw as int } else { -raw }),
            0 <= b <= 1_000_000,
            acc == weighted(raw as int, carried@.take(i as int)),
            -doubled(b, i as nat) <= acc <= doubled(b, i as nat),
    {
        proof {
            assert(carried@.take(i + 1).drop_last() =~= carried@.take(i as int));
            lemma_doubled_mono(b, i as nat, 8);
            lemma_doubled_eight(b);
        }
        let m = if raw >= 0 { carried[i].bond() } else { carried[i].grudge() };
        proof {
            lemma_scale_bound(acc as int, (m.0 as int, m.1 as int), doubled(b, i as nat));
        }
        acc = scale_exec(acc, m.0, m.1);
    }
    proof {
        assert(carried@.take(n as int) =~= carried@);
        lemma_doubled_mono(b, n as nat, 8);
        lemma_doubled_eight(b);
    }
    acc
}

/// **What a carrier's upkeep comes to**: the base through every upkeep
/// multiplier they carry.
pub fn upkeep_of(base: i64, carried: &[TraitId]) -> (u: i64)
    requires
        carried@.len() <= MAX_CARRIED,
        -1_000_000 <= base <= 1_000_000,
    ensures
        u == upkeep(base as int, carried@),
        -256_000_000 <= u <= 256_000_000,
{
    let mut acc: i64 = base;
    let n = carried.len();
    let ghost b: int = if base >= 0 { base as int } else { -base };
    for i in 0..n
        invariant
            n == carried@.len(),
            n <= MAX_CARRIED,
            b == (if base >= 0 { base as int } else { -base }),
            0 <= b <= 1_000_000,
            acc == upkeep(base as int, carried@.take(i as int)),
            -doubled(b, i as nat) <= acc <= doubled(b, i as nat),
    {
        proof {
            assert(carried@.take(i + 1).drop_last() =~= carried@.take(i as int));
            lemma_doubled_mono(b, i as nat, 8);
            lemma_doubled_eight(b);
        }
        let m = carried[i].upkeep();
        proof {
            lemma_scale_bound(acc as int, (m.0 as int, m.1 as int), doubled(b, i as nat));
        }
        acc = scale_exec(acc, m.0, m.1);
    }
    proof {
        assert(carried@.take(n as int) =~= carried@);
        lemma_doubled_mono(b, n as nat, 8);
        lemma_doubled_eight(b);
    }
    acc
}


/// **The rows that want this work**, in sheet order.
pub fn wanting(task: TaskType, carried: &[TraitId]) -> (rows: Vec<TraitId>)
    ensures
        rows@ == rows_where(carried@, wants_task(task)),
{
    let mut out: Vec<TraitId> = Vec::new();
    let n = carried.len();
    for i in 0..n
        invariant
            n == carried@.len(),
            out@ == rows_where(carried@.take(i as int), wants_task(task)),
    {
        assert(carried@.take(i + 1).drop_last() =~= carried@.take(i as int));
        let t = carried[i];
        if t.pressure() != 0 && t.favors_task(task) {
            out.push(t);
        }
        assert(out@ =~= rows_where(carried@.take(i + 1), wants_task(task)));
    }
    assert(carried@.take(n as int) =~= carried@);
    out
}

/// **The rows that hold any want**, in sheet order.
pub fn wanting_anything(carried: &[TraitId]) -> (rows: Vec<TraitId>)
    ensures
        rows@ == rows_where(carried@, wants_anything()),
{
    let mut out: Vec<TraitId> = Vec::new();
    let n = carried.len();
    for i in 0..n
        invariant
            n == carried@.len(),
            out@ == rows_where(carried@.take(i as int), wants_anything()),
    {
        assert(carried@.take(i + 1).drop_last() =~= carried@.take(i as int));
        let t = carried[i];
        if t.pressure() != 0 {
            out.push(t);
        }
        assert(out@ =~= rows_where(carried@.take(i + 1), wants_anything()));
    }
    assert(carried@.take(n as int) =~= carried@);
    out
}

/// **The rows a pot pulls on**, in sheet order.
pub fn drawn_by_a_pot(carried: &[TraitId]) -> (rows: Vec<TraitId>)
    ensures
        rows@ == rows_where(carried@, feels_pot()),
{
    let mut out: Vec<TraitId> = Vec::new();
    let n = carried.len();
    for i in 0..n
        invariant
            n == carried@.len(),
            out@ == rows_where(carried@.take(i as int), feels_pot()),
    {
        assert(carried@.take(i + 1).drop_last() =~= carried@.take(i as int));
        let t = carried[i];
        if t.pot_affinity() != 0 {
            out.push(t);
        }
        assert(out@ =~= rows_where(carried@.take(i + 1), feels_pot()));
    }
    assert(carried@.take(n as int) =~= carried@);
    out
}

/// **The rows that weigh a regard of this sign**: those whose multiplier on
/// that side is not the neutral one.
pub fn weighing_regard(raw: i64, carried: &[TraitId]) -> (rows: Vec<TraitId>)
    ensures
        rows@ == rows_where(carried@, moves_regard(raw as int)),
{
    let mut out: Vec<TraitId> = Vec::new();
    let n = carried.len();
    for i in 0..n
        invariant
            n == carried@.len(),
            out@ == rows_where(carried@.take(i as int), moves_regard(raw as int)),
    {
        assert(carried@.take(i + 1).drop_last() =~= carried@.take(i as int));
        let t = carried[i];
        let m = if raw >= 0 { t.bond() } else { t.grudge() };
        if !(m.0 == 1 && m.1 == 1) {
            out.push(t);
        }
        assert(out@ =~= rows_where(carried@.take(i + 1), moves_regard(raw as int)));
    }
    assert(carried@.take(n as int) =~= carried@);
    out
}

/// **The names of some rows**, joined by " and ".
pub fn phrase_of(rows: &[TraitId]) -> (s: String)
    ensures
        s@ == rows_phrase(rows@),
{
    proof { reveal_strlit(""); reveal_strlit(" and "); }
    let mut out = String::from_str("");
    let n = rows.len();
    for i in 0..n
        invariant
            n == rows@.len(),
            out@ == rows_phrase(rows@.take(i as int)),
    {
        assert(rows@.take(i + 1).drop_last() =~= rows@.take(i as int));
        if i > 0 {
            out.append(" and ");
        } else {
            assert(rows@.take(1) =~= seq![rows@[0]]);
        }
        out.append(rows[i].name());
        assert(out@ =~= rows_phrase(rows@.take(i + 1)));
    }
    assert(rows@.take(n as int) =~= rows@);
    out
}

} // verus!

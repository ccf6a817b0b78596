//! **Attention**: what each class of occurrence does to the player's
//! attention, and the feed that follows from it.
//!
//! Three modes per class — ignore, log, or stop the world — held as sim state
//! because a change to them is a recorded input. The feed is derived on every
//! call: newest first, filtered by the modes, bounded by a cap, and made of
//! indices into the event log, so nothing in it can be stale.

use vstd::prelude::*;
use crate::lens::Lens;
use crate::sim::{Event, EventClass, Sim};
use crate::constants::Tuning;
use crate::text::{int_digits, push_i64};

verus! {

/// What a class of event does to the player's attention.
#[derive(Clone, Copy, Debug, PartialEq, Eq, Structural)]
pub enum Mode {
    /// Not even in the feed: the map already shows it.
    Ignore,
    /// It lands in the feed and the world keeps running.
    Log,
    /// The world stops, and the feed says why.
    PauseAndFocus,
}

impl Mode {
    /// **The name** a stamp, a report and the config panel use.
    pub fn name(self) -> (s: &'static str)
        ensures
            s@ == mode_name(self),
    {
        proof {
            reveal_strlit("ignore");
            reveal_strlit("log");
            reveal_strlit("pause");
        }
        match self {
            Mode::Ignore => "ignore",
            Mode::Log => "log",
            Mode::PauseAndFocus => "pause",
        }
    }

    /// **What it does**, in one line — the config panel's own hint.
    pub fn meaning(self) -> (s: &'static str)
        ensures
            s@ == mode_meaning(self),
    {
        proof {
            reveal_strlit("not even in the feed");
            reveal_strlit("it lands in the feed");
            reveal_strlit("the world stops for it");
        }
        match self {
            Mode::Ignore => "not even in the feed",
            Mode::Log => "it lands in the feed",
            Mode::PauseAndFocus => "the world stops for it",
        }
    }
}

/// A mode's name.
pub open spec fn mode_name(m: Mode) -> Seq<char> {
    match m {
        Mode::Ignore => "ignore"@,
        Mode::Log => "log"@,
        Mode::PauseAndFocus => "pause"@,
    }
}

/// A mode's one-line meaning.
pub open spec fn mode_meaning(m: Mode) -> Seq<char> {
    match m {
        Mode::Ignore => "not even in the feed"@,
        Mode::Log => "it lands in the feed"@,
        Mode::PauseAndFocus => "the world stops for it"@,
    }
}

/// One row of the event-class table: what a class is called and what it
/// does to the world by default.
#[derive(Clone, Copy, Debug)]
pub struct ClassSpec {
    /// Which class this row defines.
    pub class: EventClass,
    /// The id a transcript, a stamp and the config panel name it by.
    pub id: &'static str,
    /// What it does to the world before the player says otherwise.
    pub default_mode: Mode,
}

/// How many rows the event-class table has.
pub const CLASS_COUNT: usize = 5;

/// **The event-class table**: movement is ignored because the map already
/// shows it, and a completion is logged because it is worth knowing and
/// not worth stopping for.
pub open spec fn classes_table() -> Seq<ClassSpec> {
    seq![
        ClassSpec { class: EventClass::Departed, id: "departed", default_mode: Mode::Ignore },
        ClassSpec { class: EventClass::Arrived, id: "arrived", default_mode: Mode::Ignore },
        ClassSpec { class: EventClass::WorkBegan, id: "work-began", default_mode: Mode::Ignore },
        ClassSpec { class: EventClass::QuestComplete, id: "quest-complete", default_mode: Mode::Log },
        ClassSpec { class: EventClass::Returned, id: "returned", default_mode: Mode::Ignore },
    ]
}

/// One row of the event-class table.
pub fn class_row(index: usize) -> (row: ClassSpec)
    requires
        index < CLASS_COUNT,
    ensures
        row == classes_table()[index as int],
{
    if index == 0 {
        ClassSpec { class: EventClass::Departed, id: "departed", default_mode: Mode::Ignore }
    } else if index == 1 {
        ClassSpec { class: EventClass::Arrived, id: "arrived", default_mode: Mode::Ignore }
    } else if index == 2 {
        ClassSpec { class: EventClass::WorkBegan, id: "work-began", default_mode: Mode::Ignore }
    } else if index == 3 {
        ClassSpec { class: EventClass::QuestComplete, id: "quest-complete", default_mode: Mode::Log }
    } else {
        ClassSpec { class: EventClass::Returned, id: "returned", default_mode: Mode::Ignore }
    }
}

/// A class's row in the table: the first row that defines it, or the first
/// row for a class the table has no row for.
pub open spec fn class_index(c: EventClass) -> int {
    match c {
        EventClass::Departed => 0,
        EventClass::Arrived => 1,
        EventClass::WorkBegan => 2,
        EventClass::QuestComplete => 3,
        EventClass::Returned => 4,
        _ => 0,
    }
}

impl EventClass {
    /// **Every class in the table**, in table order — what the config panel lists.
    pub fn all() -> (v: Vec<EventClass>)
        ensures
            v@.len() == CLASS_COUNT,
            forall|i: int| 0 <= i < CLASS_COUNT ==> #[trigger] v@[i] == classes_table()[i].class,
    {
        let mut v: Vec<EventClass> = Vec::new();
        for i in 0..CLASS_COUNT
            invariant
                v@.len() == i,
                forall|j: int| 0 <= j < i ==> #[trigger] v@[j] == classes_table()[j].class,
        {
            v.push(class_row(i).class);
        }
        v
    }

    /// **Its index in the table** — what the attention config stores modes
    /// by. A class with no row reads as the first row.
    pub fn index(self) -> (i: usize)
        ensures
            i == class_index(self),
            i < CLASS_COUNT,
    {
        let mut i: usize = 0;
        while i < CLASS_COUNT
            invariant
                i <= CLASS_COUNT,
                forall|j: int| 0 <= j < i ==> classes_table()[j].class != self,
            decreases CLASS_COUNT - i,
        {
            if class_row(i).class == self {
                return i;
            }
            i = i + 1;
        }
        assert(classes_table()[0].class == EventClass::Departed);
        assert(classes_table()[1].class == EventClass::Arrived);
        assert(classes_table()[2].class == EventClass::WorkBegan);
        assert(classes_table()[3].class == EventClass::QuestComplete);
        assert(classes_table()[4].class == EventClass::Returned);
        0
    }

    /// **This class's row.**
    pub fn spec(self) -> (row: ClassSpec)
        ensures
            row == classes_table()[class_index(self)],
    {
        class_row(self.index())
    }

    /// **The class's name**, for transcripts, the feed and the config panel.
    pub fn name(self) -> (s: &'static str)
        ensures
            s == classes_table()[class_index(self)].id,
    {
        self.spec().id
    }
}

/// What each class currently does to the world, one mode per row of the
/// table, in table order.
#[derive(Debug, PartialEq, Eq)]
pub struct Attention {
    modes: Vec<Mode>,
}

impl View for Attention {
    type V = Seq<Mode>;

    closed spec fn view(&self) -> Seq<Mode> {
        self.modes@
    }
}

/// The table's own defaults, in table order.
pub open spec fn default_modes() -> Seq<Mode> {
    seq![Mode::Ignore, Mode::Ignore, Mode::Ignore, Mode::Log, Mode::Ignore]
}

/// The stamp spelling of a config.
pub open spec fn attention_stamp(modes: Seq<Mode>) -> Seq<char> {
    "attention:departed="@ + mode_name(modes[0]) + ",arrived="@ + mode_name(modes[1]) + ",work-began="@
        + mode_name(modes[2]) + ",quest-complete="@ + mode_name(modes[3]) + ",returned="@ + mode_name(modes[4])
}

impl Attention {
    #[verifier::type_invariant]
    closed spec fn inv(self) -> bool {
        self.modes@.len() == CLASS_COUNT
    }

    /// **The table's own defaults** — what a scenario opens on.
    pub fn opening() -> (a: Attention)
        ensures
            a@ == default_modes(),
    {
        let modes: Vec<Mode> = vec![Mode::Ignore, Mode::Ignore, Mode::Ignore, Mode::Log, Mode::Ignore];
        assert(modes@ =~= default_modes());
        Attention { modes }
    }

    /// **What this class does right now.**
    pub fn mode(&self, class: EventClass) -> (m: Mode)
        ensures
            m == self@[class_index(class)],
    {
        proof { use_type_invariant(self); }
        self.modes[class.index()]
    }

    /// **Set what a class does** — the one write, so nothing can invent a
    /// fourth mode or a class the table does not have.
    pub fn set(&mut self, class: EventClass, mode: Mode)
        ensures
            final(self)@ == old(self)@.update(class_index(class), mode),
    {
        proof { use_type_invariant(&*self); }
        let slot = class.index();
        let mut next: Vec<Mode> = Vec::new();
        for i in 0..CLASS_COUNT
            invariant
                next@.len() == i,
                self.modes@.len() == CLASS_COUNT,
                slot < CLASS_COUNT,
                forall|j: int| 0 <= j < i ==> #[trigger] next@[j] == if j == slot { mode } else { self.modes@[j] },
        {
            if i == slot {
                next.push(mode);
            } else {
                next.push(self.modes[i]);
            }
        }
        assert(next@ =~= self.modes@.update(slot as int, mode));
        assert(next@.len() == CLASS_COUNT);
        *self = Attention { modes: next };
    }

    /// **The config as a stamp carries it**: `attention:departed=ignore,...`.
    pub fn stamp(&self) -> (s: String)
        ensures
            s@ == attention_stamp(self@),
    {
        proof {
            use_type_invariant(self);
            reveal_strlit("attention:departed=");
            reveal_strlit(",arrived=");
            reveal_strlit(",work-began=");
            reveal_strlit(",quest-complete=");
            reveal_strlit(",returned=");
        }
        let mut s = String::from_str("attention:departed=");
        s.append(self.modes[0].name());
        s.append(",arrived=");
        s.append(self.modes[1].name());
        s.append(",work-began=");
        s.append(self.modes[2].name());
        s.append(",quest-complete=");
        s.append(self.modes[3].name());
        s.append(",returned=");
        s.append(self.modes[4].name());
        s
    }
}

impl Default for Attention {
    fn default() -> (a: Attention)
        ensures
            a@ == default_modes(),
    {
        Attention::opening()
    }
}

/// Why the world stopped: the class that did it, and which entry of the
/// event log it was.
#[derive(Clone, Copy, Debug, PartialEq, Eq, Structural)]
pub struct Pause {
    /// Which entry of the event log did it.
    pub event: usize,
    /// What class it was.
    pub class: EventClass,
    /// The world-minute it fired at.
    pub minute: u64,
}

/// One row of the feed: which event, and whether it is only here because the
/// player asked to see ignored classes.
#[derive(Clone, Copy, Debug, PartialEq, Eq, Structural)]
pub struct FeedEntry {
    /// The index into the event log — the feed's whole state.
    pub index: usize,
    /// Whether its class is configured to be ignored.
    pub ignored: bool,
}

/// Whether an event's class is configured to be ignored.
pub open spec fn is_ignored(modes: Seq<Mode>, e: Event) -> bool {
    modes[class_index(e.class)] == Mode::Ignore
}

/// The feed rows over the events from index `k` on, newest first.
pub open spec fn kept_since(events: Seq<Event>, modes: Seq<Mode>, show_ignored: bool, k: int) -> Seq<FeedEntry>
    decreases events.len() - k,
{
    if k < 0 || k >= events.len() {
        Seq::empty()
    } else {
        kept_since(events, modes, show_ignored, k + 1) + if !is_ignored(modes, events[k]) || show_ignored {
            seq![FeedEntry { index: k as usize, ignored: is_ignored(modes, events[k]) }]
        } else {
            Seq::empty()
        }
    }
}

/// **The feed**: the event log newest first, filtered by the config and
/// bounded by a cap.
pub open spec fn feed_of(events: Seq<Event>, modes: Seq<Mode>, show_ignored: bool, cap: usize) -> Seq<FeedEntry> {
    let all = kept_since(events, modes, show_ignored, 0);
    if all.len() <= cap { all } else { all.take(cap as int) }
}

proof fn lemma_kept_since_prefix(events: Seq<Event>, modes: Seq<Mode>, show: bool, j: int, i: int)
    requires
        0 <= j <= i <= events.len(),
    ensures
        kept_since(events, modes, show, i).len() <= kept_since(events, modes, show, j).len(),
        kept_since(events, modes, show, j).take(kept_since(events, modes, show, i).len() as int)
            == kept_since(events, modes, show, i),
    decreases i - j,
{
    if j < i {
        lemma_kept_since_prefix(events, modes, show, j + 1, i);
        let a = kept_since(events, modes, show, j + 1);
        let b = kept_since(events, modes, show, i);
        let c = kept_since(events, modes, show, j);
        assert(c.take(b.len() as int) =~= a.take(b.len() as int));
    } else {
        assert(kept_since(events, modes, show, j).take(kept_since(events, modes, show, j).len() as int)
            =~= kept_since(events, modes, show, j));
    }
}

/// **The feed**, as the drawer lists it: the event log newest first,
/// filtered by the config, at most `cap` rows.
pub fn feed(lens: &Lens<'_>, show_ignored: bool, cap: usize) -> (out: Vec<FeedEntry>)
    ensures
        out@ == feed_of(lens.world().events@, lens.world().attention@, show_ignored, cap),
{
    let events = lens.events();
    let attention = lens.attention();
    let n = events.len();
    let mut out: Vec<FeedEntry> = Vec::new();
    let mut i: usize = n;
    while i > 0 && out.len() < cap
        invariant
            n == events@.len(),
            events@ == lens.world().events@,
            attention@ == lens.world().attention@,
            i <= n,
            out@.len() <= cap,
            out@ == kept_since(events@, attention@, show_ignored, i as int),
        decreases i,
    {
        i = i - 1;
        let ignored = attention.mode(events[i].class) == Mode::Ignore;
        if !ignored || show_ignored {
            out.push(FeedEntry { index: i, ignored });
        }
        assert(out@ =~= kept_since(events@, attention@, show_ignored, i as int));
    }
    proof {
        lemma_kept_since_prefix(events@, attention@, show_ignored, 0, i as int);
        let all = kept_since(events@, attention@, show_ignored, 0);
        if i > 0 {
            assert(out@.len() == cap);
            assert(all.take(cap as int) == out@);
        } else {
            assert(all.take(out@.len() as int) == out@);
            assert(all =~= out@);
        }
    }
    out
}

/// **The feed is a view of the log**: every row is an event of the log, the
/// rows run newest first, a row is marked ignored exactly when its class is
/// configured to be ignored, no ignored row is shown unless asked for, and
/// there are never more rows than the cap.
pub proof fn lemma_feed_is_a_view(events: Seq<Event>, modes: Seq<Mode>, show_ignored: bool, cap: usize)
    requires
        events.len() <= usize::MAX,
    ensures
        feed_of(events, modes, show_ignored, cap).len() <= cap,
        forall|k: int| 0 <= k < feed_of(events, modes, show_ignored, cap).len() ==> {
            let row = #[trigger] feed_of(events, modes, show_ignored, cap)[k];
            &&& row.index < events.len()
            &&& row.ignored == is_ignored(modes, events[row.index as int])
            &&& (row.ignored ==> show_ignored)
        },
        forall|a: int, b: int| 0 <= a < b < feed_of(events, modes, show_ignored, cap).len() ==>
            feed_of(events, modes, show_ignored, cap)[a].index > feed_of(events, modes, show_ignored, cap)[b].index,
{
    lemma_kept_since_rows(events, modes, show_ignored, 0);
    let all = kept_since(events, modes, show_ignored, 0);
    let f = feed_of(events, modes, show_ignored, cap);
    assert forall|k: int| 0 <= k < f.len() implies #[trigger] f[k] == all[k] by {}
}

proof fn lemma_kept_since_rows(events: Seq<Event>, modes: Seq<Mode>, show: bool, k: int)
    requires
        0 <= k,
        events.len() <= usize::MAX,
    ensures
        forall|r: int| 0 <= r < kept_since(events, modes, show, k).len() ==> {
            let row = #[trigger] kept_since(events, modes, show, k)[r];
            &&& k <= row.index < events.len()
            &&& row.ignored == is_ignored(modes, events[row.index as int])
            &&& (row.ignored ==> show)
        },
        forall|a: int, b: int| 0 <= a < b < kept_since(events, modes, show, k).len() ==>
            kept_since(events, modes, show, k)[a].index > kept_since(events, modes, show, k)[b].index,
    decreases events.len() - k,
{
    if k < events.len() {
        lemma_kept_since_rows(events, modes, show, k + 1);
        let rest = kept_since(events, modes, show, k + 1);
        let cur = kept_since(events, modes, show, k);
        assert forall|r: int| 0 <= r < cur.len() implies {
            let row = #[trigger] cur[r];
            &&& k <= row.index < events.len()
            &&& row.ignored == is_ignored(modes, events[row.index as int])
            &&& (row.ignored ==> show)
        } by {
            if r < rest.len() {
                assert(cur[r] == rest[r]);
            }
        }
        assert forall|a: int, b: int| 0 <= a < b < cur.len() implies cur[a].index > cur[b].index by {
            assert(cur[a] == rest[a]);
            if b < rest.len() {
                assert(cur[b] == rest[b]);
            }
        }
    }
}


// ── the place, the banner and the drawer's two numbers ─────────────────────

/// The place tag on a feed row: the named location, or the bare tile when the
/// event happened on the road.
pub open spec fn place_words(sim: Sim, event: Event) -> Seq<char> {
    match event.location {
        Some(i) if i < sim.locations@.len() => sim.locations@[i as int].name@,
        _ => "("@ + int_digits(event.tile.x as int) + ", "@ + int_digits(event.tile.y as int) + ")"@,
    }
}

/// **The place tag on a feed row**: the named location, or the bare tile
/// when the event happened on the road.
pub fn place_tag(lens: &Lens<'_>, event: &Event) -> (s: String)
    ensures
        s@ == place_words(lens.world(), *event),
{
    let sim = lens.sim();
    match event.location {
        Some(i) => {
            if i < sim.locations.len() {
                return String::from_str(sim.locations[i].name);
            }
        },
        None => {},
    }
    proof { reveal_strlit("("); reveal_strlit(", "); reveal_strlit(")"); }
    let mut s = String::from_str("(");
    push_i64(&mut s, event.tile.x);
    s.append(", ");
    push_i64(&mut s, event.tile.y);
    s.append(")");
    s
}

/// The pause reason, as the banner and the feed's header both say it.
pub open spec fn reason_words(sim: Sim) -> Option<Seq<char>> {
    match sim.pause {
        Some(p) if p.event < sim.events@.len() => {
            let e = sim.events@[p.event as int];
            Some("paused: "@ + classes_table()[class_index(p.class)].id@ + " at "@ + place_words(sim, e)
                + " - "@ + e.note@)
        },
        _ => None,
    }
}

/// **The pause reason**, as the banner and the feed's header both say it —
/// one sentence, one source: the class and the place first, the note after,
/// so what a clip at the drawer's edge keeps is what stopped the world and
/// where. Nothing when the world is running or the pause names no event.
pub fn reason_line(lens: &Lens<'_>) -> (line: Option<String>)
    ensures
        match line {
            Some(s) => reason_words(lens.world()) == Some(s@),
            None => reason_words(lens.world()) is None,
        },
{
    let pause = match lens.pause() {
        Some(p) => p,
        None => return None,
    };
    let events = lens.events();
    if pause.event >= events.len() {
        return None;
    }
    let event = &events[pause.event];
    proof { reveal_strlit("paused: "); reveal_strlit(" at "); reveal_strlit(" - "); }
    let mut s = String::from_str("paused: ");
    s.append(pause.class.name());
    s.append(" at ");
    let place = place_tag(lens, event);
    s.append(place.as_str());
    s.append(" - ");
    s.append(event.note.as_str());
    Some(s)
}

/// Engine ticks per tenth of a wall-second, at the engine's fixed sixty.
pub const TICKS_PER_TENTH: u64 = 6;

/// **How many ticks a click-to-focus pulse marker lasts**: the drawer's
/// tenths, never negative, at six ticks a tenth.
pub fn pulse_ticks(tuning: &Tuning) -> (t: u64)
    requires
        tuning.wf(),
    ensures
        t == (if tuning.pulse_tenths <= 0 { 0 } else { tuning.pulse_tenths as int }) * 6,
{
    if tuning.pulse_tenths <= 0 { 0 } else { (tuning.pulse_tenths as u64) * TICKS_PER_TENTH }
}

/// **How many entries the feed view holds**: the drawer's cap, never
/// negative.
pub fn feed_cap(tuning: &Tuning) -> (n: usize)
    requires
        tuning.wf(),
    ensures
        n == (if tuning.feed_cap <= 0 { 0 } else { tuning.feed_cap as int }),
{
    if tuning.feed_cap <= 0 { 0 } else { tuning.feed_cap as usize }
}

} // verus!

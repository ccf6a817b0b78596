//! The shared state: what everybody thinks of everybody.

use vstd::prelude::*;
use crate::constants::Tuning;

verus! {

/// The largest magnitude a stored edge can hold under any drawer.
pub const REGARD_BOUND: i64 = 10_000;

/// Whom a regard edge points at.
#[derive(Clone, Copy, Debug, PartialEq, Eq, Structural)]
pub enum Regarded {
    /// The player.
    Player,
    /// A character, by registry index.
    Person(usize),
}

/// One stored edge: what `from` thinks of `to`.
#[derive(Clone, Copy, Debug, PartialEq, Eq, Structural)]
pub struct Edge {
    pub from: usize,
    pub to: Regarded,
    pub value: i64,
}

/// Every regard edge there is. An edge that is not stored reads zero.
#[derive(Clone, Debug)]
pub struct Shared {
    pub edges: Vec<Edge>,
}

/// The value of the first stored edge `from -> to`, or zero.
pub open spec fn regard_in(edges: Seq<Edge>, from: usize, to: Regarded) -> i64
    decreases edges.len(),
{
    if edges.len() == 0 {
        0
    } else if edges[0].from == from && edges[0].to == to {
        edges[0].value
    } else {
        regard_in(edges.drop_first(), from, to)
    }
}

/// Where the first stored edge `from -> to` is, if anywhere.
pub open spec fn edge_at(edges: Seq<Edge>, from: usize, to: Regarded) -> Option<int>
    decreases edges.len(),
{
    if edges.len() == 0 {
        None
    } else if edges[0].from == from && edges[0].to == to {
        Some(0)
    } else {
        match edge_at(edges.drop_first(), from, to) {
            Some(i) => Some(i + 1),
            None => None,
        }
    }
}

proof fn lemma_edge_at(edges: Seq<Edge>, from: usize, to: Regarded)
    ensures
        edge_at(edges, from, to) matches Some(i) ==> {
            &&& 0 <= i < edges.len()
            &&& edges[i].from == from && edges[i].to == to
            &&& edges[i].value == regard_in(edges, from, to)
            &&& forall|j: int| 0 <= j < i ==> !(edges[j].from == from && edges[j].to == to)
        },
        edge_at(edges, from, to) is None ==> regard_in(edges, from, to) == 0
            && forall|j: int| 0 <= j < edges.len() ==> !(edges[j].from == from && edges[j].to == to),
    decreases edges.len(),
{
    if edges.len() > 0 {
        lemma_edge_at(edges.drop_first(), from, to);
        if !(edges[0].from == from && edges[0].to == to) {
            assert forall|j: int| 1 <= j < edges.len() implies edges[j] == edges.drop_first()[j - 1] by {}
        }
    }
}

/// Overwriting one edge leaves every other pair's reading alone.
proof fn lemma_update_other(edges: Seq<Edge>, k: int, e: Edge, from: usize, to: Regarded)
    requires
        0 <= k < edges.len(),
        edges[k].from == e.from && edges[k].to == e.to,
        !(e.from == from && e.to == to),
    ensures
        regard_in(edges.update(k, e), from, to) == regard_in(edges, from, to),
    decreases edges.len(),
{
    if k > 0 {
        lemma_update_other(edges.drop_first(), k - 1, e, from, to);
        assert(edges.update(k, e).drop_first() =~= edges.drop_first().update(k - 1, e));
    } else {
        assert(edges.update(k, e).drop_first() =~= edges.drop_first());
    }
}

/// Overwriting the first matching edge sets that pair's reading.
proof fn lemma_update_same(edges: Seq<Edge>, k: int, e: Edge)
    requires
        edge_at(edges, e.from, e.to) == Some(k),
    ensures
        regard_in(edges.update(k, e), e.from, e.to) == e.value,
    decreases edges.len(),
{
    lemma_edge_at(edges, e.from, e.to);
    if k > 0 {
        assert(edge_at(edges.drop_first(), e.from, e.to) == Some(k - 1));
        lemma_update_same(edges.drop_first(), k - 1, e);
        assert(edges.update(k, e).drop_first() =~= edges.drop_first().update(k - 1, e));
    }
}

/// Appending an edge for an unstored pair leaves every other reading alone and
/// sets that pair's.
proof fn lemma_push(edges: Seq<Edge>, e: Edge, from: usize, to: Regarded)
    requires
        edge_at(edges, e.from, e.to) is None,
    ensures
        regard_in(edges.push(e), from, to) == if e.from == from && e.to == to {
            e.value
        } else {
            regard_in(edges, from, to)
        },
    decreases edges.len(),
{
    lemma_edge_at(edges, e.from, e.to);
    if edges.len() > 0 {
        assert(edges.push(e).drop_first() =~= edges.drop_first().push(e));
        assert(edge_at(edges.drop_first(), e.from, e.to) is None);
        lemma_push(edges.drop_first(), e, from, to);
    } else {
        assert(edges.push(e).drop_first() =~= edges);
    }
}

/// A bounded store reads bounded values.
pub proof fn lemma_regard_bounded(shared: Shared, from: usize, to: Regarded)
    requires
        shared.bounded(REGARD_BOUND as int),
    ensures
        -REGARD_BOUND <= shared.spec_regard(from, to) <= REGARD_BOUND,
{
    lemma_edge_at(shared.edges@, from, to);
}

/// `v` held inside `[-bound, bound]`.
pub open spec fn clamp(v: int, bound: int) -> int {
    if v > bound { bound } else if v < -bound { -bound } else { v }
}

impl Shared {
    /// What the store reads for one pair.
    pub open spec fn spec_regard(&self, from: usize, to: Regarded) -> i64 {
        regard_in(self.edges@, from, to)
    }

    /// Every stored edge is inside `[-bound, bound]`.
    pub open spec fn bounded(&self, bound: int) -> bool {
        forall|i: int| 0 <= i < self.edges@.len() ==> -bound <= #[trigger] self.edges@[i].value <= bound
    }

    /// A store with nothing in it.
    pub fn empty() -> (s: Shared)
        ensures
            s.edges@.len() == 0,
            forall|from: usize, to: Regarded| s.spec_regard(from, to) == 0,
    {
        Shared { edges: Vec::new() }
    }

    /// **`regard(from -> to)`**, raw. Absent is zero.
    #[verifier::when_used_as_spec(spec_regard)]
    pub fn regard(&self, from: usize, to: Regarded) -> (r: i64)
        ensures
            r == self.spec_regard(from, to),
    {
        let n = self.edges.len();
        let mut i: usize = 0;
        assert(self.edges@.skip(0) =~= self.edges@);
        while i < n
            invariant
                n == self.edges@.len(),
                0 <= i <= n,
                regard_in(self.edges@, from, to) == regard_in(self.edges@.skip(i as int), from, to),
            decreases n - i,
        {
            let e = self.edges[i];
            assert(self.edges@.skip(i as int).drop_first() =~= self.edges@.skip(i + 1));
            if e.from == from && e.to == to {
                return e.value;
            }
            i = i + 1;
        }
        0
    }

    /// **Move one edge by `delta`**, held inside the drawer's regard bound.
    pub fn adjust_regard(&mut self, tuning: &Tuning, from: usize, to: Regarded, delta: i64)
        requires
            tuning.wf(),
            old(self).bounded(REGARD_BOUND as int),
            -1_000_000 <= delta <= 1_000_000,
        ensures
            final(self).bounded(REGARD_BOUND as int),
            final(self).spec_regard(from, to) == clamp(
                old(self).spec_regard(from, to) + delta,
                tuning.regard_max as int,
            ),
            forall|f: usize, t: Regarded| !(f == from && t == to) ==> final(self).spec_regard(f, t)
                == old(self).spec_regard(f, t),
    {
        let bound = tuning.regard_max;
        let n = self.edges.len();
        let mut i: usize = 0;
        let ghost edges0 = self.edges@;
        proof { lemma_edge_at(edges0, from, to); }
        while i < n
            invariant
                n == self.edges@.len(),
                self.edges@ == edges0,
                edges0 == old(self).edges@,
                0 <= i <= n,
                bound == tuning.regard_max,
                0 <= bound <= 10_000,
                -1_000_000 <= delta <= 1_000_000,
                self.bounded(REGARD_BOUND as int),
                forall|j: int| 0 <= j < i ==> !(edges0[j].from == from && edges0[j].to == to),
                edge_at(edges0, from, to) matches Some(k) ==> i <= k,
                edge_at(edges0, from, to) matches Some(k) ==> {
                    &&& 0 <= k < edges0.len()
                    &&& edges0[k].from == from && edges0[k].to == to
                    &&& edges0[k].value == regard_in(edges0, from, to)
                    &&& forall|j: int| 0 <= j < k ==> !(edges0[j].from == from && edges0[j].to == to)
                },
                edge_at(edges0, from, to) is None ==> regard_in(edges0, from, to) == 0
                    && forall|j: int| 0 <= j < edges0.len() ==> !(edges0[j].from == from && edges0[j].to == to),
            decreases n - i,
        {
            let e = self.edges[i];
            if e.from == from && e.to == to {
                let next = e.value + delta;
                let held = if next > bound { bound } else if next < -bound { -bound } else { next };
                let updated = Edge { from, to, value: held };
                self.edges.set(i, updated);
                proof {
                    assert(edge_at(edges0, from, to) == Some(i as int));
                    lemma_update_same(edges0, i as int, updated);
                    assert forall|f: usize, t: Regarded| !(f == from && t == to) implies
                        regard_in(self.edges@, f, t) == regard_in(edges0, f, t) by {
                        lemma_update_other(edges0, i as int, updated, f, t);
                    }
                }
                return;
            }
            i = i + 1;
        }
        let held = if delta > bound { bound } else if delta < -bound { -bound } else { delta };
        let added = Edge { from, to, value: held };
        self.edges.push(added);
        proof {
            assert(edge_at(edges0, from, to) is None);
            assert forall|f: usize, t: Regarded| true implies
                regard_in(self.edges@, f, t) == (if from == f && to == t { held } else { regard_in(edges0, f, t) }) by {
                lemma_push(edges0, added, f, t);
            }
        }
    }
}

} // verus!

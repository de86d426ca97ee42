use vstd::prelude::*;
use vstd::multiset::Multiset;

use crate::board::Board;
use crate::pattern::Pattern;
use crate::reconcile::Target;
use crate::reconcile::reconcile;
use crate::reconcile::spec_reconcile;

verus! {

// The batch scheduler: walks the priority-ordered patterns, reconciles
// each against the one shared board snapshot, and spends a single shared
// pixel budget across all of them. The caller performs each placement and
// reports back whether the pixel was placed and what cooldown it saw; the
// scheduler decrements the budget on recorded successes only and keeps the
// tightest cooldown seen anywhere in the batch.

/// One pattern anchored on the board, with its scheduling priority (lower
/// is served first).
#[derive(Debug, Clone)]
pub struct PatternSpec {
    pub pattern: Pattern,
    pub origin_x: i32,
    pub origin_y: i32,
    pub priority: u32,
}

/// Whether the specs stand in priority order.
pub open spec fn sorted_by_priority(s: Seq<PatternSpec>) -> bool {
    forall|i: int, j: int|
        0 <= i < j < s.len() ==> (#[trigger] s[i]).priority <= (#[trigger] s[j]).priority
}

/// Checks that the specs stand in priority order.
pub fn is_sorted_by_priority(specs: &Vec<PatternSpec>) -> (r: bool)
    ensures
        r == sorted_by_priority(specs@),
{
    let mut i: usize = 1;
    while i < specs.len()
        invariant
            1 <= i,
            i <= specs@.len() || specs@.len() == 0,
            forall|k: int|
                0 < k < i ==> (#[trigger] specs@[k - 1]).priority <= specs@[k].priority,
        decreases specs@.len() - i,
    {
        if specs[i - 1].priority > specs[i].priority {
            return false;
        }
        i += 1;
    }
    proof {
        assert forall|a: int, b: int|
            0 <= a < b < specs@.len() implies (#[trigger] specs@[a]).priority
            <= (#[trigger] specs@[b]).priority by {
            lemma_adjacent_sorted(specs@, a, b);
        }
    }
    true
}

proof fn lemma_adjacent_sorted(s: Seq<PatternSpec>, a: int, b: int)
    requires
        forall|k: int| 0 < k < s.len() ==> (#[trigger] s[k - 1]).priority <= s[k].priority,
        0 <= a <= b < s.len(),
    ensures
        s[a].priority <= s[b].priority,
    decreases b - a,
{
    if a < b {
        lemma_adjacent_sorted(s, a, b - 1);
        assert(s[b - 1].priority <= s[b].priority);
    }
}

/// The tighter of two optional cooldowns.
pub open spec fn min_cd(a: Option<u64>, b: Option<u64>) -> Option<u64> {
    match (a, b) {
        (Some(x), Some(y)) => if x <= y {
            Some(x)
        } else {
            Some(y)
        },
        (Some(x), None) => Some(x),
        (None, Some(y)) => Some(y),
        (None, None) => None,
    }
}

/// The reconciliation plans for the given specs against a board, one list
/// of corrections per spec, in the specs' order.
pub open spec fn spec_plans(b: Seq<Seq<u8>>, specs: Seq<PatternSpec>) -> Seq<Seq<Target>> {
    specs.map_values(
        |ps: PatternSpec|
            spec_reconcile(b, ps.pattern@, ps.origin_x as int, ps.origin_y as int),
    )
}

/// The first position at or after `(pi, ci)` that points at a real cell:
/// exhausted plans are stepped over, pattern-major.
pub open spec fn spec_advance(plans: Seq<Seq<Target>>, pi: int, ci: int) -> (int, int)
    decreases plans.len() - pi,
{
    if 0 <= pi < plans.len() && ci >= plans[pi].len() {
        spec_advance(plans, pi + 1, 0)
    } else {
        (pi, ci)
    }
}

/// One cycle's scheduling state.
#[derive(Debug)]
pub struct BatchScheduler {
    /// The per-pattern correction lists, in priority order.
    pub plans: Vec<Vec<Target>>,
    /// The pattern currently being served.
    pub pat_idx: usize,
    /// The next cell of that pattern.
    pub cell_idx: usize,
    /// The cycle's full budget.
    pub budget: usize,
    /// What is left of it.
    pub remaining: usize,
    /// Recorded successful placements.
    pub total_placed: usize,
    /// The tightest cooldown recorded anywhere in the batch.
    pub min_cooldown: Option<u64>,
}

impl BatchScheduler {
    /// The plans as a mathematical value.
    pub open spec fn plans_view(&self) -> Seq<Seq<Target>> {
        self.plans@.map_values(|p: Vec<Target>| p@)
    }

    /// Budget conservation and a normalized position: every placement
    /// recorded so far came out of the budget, and the cursor either
    /// points at a real cell or stands past the last plan.
    pub open spec fn wf(&self) -> bool {
        &&& self.total_placed + self.remaining == self.budget
        &&& self.pat_idx <= self.plans@.len()
        &&& (self.pat_idx < self.plans@.len() ==> self.cell_idx
            < self.plans_view()[self.pat_idx as int].len())
    }

    /// Builds the cycle's schedule: reconciles every spec, in the given
    /// priority order, against the one shared snapshot, and arms the
    /// shared budget.
    pub fn new(board: &Board, specs: &Vec<PatternSpec>, budget: usize) -> (r: BatchScheduler)
        requires
            board.wf(),
            sorted_by_priority(specs@),
        ensures
            r.plans_view() == spec_plans(board@, specs@),
            r.budget == budget,
            r.remaining == budget,
            r.total_placed == 0,
            r.min_cooldown is None,
            (r.pat_idx as int, r.cell_idx as int) == spec_advance(r.plans_view(), 0, 0),
            r.wf(),
    {
        let ghost goal = spec_plans(board@, specs@);
        let mut plans: Vec<Vec<Target>> = Vec::new();
        let mut i: usize = 0;
        while i < specs.len()
            invariant
                board.wf(),
                goal == spec_plans(board@, specs@),
                i <= specs@.len(),
                plans@.len() == i,
                forall|k: int| 0 <= k < i ==> (#[trigger] plans@[k])@ == goal[k],
            decreases specs@.len() - i,
        {
            let ps = &specs[i];
            let targets = reconcile(board, &ps.pattern, ps.origin_x, ps.origin_y);
            proof {
                assert(goal[i as int] == spec_reconcile(
                    board@,
                    specs@[i as int].pattern@,
                    specs@[i as int].origin_x as int,
                    specs@[i as int].origin_y as int,
                ));
            }
            plans.push(targets);
            i += 1;
        }
        let mut r = BatchScheduler {
            plans,
            pat_idx: 0,
            cell_idx: 0,
            budget,
            remaining: budget,
            total_placed: 0,
            min_cooldown: None,
        };
        proof {
            assert(r.plans_view() =~= goal);
        }
        r.advance();
        r
    }

    /// Steps the cursor past exhausted plans.
    fn advance(&mut self)
        requires
            old(self).pat_idx <= old(self).plans@.len(),
        ensures
            final(self).plans == old(self).plans,
            final(self).budget == old(self).budget,
            final(self).remaining == old(self).remaining,
            final(self).total_placed == old(self).total_placed,
            final(self).min_cooldown == old(self).min_cooldown,
            (final(self).pat_idx as int, final(self).cell_idx as int) == spec_advance(
                old(self).plans_view(),
                old(self).pat_idx as int,
                old(self).cell_idx as int,
            ),
            final(self).pat_idx <= final(self).plans@.len(),
            final(self).pat_idx < final(self).plans@.len() ==> (final(self).cell_idx as int)
                < final(self).plans_view()[final(self).pat_idx as int].len(),
    {
        while self.pat_idx < self.plans.len() && self.cell_idx >= self.plans[self.pat_idx].len()
            invariant
                self.pat_idx <= self.plans@.len(),
                self.plans == old(self).plans,
                self.budget == old(self).budget,
                self.remaining == old(self).remaining,
                self.total_placed == old(self).total_placed,
                self.min_cooldown == old(self).min_cooldown,
                spec_advance(
                    old(self).plans_view(),
                    old(self).pat_idx as int,
                    old(self).cell_idx as int,
                ) == spec_advance(self.plans_view(), self.pat_idx as int, self.cell_idx as int),
            decreases self.plans@.len() - self.pat_idx,
        {
            proof {
                assert(self.plans_view()[self.pat_idx as int] == self.plans@[self.pat_idx as int]@);
            }
            self.pat_idx = self.pat_idx + 1;
            self.cell_idx = 0;
        }
        proof {
            if self.pat_idx < self.plans@.len() {
                assert(self.plans_view()[self.pat_idx as int] == self.plans@[self.pat_idx as int]@);
            }
        }
    }

    /// The next cell the cycle should attempt: the current cell of the
    /// highest-priority pattern still holding corrections, as long as
    /// budget remains; nothing once the budget is spent or every plan is
    /// exhausted.
    pub fn next_target(&self) -> (r: Option<Target>)
        requires
            self.wf(),
        ensures
            r == (if self.remaining > 0 && (self.pat_idx as int) < self.plans_view().len() {
                Some(self.plans_view()[self.pat_idx as int][self.cell_idx as int])
            } else {
                None
            }),
    {
        if self.remaining > 0 && self.pat_idx < self.plans.len() {
            proof {
                assert(self.plans_view()[self.pat_idx as int] == self.plans@[self.pat_idx as int]@);
            }
            Some(self.plans[self.pat_idx][self.cell_idx])
        } else {
            None
        }
    }

    /// Records the settled result of the current cell: the budget is spent
    /// on a recorded success only, the tightest cooldown seen so far is
    /// kept, and the cursor moves to the next cell, stepping past
    /// exhausted plans. A rate-limited or abandoned cell costs nothing and
    /// never halts the batch.
    pub fn record(&mut self, placed: bool, cooldown: Option<u64>)
        requires
            old(self).wf(),
            old(self).remaining > 0,
            (old(self).pat_idx as int) < old(self).plans_view().len(),
        ensures
            final(self).wf(),
            final(self).plans == old(self).plans,
            final(self).budget == old(self).budget,
            final(self).total_placed == old(self).total_placed + (if placed {
                1int
            } else {
                0int
            }),
            final(self).remaining == old(self).remaining - (if placed {
                1int
            } else {
                0int
            }),
            final(self).min_cooldown == min_cd(old(self).min_cooldown, cooldown),
            (final(self).pat_idx as int, final(self).cell_idx as int) == spec_advance(
                old(self).plans_view(),
                old(self).pat_idx as int,
                old(self).cell_idx as int + 1,
            ),
    {
        if placed {
            self.remaining = self.remaining - 1;
            self.total_placed = self.total_placed + 1;
        }
        self.min_cooldown = match (self.min_cooldown, cooldown) {
            (Some(x), Some(y)) => if x <= y {
                Some(x)
            } else {
                Some(y)
            },
            (Some(x), None) => Some(x),
            (None, Some(y)) => Some(y),
            (None, None) => None,
        };
        proof {
            assert(self.plans_view()[self.pat_idx as int] == self.plans@[self.pat_idx as int]@);
        }
        let plan_len = self.plans[self.pat_idx].len();
        assert(self.cell_idx < plan_len);
        self.cell_idx = self.cell_idx + 1;
        self.advance();
    }

    /// What the cycle came to: the placements recorded and the tightest
    /// cooldown observed.
    pub fn result(&self) -> (r: (usize, Option<u64>))
        ensures
            r.0 == self.total_placed,
            r.1 == self.min_cooldown,
    {
        (self.total_placed, self.min_cooldown)
    }
}

/// Where `x` lands among already-sorted specs: after every spec of equal
/// or lower priority, before every spec of strictly higher one — a stable
/// insertion.
pub open spec fn spec_insert_by_priority(x: PatternSpec, s: Seq<PatternSpec>) -> Seq<PatternSpec>
    decreases s.len(),
{
    if s.len() == 0 {
        seq![x]
    } else if s.last().priority > x.priority {
        spec_insert_by_priority(x, s.drop_last()).push(s.last())
    } else {
        s.push(x)
    }
}

/// The specs in priority order, ties kept in input order: each spec
/// inserted stably into the sorted prefix before it.
pub open spec fn spec_sort_by_priority(s: Seq<PatternSpec>) -> Seq<PatternSpec>
    decreases s.len(),
{
    if s.len() == 0 {
        Seq::empty()
    } else {
        spec_insert_by_priority(s.last(), spec_sort_by_priority(s.drop_last()))
    }
}

proof fn lemma_insert_sorted(x: PatternSpec, s: Seq<PatternSpec>)
    requires
        sorted_by_priority(s),
    ensures
        sorted_by_priority(spec_insert_by_priority(x, s)),
        spec_insert_by_priority(x, s).to_multiset() == s.to_multiset().insert(x),
        spec_insert_by_priority(x, s).len() == s.len() + 1,
    decreases s.len(),
{
    broadcast use vstd::seq_lib::group_to_multiset_ensures;

    let r = spec_insert_by_priority(x, s);
    if s.len() == 0 {
        assert(r =~= Seq::empty().push(x));
        assert(Seq::<PatternSpec>::empty().to_multiset() =~= Multiset::empty());
        assert(r.to_multiset() =~= s.to_multiset().insert(x));
    } else if s.last().priority > x.priority {
        let d = s.drop_last();
        assert(sorted_by_priority(d)) by {
            assert(forall|i: int, j: int|
                0 <= i < j < d.len() ==> (#[trigger] d[i]).priority == s[i].priority
                    && (#[trigger] d[j]).priority == s[j].priority);
        }
        lemma_insert_sorted(x, d);
        let rd = spec_insert_by_priority(x, d);
        assert(r == rd.push(s.last()));
        assert(sorted_by_priority(r)) by {
            assert forall|i: int, j: int| 0 <= i < j < r.len() implies (#[trigger] r[i]).priority
                <= (#[trigger] r[j]).priority by {
                if j < r.len() - 1 {
                    assert(r[i] == rd[i] && r[j] == rd[j]);
                } else {
                    assert(r[j] == s.last());
                    assert(r[i] == rd[i]);
                    assert(rd.to_multiset().count(rd[i]) > 0);
                    assert(rd.to_multiset() == d.to_multiset().insert(x));
                    if rd[i] == x {
                        assert(r[i].priority <= r[j].priority);
                    } else {
                        assert(d.to_multiset().count(rd[i]) > 0);
                        assert(d.contains(rd[i]));
                        let k = choose|k: int| 0 <= k < d.len() && d[k] == rd[i];
                        assert(s[k] == d[k]);
                        assert(s[k].priority <= s.last().priority);
                    }
                }
            }
        }
        assert(d.push(s.last()) =~= s);
        assert(s.to_multiset() == d.to_multiset().insert(s.last()));
        assert(r.to_multiset() == rd.to_multiset().insert(s.last()));
        assert(r.to_multiset() =~= s.to_multiset().insert(x)) by {
            assert(rd.to_multiset() == d.to_multiset().insert(x));
        }
    } else {
        assert(r == s.push(x));
        assert(sorted_by_priority(r)) by {
            assert forall|i: int, j: int| 0 <= i < j < r.len() implies (#[trigger] r[i]).priority
                <= (#[trigger] r[j]).priority by {
                if j < r.len() - 1 {
                    assert(r[i] == s[i] && r[j] == s[j]);
                } else {
                    assert(r[j] == x);
                    assert(r[i] == s[i]);
                    if i < s.len() - 1 {
                        assert(s[i].priority <= s.last().priority);
                    }
                }
            }
        }
    }
}

/// The insertion point the scanning loop finds is the point the spec
/// inserts at.
proof fn lemma_insert_at(x: PatternSpec, s: Seq<PatternSpec>, j: int)
    requires
        0 <= j <= s.len(),
        forall|k: int| j <= k < s.len() ==> (#[trigger] s[k]).priority > x.priority,
        j > 0 ==> s[j - 1].priority <= x.priority,
    ensures
        spec_insert_by_priority(x, s) == s.take(j) + seq![x] + s.skip(j),
    decreases s.len(),
{
    if s.len() == 0 {
        assert(spec_insert_by_priority(x, s) =~= s.take(j) + seq![x] + s.skip(j));
    } else if s.last().priority > x.priority {
        assert(j < s.len());
        let d = s.drop_last();
        assert forall|k: int| j <= k < d.len() implies (#[trigger] d[k]).priority
            > x.priority by {
            assert(d[k] == s[k]);
        }
        if j > 0 {
            assert(d[j - 1] == s[j - 1]);
        }
        lemma_insert_at(x, d, j);
        assert(spec_insert_by_priority(x, s) == (d.take(j) + seq![x] + d.skip(j)).push(s.last()));
        assert(d.take(j) =~= s.take(j));
        assert((d.take(j) + seq![x] + d.skip(j)).push(s.last()) =~= s.take(j) + seq![x] + s.skip(
            j,
        ));
    } else {
        assert(j == s.len()) by {
            if j < s.len() {
                assert(s[s.len() - 1].priority > x.priority);
            }
        }
        assert(s.push(x) =~= s.take(j) + seq![x] + s.skip(j));
    }
}

/// Sorts the specs by priority, lower first, keeping the input order of
/// equal priorities. Yields a permutation of the input.
pub fn sort_patterns(specs: Vec<PatternSpec>) -> (r: Vec<PatternSpec>)
    ensures
        r@ == spec_sort_by_priority(specs@),
        sorted_by_priority(r@),
        r@.to_multiset() == specs@.to_multiset(),
        r@.len() == specs@.len(),
{
    broadcast use vstd::seq_lib::group_to_multiset_ensures;

    let ghost orig = specs@;
    let mut rest = specs;
    let mut out: Vec<PatternSpec> = Vec::new();
    let mut i: usize = 0;
    proof {
        assert(orig.take(0) =~= Seq::<PatternSpec>::empty());
        assert(Seq::<PatternSpec>::empty().to_multiset() =~= Multiset::empty());
        assert(rest@ =~= orig.skip(0));
    }
    let n0 = rest.len();
    while rest.len() > 0
        invariant
            orig.len() == n0,
            i + rest@.len() == orig.len(),
            rest@ == orig.skip(i as int),
            out@ == spec_sort_by_priority(orig.take(i as int)),
            sorted_by_priority(out@),
            out@.to_multiset() == orig.take(i as int).to_multiset(),
            out@.len() == i,
        decreases rest@.len(),
    {
        broadcast use vstd::seq_lib::group_to_multiset_ensures;

        let ghost prev = rest@;
        let x = rest.remove(0);
        proof {
            assert(prev[0] == orig[i as int]);
            assert(rest@ =~= orig.skip(i + 1));
            assert(orig.take(i + 1).drop_last() =~= orig.take(i as int));
            assert(orig.take(i + 1).last() == orig[i as int]);
        }
        let mut j = out.len();
        while j > 0 && out[j - 1].priority > x.priority
            invariant
                j <= out@.len(),
                forall|k: int| j <= k < out@.len() ==> (#[trigger] out@[k]).priority > x.priority,
                sorted_by_priority(out@),
            decreases j,
        {
            j -= 1;
        }
        let ghost out0 = out@;
        out.insert(j, x);
        proof {
            lemma_insert_at(x, out0, j as int);
            assert(out0.insert(j as int, x) =~= out0.take(j as int) + seq![x] + out0.skip(
                j as int,
            ));
            lemma_insert_sorted(x, out0);
            assert(x == orig[i as int]);
            assert(orig.take(i + 1) =~= orig.take(i as int).push(orig[i as int]));
            assert(orig.take(i + 1).to_multiset() == orig.take(i as int).to_multiset().insert(
                orig[i as int],
            ));
        }
        i += 1;
    }
    proof {
        assert(orig.take(orig.len() as int) =~= orig);
    }
    out
}

/// Law: the shared budget is conserved. In every reachable scheduler
/// state the recorded placements and the remaining budget sum to the
/// cycle's full budget, so the batch never places more pixels than the
/// budget allows; and by `record`'s contract only a placement reported as
/// successful moves either number.
pub proof fn lemma_budget_conservation(s: BatchScheduler)
    requires
        s.wf(),
    ensures
        s.total_placed + s.remaining == s.budget,
        s.total_placed <= s.budget,
{
}

} // verus!

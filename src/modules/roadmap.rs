use vstd::prelude::*;

use crate::modules::activity::ActivityId;

verus! {

/// One row of a project's dependency data: an activity, its display name and
/// the single activity it depends on, if any.
#[derive(Debug)]
pub struct ActivityWithRelatedDependencies {
    pub activity_id: ActivityId,
    pub head_name: String,
    pub activity_id_head: Option<ActivityId>,
}

/// An activity as it is placed into a phase.
#[derive(Debug, PartialEq)]
pub struct ActivitySum {
    pub id: ActivityId,
    pub name: String,
}

/// Activities that can be considered ready in the same scheduling step, in the
/// order in which they were found.
#[derive(Debug, PartialEq)]
pub struct Phase {
    pub activities: Vec<ActivitySum>,
}

/// The ordered phases that cover all activities of a project.
#[derive(Debug)]
pub struct Roadmap {
    pub phases: Vec<Phase>,
}

/// Why no roadmap could be built.
#[derive(Debug, PartialEq)]
pub enum SchedulingError {
    /// These activities wait on a predecessor that is never placed: they
    /// depend on themselves, on one another in a cycle, or on an activity
    /// that is not among the rows.
    UnresolvableDependency { activity_ids: Vec<ActivityId> },
}

impl View for Phase {
    type V = Seq<ActivitySum>;

    open spec fn view(&self) -> Seq<ActivitySum> {
        self.activities@
    }
}

impl View for Roadmap {
    type V = Seq<Seq<ActivitySum>>;

    open spec fn view(&self) -> Seq<Seq<ActivitySum>> {
        phases_view(self.phases@)
    }
}

impl View for SchedulingError {
    type V = Seq<ActivityId>;

    open spec fn view(&self) -> Seq<ActivityId> {
        match self {
            SchedulingError::UnresolvableDependency { activity_ids } => activity_ids@,
        }
    }
}

pub open spec fn phases_view(phases: Seq<Phase>) -> Seq<Seq<ActivitySum>> {
    phases.map_values(|p: Phase| p@)
}

/// What a row becomes once it is placed.
pub open spec fn summary(row: ActivityWithRelatedDependencies) -> ActivitySum {
    ActivitySum { id: row.activity_id, name: row.head_name }
}

pub open spec fn summaries_of(rows: Seq<ActivityWithRelatedDependencies>) -> Seq<ActivitySum> {
    rows.map_values(|r: ActivityWithRelatedDependencies| summary(r))
}

pub open spec fn ids_of(rows: Seq<ActivityWithRelatedDependencies>) -> Seq<ActivityId> {
    rows.map_values(|r: ActivityWithRelatedDependencies| r.activity_id)
}

pub open spec fn phase_ids(phase: Seq<ActivitySum>) -> Seq<ActivityId> {
    phase.map_values(|a: ActivitySum| a.id)
}

/// A row is ready when it has no predecessor, or when its predecessor is among
/// the activities placed in the phase just before.
pub open spec fn is_ready(row: ActivityWithRelatedDependencies, placed: Seq<ActivityId>) -> bool {
    match row.activity_id_head {
        None => true,
        Some(head) => placed.contains(head),
    }
}

/// The rows that are ready and the rows that still wait, each in input order.
pub open spec fn split_ready(rows: Seq<ActivityWithRelatedDependencies>, placed: Seq<ActivityId>) -> (
    Seq<ActivityWithRelatedDependencies>,
    Seq<ActivityWithRelatedDependencies>,
)
    decreases rows.len(),
{
    if rows.len() == 0 {
        (Seq::empty(), Seq::empty())
    } else {
        let (ready, waiting) = split_ready(rows.drop_last(), placed);
        if is_ready(rows.last(), placed) {
            (ready.push(rows.last()), waiting)
        } else {
            (ready, waiting.push(rows.last()))
        }
    }
}

/// The phases built from `rows` when `placed` holds the ids of the phase just
/// before; or, where a pass places nothing, the ids of the rows left over.
pub open spec fn level_from(rows: Seq<ActivityWithRelatedDependencies>, placed: Seq<ActivityId>) -> Result<
    Seq<Seq<ActivitySum>>,
    Seq<ActivityId>,
>
    decreases rows.len(),
    via level_from_decreases
{
    if rows.len() == 0 {
        Ok(Seq::empty())
    } else {
        let (ready, waiting) = split_ready(rows, placed);
        if ready.len() == 0 {
            Err(ids_of(rows))
        } else {
            match level_from(waiting, ids_of(ready)) {
                Ok(rest) => Ok(seq![summaries_of(ready)] + rest),
                Err(ids) => Err(ids),
            }
        }
    }
}

#[via_fn]
proof fn level_from_decreases(rows: Seq<ActivityWithRelatedDependencies>, placed: Seq<ActivityId>) {
    lemma_split_ready(rows, placed);
}

/// The roadmap of a collection of rows: its phases, or the ids of the rows
/// that could not be placed.
pub open spec fn schedule(rows: Seq<ActivityWithRelatedDependencies>) -> Result<
    Seq<Seq<ActivitySum>>,
    Seq<ActivityId>,
> {
    level_from(rows, Seq::empty())
}

/// The phases of a roadmap, or the ids that an error names.
pub open spec fn roadmap_outcome(r: Result<Roadmap, SchedulingError>) -> Result<
    Seq<Seq<ActivitySum>>,
    Seq<ActivityId>,
> {
    match r {
        Ok(roadmap) => Ok(roadmap@),
        Err(e) => Err(e@),
    }
}

/// `r` is what scheduling `rows` gives.
pub open spec fn is_schedule_of(
    rows: Seq<ActivityWithRelatedDependencies>,
    r: Result<Roadmap, SchedulingError>,
) -> bool {
    roadmap_outcome(r) == schedule(rows)
}

pub open spec fn unique_ids(rows: Seq<ActivityWithRelatedDependencies>) -> bool {
    forall|i: int, j: int|
        0 <= i < rows.len() && 0 <= j < rows.len() && i != j ==> rows[i].activity_id
            != rows[j].activity_id
}

pub open spec fn has_id(phase: Seq<ActivitySum>, id: ActivityId) -> bool {
    exists|j: int| 0 <= j < phase.len() && phase[j].id == id
}

pub open spec fn no_empty_phase(phases: Seq<Seq<ActivitySum>>) -> bool {
    forall|k: int| 0 <= k < phases.len() ==> #[trigger] phases[k].len() > 0
}

/// No id stands at two places of the roadmap.
pub open spec fn placed_once(phases: Seq<Seq<ActivitySum>>) -> bool {
    forall|k1: int, j1: int, k2: int, j2: int|
        0 <= k1 < phases.len() && 0 <= j1 < phases[k1].len() && 0 <= k2 < phases.len() && 0
            <= j2 < phases[k2].len() && (k1 != k2 || j1 != j2) ==> #[trigger] phases[k1][j1].id
            != #[trigger] phases[k2][j2].id
}

/// Entry `j` of phase `k` comes from a row that was ready against `placed`
/// (for `k == 0`) or that was not, but was ready against phase `k - 1`.
pub open spec fn entry_by_rule(
    phases: Seq<Seq<ActivitySum>>,
    rows: Seq<ActivityWithRelatedDependencies>,
    placed: Seq<ActivityId>,
    k: int,
    j: int,
) -> bool {
    exists|i: int|
        0 <= i < rows.len() && phases[k][j] == #[trigger] summary(rows[i]) && if k == 0 {
            is_ready(rows[i], placed)
        } else {
            !is_ready(rows[i], placed) && is_ready(rows[i], phase_ids(phases[k - 1]))
        }
}

pub open spec fn placed_by_rule(
    phases: Seq<Seq<ActivitySum>>,
    rows: Seq<ActivityWithRelatedDependencies>,
    placed: Seq<ActivityId>,
) -> bool {
    forall|k: int, j: int|
        0 <= k < phases.len() && 0 <= j < phases[k].len() ==> #[trigger] entry_by_rule(
            phases,
            rows,
            placed,
            k,
            j,
        )
}

/// A pass keeps every row exactly once, on the side its readiness decides.
proof fn lemma_split_ready(rows: Seq<ActivityWithRelatedDependencies>, placed: Seq<ActivityId>)
    ensures
        ({
            let (ready, waiting) = split_ready(rows, placed);
            &&& ready.len() + waiting.len() == rows.len()
            &&& forall|x| ready.contains(x) ==> rows.contains(x) && is_ready(x, placed)
            &&& forall|x| waiting.contains(x) ==> rows.contains(x) && !is_ready(x, placed)
            &&& forall|i: int|
                0 <= i < rows.len() && is_ready(rows[i], placed) ==> ready.contains(rows[i])
            &&& forall|i: int|
                0 <= i < rows.len() && !is_ready(rows[i], placed) ==> waiting.contains(rows[i])
            &&& summaries_of(ready).to_multiset().add(summaries_of(waiting).to_multiset())
                == summaries_of(rows).to_multiset()
            &&& unique_ids(rows) ==> unique_ids(ready) && unique_ids(waiting)
        }),
    decreases rows.len(),
{
    broadcast use vstd::seq_lib::group_to_multiset_ensures;
    broadcast use vstd::multiset::group_multiset_axioms;

    if rows.len() == 0 {
        let (ready, waiting) = split_ready(rows, placed);
        assert(summaries_of(ready) =~= Seq::empty());
        assert(summaries_of(waiting) =~= Seq::empty());
        assert(summaries_of(rows) =~= Seq::empty());
        assert(summaries_of(ready).to_multiset().add(summaries_of(waiting).to_multiset())
            =~= summaries_of(rows).to_multiset());
    } else {
        let init = rows.drop_last();
        let x = rows.last();
        lemma_split_ready(init, placed);
        let (r0, w0) = split_ready(init, placed);
        let (ready, waiting) = split_ready(rows, placed);
        assert(rows =~= init.push(x));
        assert(summaries_of(rows) =~= summaries_of(init).push(summary(x)));
        if is_ready(x, placed) {
            assert(summaries_of(ready) =~= summaries_of(r0).push(summary(x)));
            assert(waiting == w0);
        } else {
            assert(summaries_of(waiting) =~= summaries_of(w0).push(summary(x)));
            assert(ready == r0);
        }
        assert(summaries_of(ready).to_multiset().add(summaries_of(waiting).to_multiset())
            =~= summaries_of(rows).to_multiset());
        assert forall|i: int|
            0 <= i < rows.len() && is_ready(rows[i], placed) implies ready.contains(
            rows[i],
        ) by {
            if i < rows.len() - 1 {
                assert(init[i] == rows[i]);
                assert(r0.contains(init[i]));
                let j = choose|j: int| 0 <= j < r0.len() && r0[j] == init[i];
                assert(ready[j] == r0[j]);
            } else {
                assert(ready[ready.len() - 1] == x);
            }
        }
        assert forall|i: int|
            0 <= i < rows.len() && !is_ready(rows[i], placed) implies waiting.contains(
            rows[i],
        ) by {
            if i < rows.len() - 1 {
                assert(init[i] == rows[i]);
                assert(w0.contains(init[i]));
                let j = choose|j: int| 0 <= j < w0.len() && w0[j] == init[i];
                assert(waiting[j] == w0[j]);
            } else {
                assert(waiting[waiting.len() - 1] == x);
            }
        }
        assert forall|z| ready.contains(z) implies rows.contains(z) && is_ready(z, placed) by {
            let j = choose|j: int| 0 <= j < ready.len() && ready[j] == z;
            if is_ready(x, placed) && j == ready.len() - 1 {
                assert(rows[rows.len() - 1] == z);
            } else {
                assert(r0[j] == z);
                assert(r0.contains(z));
                let a = choose|a: int| 0 <= a < init.len() && init[a] == z;
                assert(rows[a] == z);
            }
        }
        assert forall|z| waiting.contains(z) implies rows.contains(z) && !is_ready(z, placed) by {
            let j = choose|j: int| 0 <= j < waiting.len() && waiting[j] == z;
            if !is_ready(x, placed) && j == waiting.len() - 1 {
                assert(rows[rows.len() - 1] == z);
            } else {
                assert(w0[j] == z);
                assert(w0.contains(z));
                let a = choose|a: int| 0 <= a < init.len() && init[a] == z;
                assert(rows[a] == z);
            }
        }
        if unique_ids(rows) {
            assert(unique_ids(init));
            assert forall|i: int, j: int|
                0 <= i < ready.len() && 0 <= j < ready.len() && i != j implies ready[i].activity_id
                != ready[j].activity_id by {
                if is_ready(x, placed) && (i == ready.len() - 1 || j == ready.len() - 1) {
                    let o = if i == ready.len() - 1 { j } else { i };
                    assert(r0[o] == ready[o]);
                    assert(r0.contains(ready[o]));
                    let a = choose|a: int| 0 <= a < init.len() && init[a] == ready[o];
                    assert(rows[a] == ready[o]);
                } else {
                    assert(r0[i] == ready[i]);
                    assert(r0[j] == ready[j]);
                }
            }
            assert forall|i: int, j: int|
                0 <= i < waiting.len() && 0 <= j < waiting.len() && i != j implies waiting[i].activity_id
                != waiting[j].activity_id by {
                if !is_ready(x, placed) && (i == waiting.len() - 1 || j == waiting.len() - 1) {
                    let o = if i == waiting.len() - 1 { j } else { i };
                    assert(w0[o] == waiting[o]);
                    assert(w0.contains(waiting[o]));
                    let a = choose|a: int| 0 <= a < init.len() && init[a] == waiting[o];
                    assert(rows[a] == waiting[o]);
                } else {
                    assert(w0[i] == waiting[i]);
                    assert(w0[j] == waiting[j]);
                }
            }
        }
    }
}

/// What holds of the phases built from any pending rows against any placed
/// ids; the laws below take `placed` empty.
proof fn lemma_level_from(rows: Seq<ActivityWithRelatedDependencies>, placed: Seq<ActivityId>)
    ensures
        match level_from(rows, placed) {
            Ok(phases) => {
                &&& no_empty_phase(phases)
                &&& phases.flatten().to_multiset() == summaries_of(rows).to_multiset()
                &&& placed_by_rule(phases, rows, placed)
                &&& rows.len() > 0 ==> phases.len() > 0
                &&& forall|i: int|
                    0 <= i < rows.len() && is_ready(rows[i], placed) ==> phases[0].contains(
                        summary(rows[i]),
                    )
                &&& unique_ids(rows) ==> placed_once(phases)
            },
            Err(_) => true,
        },
    decreases rows.len(),
{
    broadcast use vstd::seq_lib::group_to_multiset_ensures;

    if rows.len() == 0 {
        assert(summaries_of(rows) =~= Seq::empty());
        assert(Seq::<Seq<ActivitySum>>::empty().flatten() =~= Seq::empty());
    } else {
        lemma_split_ready(rows, placed);
        let (ready, waiting) = split_ready(rows, placed);
        if ready.len() > 0 {
            lemma_level_from(waiting, ids_of(ready));
            if let Ok(rest) = level_from(waiting, ids_of(ready)) {
                let s = summaries_of(ready);
                let phases = seq![s] + rest;
                assert(level_from(rows, placed) == Ok::<Seq<Seq<ActivitySum>>, Seq<ActivityId>>(phases));
                assert(phases.drop_first() =~= rest);
                assert(phases.flatten() == s + rest.flatten());
                vstd::seq_lib::lemma_multiset_commutative(s, rest.flatten());
                assert(phase_ids(s) =~= ids_of(ready));
                assert forall|k: int| 0 <= k < phases.len() implies #[trigger] phases[k].len() > 0 by {
                    if k > 0 {
                        assert(phases[k] == rest[k - 1]);
                    }
                }
                assert forall|k: int, j: int| 0 <= k < phases.len() && 0 <= j < phases[k].len() implies #[trigger] entry_by_rule(phases, rows, placed, k, j) by {
                    if k == 0 {
                        assert(ready.contains(ready[j]));
                        let a = choose|a: int| 0 <= a < rows.len() && rows[a] == ready[j];
                        assert(phases[k][j] == summary(rows[a]));
                    } else {
                        assert(phases[k] == rest[k - 1]);
                        assert(entry_by_rule(rest, waiting, ids_of(ready), k - 1, j));
                        let b = choose|b: int|
                            0 <= b < waiting.len() && rest[k - 1][j] == #[trigger] summary(waiting[b]) && if k - 1 == 0 {
                                is_ready(waiting[b], ids_of(ready))
                            } else {
                                !is_ready(waiting[b], ids_of(ready)) && is_ready(waiting[b], phase_ids(rest[k - 2]))
                            };
                        assert(waiting.contains(waiting[b]));
                        let a = choose|a: int| 0 <= a < rows.len() && rows[a] == waiting[b];
                        if k > 1 {
                            assert(phases[k - 1] == rest[k - 2]);
                        }
                        assert(phases[k][j] == summary(rows[a]));
                    }
                }
                assert(placed_by_rule(phases, rows, placed));
                assert forall|i: int|
                    0 <= i < rows.len() && is_ready(rows[i], placed) implies phases[0].contains(
                    summary(rows[i]),
                ) by {
                    let j = choose|j: int| 0 <= j < ready.len() && ready[j] == rows[i];
                    assert(phases[0][j] == summary(rows[i]));
                }
                if unique_ids(rows) {
                    assert forall|k1: int, j1: int, k2: int, j2: int|
                        0 <= k1 < phases.len() && 0 <= j1 < phases[k1].len() && 0 <= k2 < phases.len() && 0
                            <= j2 < phases[k2].len() && (k1 != k2 || j1 != j2) implies #[trigger] phases[k1][j1].id
                            != #[trigger] phases[k2][j2].id by {
                        if k1 == 0 && k2 == 0 {
                            assert(phases[k1][j1].id == ready[j1].activity_id);
                            assert(phases[k2][j2].id == ready[j2].activity_id);
                        } else if k1 > 0 && k2 > 0 {
                            assert(phases[k1] == rest[k1 - 1]);
                            assert(phases[k2] == rest[k2 - 1]);
                            assert(rest[k1 - 1][j1].id != rest[k2 - 1][j2].id);
                        } else {
                            let (k0, j0, kr, jr) = if k1 == 0 { (k1, j1, k2, j2) } else { (k2, j2, k1, j1) };
                            assert(phases[kr] == rest[kr - 1]);
                            assert(entry_by_rule(rest, waiting, ids_of(ready), kr - 1, jr));
                            let b = choose|b: int|
                                0 <= b < waiting.len() && rest[kr - 1][jr] == #[trigger] summary(waiting[b]) && if kr - 1 == 0 {
                                    is_ready(waiting[b], ids_of(ready))
                                } else {
                                    !is_ready(waiting[b], ids_of(ready)) && is_ready(waiting[b], phase_ids(rest[kr - 2]))
                                };
                            assert(waiting.contains(waiting[b]));
                            assert(ready.contains(ready[j0]));
                            let a = choose|a: int| 0 <= a < rows.len() && rows[a] == waiting[b];
                            let c = choose|c: int| 0 <= c < rows.len() && rows[c] == ready[j0];
                            assert(phases[k0][j0].id == rows[c].activity_id);
                            assert(phases[kr][jr].id == rows[a].activity_id);
                        }
                    }
                }
            }
        }
    }
}

/// A row whose predecessor is neither placed nor any other row stays pending
/// in every pass, so the leveling ends in an error that names it.
proof fn lemma_never_ready(
    rows: Seq<ActivityWithRelatedDependencies>,
    placed: Seq<ActivityId>,
    row: ActivityWithRelatedDependencies,
    head: ActivityId,
)
    requires
        rows.contains(row),
        row.activity_id_head == Some(head),
        !placed.contains(head),
        forall|i: int| 0 <= i < rows.len() && rows[i].activity_id == head ==> rows[i] == row,
    ensures
        level_from(rows, placed) matches Err(ids) && ids.contains(row.activity_id),
    decreases rows.len(),
{
    lemma_split_ready(rows, placed);
    let (ready, waiting) = split_ready(rows, placed);
    let a = choose|a: int| 0 <= a < rows.len() && rows[a] == row;
    assert(waiting.contains(rows[a]));
    if ready.len() == 0 {
        assert(ids_of(rows)[a] == row.activity_id);
    } else {
        assert forall|m: int| 0 <= m < ready.len() implies ids_of(ready)[m] != head by {
            assert(ready.contains(ready[m]));
            let c = choose|c: int| 0 <= c < rows.len() && rows[c] == ready[m];
            if ready[m].activity_id == head {
                assert(rows[c] == row);
            }
        }
        assert forall|i: int|
            0 <= i < waiting.len() && waiting[i].activity_id == head implies waiting[i] == row by {
            assert(waiting.contains(waiting[i]));
            let c = choose|c: int| 0 <= c < rows.len() && rows[c] == waiting[i];
        }
        lemma_never_ready(waiting, ids_of(ready), row, head);
    }
}

pub open spec fn phases_outcome(r: Result<Vec<Phase>, SchedulingError>) -> Result<
    Seq<Seq<ActivitySum>>,
    Seq<ActivityId>,
> {
    match r {
        Ok(phases) => Ok(phases_view(phases@)),
        Err(e) => Err(e@),
    }
}

/// Prepends `done` to the phases of `rest`; an error stays as it is.
pub open spec fn after_phases(
    done: Seq<Seq<ActivitySum>>,
    rest: Result<Seq<Seq<ActivitySum>>, Seq<ActivityId>>,
) -> Result<Seq<Seq<ActivitySum>>, Seq<ActivityId>> {
    match rest {
        Ok(phases) => Ok(done + phases),
        Err(ids) => Err(ids),
    }
}

impl Default for Roadmap {
    /// The roadmap without phases.
    fn default() -> (r: Self)
        ensures
            r@ == Seq::<Seq<ActivitySum>>::empty(),
    {
        let r = Self { phases: Vec::new() };
        assert(r@ =~= Seq::<Seq<ActivitySum>>::empty());
        r
    }
}

impl Roadmap {
    /// Levels the rows into phases: each activity stands exactly one phase
    /// after its predecessor, and those without one stand in the first phase.
    pub fn new(acts_with_deps: Vec<ActivityWithRelatedDependencies>) -> (r: Result<
        Self,
        SchedulingError,
    >)
        ensures
            is_schedule_of(acts_with_deps@, r),
    {
        match get_phases(acts_with_deps) {
            Ok(phases) => Ok(Self { phases }),
            Err(e) => Err(e),
        }
    }
}

fn contains_id(ids: &Vec<ActivityId>, id: ActivityId) -> (r: bool)
    ensures
        r == ids@.contains(id),
{
    let mut i: usize = 0;
    while i < ids.len()
        invariant
            i <= ids.len(),
            forall|m: int| 0 <= m < i ==> ids@[m] != id,
        decreases ids.len() - i,
    {
        if ids[i] == id {
            return true;
        }
        i += 1;
    }
    false
}

fn row_is_ready(row: &ActivityWithRelatedDependencies, placed: &Vec<ActivityId>) -> (r: bool)
    ensures
        r == is_ready(*row, placed@),
{
    match row.activity_id_head {
        None => true,
        Some(head) => contains_id(placed, head),
    }
}

/// One leveling pass: the rows that are ready against `placed`, as they enter
/// the next phase and as ids, and the rows that still wait.
fn next_phase(rows: &Vec<ActivityWithRelatedDependencies>, placed: &Vec<ActivityId>) -> (r: (
    Vec<ActivitySum>,
    Vec<ActivityId>,
    Vec<ActivityWithRelatedDependencies>,
))
    ensures
        r.0@ == summaries_of(split_ready(rows@, placed@).0),
        r.1@ == ids_of(split_ready(rows@, placed@).0),
        r.2@ == split_ready(rows@, placed@).1,
{
    let mut ready: Vec<ActivitySum> = Vec::new();
    let mut ready_ids: Vec<ActivityId> = Vec::new();
    let mut waiting: Vec<ActivityWithRelatedDependencies> = Vec::new();
    let mut i: usize = 0;
    while i < rows.len()
        invariant
            i <= rows.len(),
            ready@ == summaries_of(split_ready(rows@.take(i as int), placed@).0),
            ready_ids@ == ids_of(split_ready(rows@.take(i as int), placed@).0),
            waiting@ == split_ready(rows@.take(i as int), placed@).1,
        decreases rows.len() - i,
    {
        let row = &rows[i];
        let ghost before = split_ready(rows@.take(i as int), placed@);
        assert(rows@.take(i + 1).drop_last() =~= rows@.take(i as int));
        assert(rows@.take(i + 1).last() == rows@[i as int]);
        if row_is_ready(row, placed) {
            ready.push(ActivitySum { id: row.activity_id, name: row.head_name.clone() });
            ready_ids.push(row.activity_id);
            assert(summaries_of(before.0.push(*row)) =~= summaries_of(before.0).push(summary(*row)));
            assert(ids_of(before.0.push(*row)) =~= ids_of(before.0).push(row.activity_id));
        } else {
            waiting.push(
                ActivityWithRelatedDependencies {
                    activity_id: row.activity_id,
                    head_name: row.head_name.clone(),
                    activity_id_head: row.activity_id_head,
                },
            );
        }
        i += 1;
    }
    assert(rows@.take(rows.len() as int) =~= rows@);
    (ready, ready_ids, waiting)
}

fn row_ids(rows: &Vec<ActivityWithRelatedDependencies>) -> (r: Vec<ActivityId>)
    ensures
        r@ == ids_of(rows@),
{
    let mut ids: Vec<ActivityId> = Vec::new();
    let mut i: usize = 0;
    while i < rows.len()
        invariant
            i <= rows.len(),
            ids@ == ids_of(rows@.take(i as int)),
        decreases rows.len() - i,
    {
        ids.push(rows[i].activity_id);
        i += 1;
        assert(ids_of(rows@.take(i as int)) =~= ids_of(rows@.take(i - 1)).push(rows@[i - 1].activity_id));
    }
    assert(rows@.take(rows.len() as int) =~= rows@);
    ids
}

/// Groups the rows into phases. Each pass places the rows that have no
/// predecessor or whose predecessor was placed by the pass just before; a
/// pass that places nothing while rows remain ends in an error naming them.
pub fn get_phases(acts_with_deps: Vec<ActivityWithRelatedDependencies>) -> (r: Result<
    Vec<Phase>,
    SchedulingError,
>)
    ensures
        phases_outcome(r) == schedule(acts_with_deps@),
{
    let mut phases: Vec<Phase> = Vec::new();
    let mut pending = acts_with_deps;
    let mut placed: Vec<ActivityId> = Vec::new();
    assert(after_phases(Seq::empty(), schedule(pending@)) =~= schedule(pending@)) by {
        if let Ok(ps) = schedule(pending@) {
            assert(Seq::<Seq<ActivitySum>>::empty() + ps =~= ps);
        }
    }
    while pending.len() > 0
        invariant
            schedule(acts_with_deps@) == after_phases(
                phases_view(phases@),
                level_from(pending@, placed@),
            ),
        decreases pending.len(),
    {
        let (ready, ready_ids, waiting) = next_phase(&pending, &placed);
        proof {
            lemma_split_ready(pending@, placed@);
        }
        if ready.len() == 0 {
            let activity_ids = row_ids(&pending);
            return Err(SchedulingError::UnresolvableDependency { activity_ids });
        }
        let ghost done = phases_view(phases@);
        let ghost sums = ready@;
        phases.push(Phase { activities: ready });
        assert(phases_view(phases@) =~= done.push(sums));
        assert(after_phases(done.push(sums), level_from(waiting@, ready_ids@)) == after_phases(
            done,
            level_from(pending@, placed@),
        )) by {
            if let Ok(rest) = level_from(waiting@, ready_ids@) {
                assert(done.push(sums) + rest =~= done + (seq![sums] + rest));
            }
        }
        pending = waiting;
        placed = ready_ids;
    }
    assert(phases_view(phases@) + Seq::<Seq<ActivitySum>>::empty() =~= phases_view(phases@));
    Ok(phases)
}

/// Every row is placed exactly once: taken together, the phases hold the
/// summaries of the input rows, each as often as it occurs there. No phase is
/// empty.
pub proof fn lemma_partition(rows: Seq<ActivityWithRelatedDependencies>)
    ensures
        schedule(rows) matches Ok(phases) ==> {
            &&& phases.flatten().to_multiset() == summaries_of(rows).to_multiset()
            &&& no_empty_phase(phases)
        },
{
    lemma_level_from(rows, Seq::empty());
}

/// The first phase holds every activity without a predecessor, and nothing
/// else.
pub open spec fn roots_first(
    phases: Seq<Seq<ActivitySum>>,
    rows: Seq<ActivityWithRelatedDependencies>,
) -> bool {
    &&& forall|i: int|
        0 <= i < rows.len() && rows[i].activity_id_head is None ==> phases.len() > 0
            && phases[0].contains(#[trigger] summary(rows[i]))
    &&& forall|j: int|
        0 < phases.len() && 0 <= j < phases[0].len() ==> #[trigger] is_root_of(rows, phases[0][j])
}

/// `a` is the summary of a row without a predecessor.
pub open spec fn is_root_of(rows: Seq<ActivityWithRelatedDependencies>, a: ActivitySum) -> bool {
    exists|i: int|
        0 <= i < rows.len() && rows[i].activity_id_head is None && a == #[trigger] summary(rows[i])
}

/// Every activity without a predecessor is placed in the first phase, and
/// only those are.
pub proof fn lemma_root_placement(rows: Seq<ActivityWithRelatedDependencies>)
    ensures
        schedule(rows) matches Ok(phases) ==> roots_first(phases, rows),
{
    lemma_level_from(rows, Seq::empty());
    if let Ok(phases) = schedule(rows) {
        assert forall|j: int|
            0 < phases.len() && 0 <= j < phases[0].len() implies #[trigger] is_root_of(
                rows,
                phases[0][j],
            ) by {
            assert(entry_by_rule(phases, rows, Seq::empty(), 0, j));
            let a = choose|a: int|
                0 <= a < rows.len() && phases[0][j] == #[trigger] summary(rows[a]) && is_ready(
                    rows[a],
                    Seq::empty(),
                );
            assert(rows[a].activity_id_head is None);
        }
        assert(roots_first(phases, rows));
    }
}

/// With ids unique among the rows, each id is placed once, and an activity
/// with a predecessor stands exactly one phase after the phase that holds the
/// predecessor.
pub proof fn lemma_depth(rows: Seq<ActivityWithRelatedDependencies>)
    requires
        unique_ids(rows),
    ensures
        schedule(rows) matches Ok(phases) ==> {
            &&& placed_once(phases)
            &&& forall|i: int, k: int, j: int|
                0 <= i < rows.len() && 0 <= k < phases.len() && 0 <= j < phases[k].len()
                    && #[trigger] phases[k][j].id == #[trigger] rows[i].activity_id ==> (
                rows[i].activity_id_head matches Some(head) ==> k >= 1 && has_id(
                    phases[k - 1],
                    head,
                ))
        },
{
    lemma_level_from(rows, Seq::empty());
    if let Ok(phases) = schedule(rows) {
        assert forall|i: int, k: int, j: int|
            0 <= i < rows.len() && 0 <= k < phases.len() && 0 <= j < phases[k].len()
                && #[trigger] phases[k][j].id == #[trigger] rows[i].activity_id implies (
        rows[i].activity_id_head matches Some(head) ==> k >= 1 && has_id(phases[k - 1], head)) by {
            assert(entry_by_rule(phases, rows, Seq::empty(), k, j));
            let a = choose|a: int|
                0 <= a < rows.len() && phases[k][j] == #[trigger] summary(rows[a]) && if k == 0 {
                    is_ready(rows[a], Seq::empty())
                } else {
                    !is_ready(rows[a], Seq::empty()) && is_ready(rows[a], phase_ids(phases[k - 1]))
                };
            assert(a == i);
            if let Some(head) = rows[i].activity_id_head {
                let ids = phase_ids(phases[k - 1]);
                let m = choose|m: int| 0 <= m < ids.len() && ids[m] == head;
                assert(phases[k - 1][m].id == head);
            }
        }
    }
}

/// Scheduling is a function of the rows and their order: two runs on the same
/// rows give the same phases, in the same order inside each phase, or the
/// same error.
pub proof fn lemma_deterministic(
    rows: Seq<ActivityWithRelatedDependencies>,
    first: Result<Roadmap, SchedulingError>,
    second: Result<Roadmap, SchedulingError>,
)
    requires
        is_schedule_of(rows, first),
        is_schedule_of(rows, second),
    ensures
        roadmap_outcome(first) == roadmap_outcome(second),
{
}

/// An activity that depends on itself is never placed: with ids unique among
/// the rows, scheduling fails and the error names it.
pub proof fn lemma_self_reference_fails(rows: Seq<ActivityWithRelatedDependencies>, i: int)
    requires
        unique_ids(rows),
        0 <= i < rows.len(),
        rows[i].activity_id_head == Some(rows[i].activity_id),
    ensures
        schedule(rows) matches Err(ids) && ids.contains(rows[i].activity_id),
{
    lemma_never_ready(rows, Seq::empty(), rows[i], rows[i].activity_id);
}

/// An activity whose predecessor is not among the rows is never placed:
/// scheduling fails and the error names it.
pub proof fn lemma_missing_predecessor_fails(
    rows: Seq<ActivityWithRelatedDependencies>,
    i: int,
    head: ActivityId,
)
    requires
        0 <= i < rows.len(),
        rows[i].activity_id_head == Some(head),
        forall|j: int| 0 <= j < rows.len() ==> rows[j].activity_id != head,
    ensures
        schedule(rows) matches Err(ids) && ids.contains(rows[i].activity_id),
{
    lemma_never_ready(rows, Seq::empty(), rows[i], head);
}

/// No rows, no phases.
pub proof fn lemma_empty_input()
    ensures
        schedule(Seq::empty()) == Ok::<Seq<Seq<ActivitySum>>, Seq<ActivityId>>(Seq::empty()),
{
}

} // verus!

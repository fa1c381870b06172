//! The timings of a build: the slowest targets, the time of each kind of work,
//! and the timeline of the targets.
use crate::sorting::{lemma_sorted_pairs, pair_leq, sort_pairs, sorted_pairs};
use crate::text::cat2;
use crate::titles::{Category, show_title, shown_title};
use crate::xcactivitylog::{
    Group, LogFacts, TIMELINE_MAX_TASKS, TIMELINE_SCHEMA_VERSION, TOP_N, Target, dominant,
    dominant_category_for_window,
};
use vstd::prelude::*;
use vstd::string::*;

verus! {

/// What the callers measured of one target.
#[derive(Debug)]
pub struct TargetMeasures {
    /// For each group of the target the order key of the time it took up.
    pub occupancy: Vec<i64>,
    /// The order key of the length of the target's window.
    pub duration: i64,
    /// That length in milliseconds.
    pub duration_ms: i64,
    /// The start and end of the window, in milliseconds from the build's start.
    pub start_ms: i64,
    pub end_ms: i64,
}

/// What the callers measured of a log.
#[derive(Debug)]
pub struct Measures {
    /// Whether the span of the build in milliseconds is a finite number.
    pub span_is_finite: bool,
    pub total_ms: i64,
    pub native_ms: i64,
    pub resources_ms: i64,
    pub packaging_ms: i64,
    pub other_ms: i64,
    pub build_started_at_ms: i64,
    pub wall_clock_ms: i64,
    pub targets: Vec<TargetMeasures>,
}

/// A target with all that is shown of it.
#[derive(Debug)]
pub struct TargetRow {
    pub path: String,
    pub category: Category,
    pub start_cf: i64,
    pub duration: i64,
    pub duration_ms: i64,
    pub start_ms: i64,
    pub end_ms: i64,
}

/// One of the slowest targets.
#[derive(Debug, PartialEq, Eq)]
pub struct TopTask {
    pub name: String,
    pub duration_ms: i64,
}

/// One task of a timeline.
#[derive(Debug, PartialEq, Eq)]
pub struct Task {
    pub path: String,
    pub category: Category,
    pub start_ms: i64,
    pub end_ms: i64,
}

/// The targets of a build in time.
#[derive(Debug, PartialEq, Eq)]
pub struct Timeline {
    pub schema_version: i64,
    pub build_started_at_ms: i64,
    pub wall_clock_ms: i64,
    pub tasks: Vec<Task>,
}

/// The time of each kind of work in milliseconds.
#[derive(Debug, Clone, Copy, PartialEq, Eq, Structural)]
pub struct CategorySums {
    pub managed_code: i64,
    pub native: i64,
    pub resources: i64,
    pub packaging: i64,
    pub other: i64,
}

/// What a log comes to.
#[derive(Debug)]
pub struct Parsed {
    pub total_ms: i64,
    pub top_tasks: Vec<TopTask>,
    pub category_sums: CategorySums,
    pub timeline: Option<Timeline>,
}

/// The rows in one order after another: the place of each in `order`.
pub open spec fn placed(keys: Seq<i64>) -> Seq<(i64, i64)> {
    Seq::new(keys.len(), |i: int| (keys[i], i as i64))
}

/// The places of the rows with the smallest keys first, rows with the same key
/// in their order.
pub open spec fn by_key(keys: Seq<i64>) -> Seq<int> {
    sorted_pairs(placed(keys)).map_values(|p: (i64, i64)| p.1 as int)
}

/// Sorting moves rows about: it loses none and makes none up.
pub proof fn law_by_key_is_a_permutation(keys: Seq<i64>)
    requires
        keys.len() <= i64::MAX,
    ensures
        by_key(keys).len() == keys.len(),
        forall|k: int| 0 <= k < keys.len() ==> 0 <= #[trigger] by_key(keys)[k] < keys.len(),
        forall|i: int| 0 <= i < keys.len() ==> by_key(keys).contains(i),
{
    broadcast use vstd::seq_lib::group_to_multiset_ensures;

    let p = placed(keys);
    let r = sorted_pairs(p);
    lemma_sorted_pairs(p);
    assert forall|k: int| 0 <= k < keys.len() implies 0 <= #[trigger] by_key(keys)[k]
        < keys.len() by {
        assert(r.contains(r[k]));
        assert(r.to_multiset().count(r[k]) > 0);
        assert(p.contains(r[k]));
        let i = choose|i: int| 0 <= i < p.len() && p[i] == r[k];
        assert(r[k].1 == i as i64);
    }
    assert forall|i: int| 0 <= i < keys.len() implies by_key(keys).contains(i) by {
        assert(p.contains(p[i]));
        assert(p.to_multiset().count(p[i]) > 0);
        assert(r.contains(p[i]));
        let k = choose|k: int| 0 <= k < r.len() && r[k] == p[i];
        assert(by_key(keys)[k] == i);
    }
}

/// Sorted rows come with ascending keys.
pub proof fn law_by_key_ascends(keys: Seq<i64>, a: int, b: int)
    requires
        keys.len() <= i64::MAX,
        0 <= a < b < keys.len(),
    ensures
        keys[by_key(keys)[a]] <= keys[by_key(keys)[b]],
        keys[by_key(keys)[a]] == keys[by_key(keys)[b]] ==> by_key(keys)[a] < by_key(keys)[b]
            || by_key(keys)[a] == by_key(keys)[b],
{
    broadcast use vstd::seq_lib::group_to_multiset_ensures;

    let p = placed(keys);
    let r = sorted_pairs(p);
    lemma_sorted_pairs(p);
    assert(pair_leq(r[a], r[b]));
    assert(r.contains(r[a]) && r.contains(r[b]));
    assert(r.to_multiset().count(r[a]) > 0 && r.to_multiset().count(r[b]) > 0);
    assert(p.contains(r[a]) && p.contains(r[b]));
    let i = choose|i: int| 0 <= i < p.len() && p[i] == r[a];
    let j = choose|j: int| 0 <= j < p.len() && p[j] == r[b];
    assert(r[a] == (keys[i], i as i64));
    assert(r[b] == (keys[j], j as i64));
}

fn order_by(keys: &Vec<i64>) -> (r: Vec<usize>)
    requires
        keys@.len() <= i64::MAX,
    ensures
        r@.len() == keys@.len(),
        forall|k: int| 0 <= k < r@.len() ==> #[trigger] r@[k] as int == by_key(keys@)[k],
        forall|k: int| 0 <= k < r@.len() ==> #[trigger] r@[k] < keys@.len(),
{
    let mut pairs: Vec<(i64, i64)> = Vec::new();
    let mut i: usize = 0;
    while i < keys.len()
        invariant
            i <= keys@.len() <= i64::MAX,
            pairs@.len() == i,
            forall|k: int| 0 <= k < i ==> #[trigger] pairs@[k] == (keys@[k], k as i64),
        decreases keys@.len() - i,
    {
        pairs.push((keys[i], i as i64));
        i += 1;
    }
    proof {
        assert(pairs@ =~= placed(keys@));
        lemma_sorted_pairs(placed(keys@));
        law_by_key_is_a_permutation(keys@);
    }
    let sorted = sort_pairs(&pairs);
    let mut out: Vec<usize> = Vec::new();
    let mut j: usize = 0;
    while j < sorted.len()
        invariant
            j <= sorted@.len(),
            sorted@ == sorted_pairs(placed(keys@)),
            sorted@.len() == keys@.len(),
            keys@.len() <= i64::MAX,
            forall|k: int| 0 <= k < keys@.len() ==> 0 <= #[trigger] by_key(keys@)[k] < keys@.len(),
            out@.len() == j,
            forall|k: int| 0 <= k < j ==> #[trigger] out@[k] as int == by_key(keys@)[k],
        decreases sorted@.len() - j,
    {
        proof {
            assert(by_key(keys@)[j as int] == sorted@[j as int].1 as int);
        }
        out.push(sorted[j].1 as usize);
        j += 1;
    }
    proof {
        assert forall|k: int| 0 <= k < out@.len() implies #[trigger] out@[k] < keys@.len() by {
            assert(out@[k] as int == by_key(keys@)[k]);
        }
    }
    out
}

/// Keys by which the longest row comes first.
pub open spec fn slowest_keys(rows: Seq<TargetRow>) -> Seq<i64> {
    rows.map_values(|r: TargetRow| (-(r.duration as int)) as i64)
}

fn list_slowest_keys(rows: &Vec<TargetRow>) -> (r: Vec<i64>)
    requires
        forall|i: int| 0 <= i < rows@.len() ==> (#[trigger] rows@[i]).duration > i64::MIN,
    ensures
        r@ == slowest_keys(rows@),
{
    let mut out: Vec<i64> = Vec::new();
    let mut i: usize = 0;
    while i < rows.len()
        invariant
            i <= rows@.len(),
            forall|k: int| 0 <= k < rows@.len() ==> (#[trigger] rows@[k]).duration > i64::MIN,
            out@.len() == i,
            forall|k: int| 0 <= k < i ==> #[trigger] out@[k] == slowest_keys(rows@)[k],
        decreases rows@.len() - i,
    {
        out.push(-rows[i].duration);
        i += 1;
    }
    proof {
        assert(out@ =~= slowest_keys(rows@));
    }
    out
}

/// The entries of a list of tasks, as text and numbers.
pub open spec fn top_views(v: Seq<TopTask>) -> Seq<(Seq<char>, i64)> {
    v.map_values(|t: TopTask| (t.name@, t.duration_ms))
}

/// The rows at the given places that took at least a millisecond.
pub open spec fn noticeable(rows: Seq<TargetRow>, places: Seq<int>) -> Seq<(Seq<char>, i64)>
    decreases places.len(),
{
    if places.len() == 0 {
        Seq::empty()
    } else {
        let r = noticeable(rows, places.drop_last());
        let row = rows[places.last()];
        if row.duration_ms >= 1 {
            r.push((shown_title(row.path@), row.duration_ms))
        } else {
            r
        }
    }
}

/// The slowest targets, the slowest first.
pub open spec fn slowest(rows: Seq<TargetRow>) -> Seq<(Seq<char>, i64)> {
    let order = by_key(slowest_keys(rows));
    noticeable(
        rows,
        if order.len() > TOP_N {
            order.take(TOP_N as int)
        } else {
            order
        },
    )
}

/// The slowest targets, the slowest first.
pub fn top_tasks(rows: &Vec<TargetRow>) -> (r: Vec<TopTask>)
    requires
        rows@.len() <= i64::MAX,
        forall|i: int| 0 <= i < rows@.len() ==> (#[trigger] rows@[i]).duration > i64::MIN,
    ensures
        top_views(r@) == slowest(rows@),
{
    let keys = list_slowest_keys(rows);
    let order = order_by(&keys);
    let ghost places = by_key(keys@);
    proof {
        law_by_key_is_a_permutation(keys@);
    }
    let n: usize = if order.len() > TOP_N {
        TOP_N
    } else {
        order.len()
    };
    let mut out: Vec<TopTask> = Vec::new();
    let mut i: usize = 0;
    proof {
        assert(top_views(out@) =~= noticeable(rows@, places.take(0)));
    }
    while i < n
        invariant
            i <= n <= order@.len(),
            order@.len() == rows@.len(),
            places.len() == order@.len(),
            forall|k: int| 0 <= k < order@.len() ==> #[trigger] order@[k] as int == places[k],
            forall|k: int| 0 <= k < order@.len() ==> #[trigger] order@[k] < rows@.len(),
            top_views(out@) == noticeable(rows@, places.take(i as int)),
        decreases n - i,
    {
        let row = &rows[order[i]];
        proof {
            assert(places.take(i + 1).drop_last() =~= places.take(i as int));
            assert(places.take(i + 1).last() == order@[i as int] as int);
        }
        if row.duration_ms >= 1 {
            let t = TopTask { name: show_title(row.path.as_str()), duration_ms: row.duration_ms };
            proof {
                assert(top_views(out@.push(t)) =~= top_views(out@).push(
                    (t.name@, t.duration_ms),
                ));
            }
            out.push(t);
        }
        i += 1;
    }
    proof {
        if order@.len() <= TOP_N {
            assert(places.take(n as int) =~= places);
        }
    }
    out
}

/// A task, as text and numbers.
pub struct TaskView {
    pub path: Seq<char>,
    pub category: Category,
    pub start_ms: i64,
    pub end_ms: i64,
}

pub open spec fn task_views(v: Seq<Task>) -> Seq<TaskView> {
    v.map_values(
        |t: Task|
            TaskView {
                path: t.path@,
                category: t.category,
                start_ms: t.start_ms,
                end_ms: t.end_ms,
            },
    )
}

pub open spec fn task_of(row: TargetRow) -> TaskView {
    TaskView {
        path: shown_title(row.path@),
        category: row.category,
        start_ms: row.start_ms,
        end_ms: row.end_ms,
    }
}

/// The places of the rows that a timeline keeps: all of them, or the slowest.
pub open spec fn kept_places(rows: Seq<TargetRow>) -> Seq<int> {
    if rows.len() > TIMELINE_MAX_TASKS {
        by_key(slowest_keys(rows)).take(TIMELINE_MAX_TASKS as int)
    } else {
        Seq::new(rows.len(), |i: int| i)
    }
}

/// The places of the rows of a timeline in the order of their starts.
pub open spec fn chronological(rows: Seq<TargetRow>) -> Seq<int> {
    let kept = kept_places(rows);
    by_key(kept.map_values(|i: int| rows[i].start_cf)).map_values(|k: int| kept[k])
}

/// The tasks of a timeline.
pub open spec fn timeline_tasks(rows: Seq<TargetRow>) -> Seq<TaskView> {
    chronological(rows).map_values(|i: int| task_of(rows[i]))
}

/// The timeline of the targets; none where there are no targets.
pub fn build_timeline_blob(
    rows: &Vec<TargetRow>,
    build_started_at_ms: i64,
    wall_clock_ms: i64,
) -> (r: Option<Timeline>)
    requires
        rows@.len() <= i64::MAX,
        forall|i: int| 0 <= i < rows@.len() ==> (#[trigger] rows@[i]).duration > i64::MIN,
    ensures
        r is None <==> rows@.len() == 0,
        r is Some ==> {
            &&& r->0.schema_version == TIMELINE_SCHEMA_VERSION
            &&& r->0.schema_version == 1
            &&& r->0.build_started_at_ms == build_started_at_ms
            &&& r->0.wall_clock_ms == if wall_clock_ms > 0 {
                wall_clock_ms as int
            } else {
                0
            }
            &&& task_views(r->0.tasks@) == timeline_tasks(rows@)
        },
{
    if rows.len() == 0 {
        return None;
    }
    let ghost kept = kept_places(rows@);
    let mut places: Vec<usize> = Vec::new();
    if rows.len() > TIMELINE_MAX_TASKS {
        let keys = list_slowest_keys(rows);
        let order = order_by(&keys);
        proof {
            law_by_key_is_a_permutation(keys@);
        }
        let mut i: usize = 0;
        while i < TIMELINE_MAX_TASKS
            invariant
                i <= TIMELINE_MAX_TASKS < rows@.len(),
                order@.len() == rows@.len(),
                kept == by_key(slowest_keys(rows@)).take(TIMELINE_MAX_TASKS as int),
                by_key(slowest_keys(rows@)).len() == rows@.len(),
                forall|k: int|
                    0 <= k < order@.len() ==> #[trigger] order@[k] as int == by_key(
                        slowest_keys(rows@),
                    )[k],
                forall|k: int| 0 <= k < order@.len() ==> #[trigger] order@[k] < rows@.len(),
                places@.len() == i,
                forall|k: int|
                    0 <= k < i ==> (#[trigger] places@[k]) as int == kept[k] && places@[k]
                        < rows@.len(),
            decreases TIMELINE_MAX_TASKS - i,
        {
            places.push(order[i]);
            i += 1;
        }
    } else {
        let mut i: usize = 0;
        while i < rows.len()
            invariant
                i <= rows@.len() <= TIMELINE_MAX_TASKS,
                kept == Seq::new(rows@.len(), |i: int| i),
                places@.len() == i,
                forall|k: int|
                    0 <= k < i ==> (#[trigger] places@[k]) as int == kept[k] && places@[k]
                        < rows@.len(),
            decreases rows@.len() - i,
        {
            places.push(i);
            i += 1;
        }
    }
    proof {
        law_by_key_is_a_permutation(slowest_keys(rows@));
        assert(places@.len() == kept.len());
    }
    let mut starts: Vec<i64> = Vec::new();
    let ghost start_keys = kept.map_values(|i: int| rows@[i].start_cf);
    let mut j: usize = 0;
    while j < places.len()
        invariant
            j <= places@.len(),
            places@.len() == kept.len(),
            start_keys == kept.map_values(|i: int| rows@[i].start_cf),
            forall|k: int|
                0 <= k < places@.len() ==> (#[trigger] places@[k]) as int == kept[k] && places@[k]
                    < rows@.len(),
            starts@.len() == j,
            forall|k: int| 0 <= k < j ==> #[trigger] starts@[k] == start_keys[k],
        decreases places@.len() - j,
    {
        starts.push(rows[places[j]].start_cf);
        j += 1;
    }
    proof {
        assert(starts@ =~= start_keys);
        law_by_key_is_a_permutation(start_keys);
    }
    let chrono = order_by(&starts);
    let mut tasks: Vec<Task> = Vec::new();
    let ghost want = timeline_tasks(rows@);
    let mut m: usize = 0;
    while m < chrono.len()
        invariant
            m <= chrono@.len(),
            chrono@.len() == places@.len(),
            places@.len() == kept.len(),
            kept == kept_places(rows@),
            start_keys == kept.map_values(|i: int| rows@[i].start_cf),
            want == timeline_tasks(rows@),
            by_key(start_keys).len() == chrono@.len(),
            forall|k: int|
                0 <= k < chrono@.len() ==> #[trigger] chrono@[k] as int == by_key(start_keys)[k],
            forall|k: int| 0 <= k < chrono@.len() ==> #[trigger] chrono@[k] < places@.len(),
            forall|k: int|
                0 <= k < places@.len() ==> (#[trigger] places@[k]) as int == kept[k] && places@[k]
                    < rows@.len(),
            tasks@.len() == m,
            forall|k: int| 0 <= k < m ==> #[trigger] task_views(tasks@)[k] == want[k],
        decreases chrono@.len() - m,
    {
        let row = &rows[places[chrono[m]]];
        let t = Task {
            path: show_title(row.path.as_str()),
            category: row.category,
            start_ms: row.start_ms,
            end_ms: row.end_ms,
        };
        proof {
            assert(chronological(rows@)[m as int] == kept[by_key(start_keys)[m as int]]);
            assert(want[m as int] == task_of(*row));
            assert forall|k: int| 0 <= k < m + 1 implies #[trigger] task_views(tasks@.push(t))[k]
                == want[k] by {
                if k < m {
                    assert(task_views(tasks@.push(t))[k] == task_views(tasks@)[k]);
                }
            }
        }
        tasks.push(t);
        m += 1;
    }
    proof {
        assert(task_views(tasks@) =~= want);
    }
    Some(
        Timeline {
            schema_version: TIMELINE_SCHEMA_VERSION,
            build_started_at_ms,
            wall_clock_ms: if wall_clock_ms > 0 {
                wall_clock_ms
            } else {
                0
            },
            tasks,
        },
    )
}

/// The measures fit the facts: one of each target, one number of each group.
pub open spec fn measures_fit(f: LogFacts, m: Measures) -> bool {
    &&& m.targets@.len() == f.targets@.len() <= i64::MAX
    &&& forall|i: int|
        0 <= i < m.targets@.len() ==> (#[trigger] m.targets@[i]).occupancy@.len()
            == f.targets@[i].groups@.len() && m.targets@[i].duration > i64::MIN
}

/// A row tells of a target and what was measured of it.
pub open spec fn row_tells(row: TargetRow, t: Target, m: TargetMeasures) -> bool {
    &&& row.path@ == t.path@
    &&& row.category == dominant(t.groups@.map_values(|g: Group| g.category), m.occupancy@)
    &&& row.start_cf == t.start_cf
    &&& row.duration == m.duration
    &&& row.duration_ms == m.duration_ms
    &&& row.start_ms == m.start_ms
    &&& row.end_ms == m.end_ms
}

/// The rows of the targets.
pub fn target_rows(facts: &LogFacts, m: &Measures) -> (r: Vec<TargetRow>)
    requires
        measures_fit(*facts, *m),
    ensures
        r@.len() == facts.targets@.len(),
        forall|i: int|
            0 <= i < r@.len() ==> row_tells(#[trigger] r@[i], facts.targets@[i], m.targets@[i]),
{
    let mut rows: Vec<TargetRow> = Vec::new();
    let mut i: usize = 0;
    while i < facts.targets.len()
        invariant
            i <= facts.targets@.len(),
            measures_fit(*facts, *m),
            rows@.len() == i,
            forall|k: int|
                0 <= k < i ==> row_tells(#[trigger] rows@[k], facts.targets@[k], m.targets@[k]),
        decreases facts.targets@.len() - i,
    {
        let t = &facts.targets[i];
        let w = &m.targets[i];
        let row = TargetRow {
            path: t.path.clone(),
            category: dominant_category_for_window(&t.groups, &w.occupancy),
            start_cf: t.start_cf,
            duration: w.duration,
            duration_ms: w.duration_ms,
            start_ms: w.start_ms,
            end_ms: w.end_ms,
        };
        rows.push(row);
        i += 1;
    }
    rows
}

/// What a log comes to, given what was measured of it; nothing where the build's
/// span is no finite number.
pub fn finish_stream(facts: &LogFacts, m: &Measures) -> (r: Option<Parsed>)
    requires
        measures_fit(*facts, *m),
    ensures
        r is Some <==> m.span_is_finite,
        r is Some ==> {
            &&& r->0.total_ms == if m.total_ms > 0 {
                m.total_ms as int
            } else {
                0
            }
            &&& r->0.category_sums == (CategorySums {
                managed_code: 0,
                native: m.native_ms,
                resources: m.resources_ms,
                packaging: m.packaging_ms,
                other: m.other_ms,
            })
            &&& exists|rows: Seq<TargetRow>|
                {
                    &&& rows.len() == facts.targets@.len()
                    &&& forall|i: int|
                        0 <= i < rows.len() ==> row_tells(
                            #[trigger] rows[i],
                            facts.targets@[i],
                            m.targets@[i],
                        )
                    &&& top_views(r->0.top_tasks@) == #[trigger] slowest(rows)
                    &&& r->0.timeline is None <==> rows.len() == 0
                    &&& r->0.timeline is Some ==> {
                        let t = r->0.timeline->0;
                        &&& t.schema_version == TIMELINE_SCHEMA_VERSION
                        &&& t.schema_version == 1
                        &&& t.build_started_at_ms == m.build_started_at_ms
                        &&& t.wall_clock_ms == if m.wall_clock_ms > 0 {
                            m.wall_clock_ms as int
                        } else {
                            0
                        }
                        &&& task_views(t.tasks@) == timeline_tasks(rows)
                    }
                }
        },
{
    if !m.span_is_finite {
        return None;
    }
    let rows = target_rows(facts, m);
    proof {
        assert forall|i: int| 0 <= i < rows@.len() implies (#[trigger] rows@[i]).duration
            > i64::MIN by {
            assert(row_tells(rows@[i], facts.targets@[i], m.targets@[i]));
        }
    }
    let top = top_tasks(&rows);
    let timeline = build_timeline_blob(&rows, m.build_started_at_ms, m.wall_clock_ms);
    let r = Parsed {
        total_ms: if m.total_ms > 0 {
            m.total_ms
        } else {
            0
        },
        top_tasks: top,
        category_sums: CategorySums {
            managed_code: 0,
            native: m.native_ms,
            resources: m.resources_ms,
            packaging: m.packaging_ms,
            other: m.other_ms,
        },
        timeline,
    };
    proof {
        assert(top_views(r.top_tasks@) == slowest(rows@));
    }
    Some(r)
}

impl CategorySums {
    /// The names and times of the categories, in the order in which they are
    /// told.
    pub open spec fn listed(self) -> Seq<(Seq<char>, i64)> {
        seq![
            ("managed_code"@, self.managed_code),
            ("native"@, self.native),
            ("resources"@, self.resources),
            ("packaging"@, self.packaging),
            ("other"@, self.other),
        ]
    }

    /// The names and times of the categories, in the order in which they are
    /// told.
    pub fn iter(&self) -> (r: [(&'static str, i64); 5])
        ensures
            forall|i: int|
                0 <= i < 5 ==> ((#[trigger] r@[i]).0@, r@[i].1) == self.listed()[i],
    {
        [
            ("managed_code", self.managed_code),
            ("native", self.native),
            ("resources", self.resources),
            ("packaging", self.packaging),
            ("other", self.other),
        ]
    }
}

/// The summary of the timings that goes into the record of a build.
#[derive(Debug, PartialEq, Eq)]
pub struct TimingsSummary {
    pub total_ms: Option<i64>,
    pub top_tasks: Vec<TopTask>,
    /// The categories that took time, by `<name>_ms`.
    pub buckets: Vec<(String, i64)>,
}

/// The two products of a log.
#[derive(Debug, PartialEq, Eq)]
pub struct BuildTimings {
    pub summary: Option<TimingsSummary>,
    pub timeline: Option<Timeline>,
}

impl Default for BuildTimings {
    fn default() -> (r: BuildTimings)
        ensures
            r.summary is None,
            r.timeline is None,
    {
        BuildTimings { summary: None, timeline: None }
    }
}

pub open spec fn bucket_views(v: Seq<(String, i64)>) -> Seq<(Seq<char>, i64)> {
    v.map_values(|b: (String, i64)| (b.0@, b.1))
}

/// The categories that took time, by `<name>_ms`.
pub open spec fn positive_buckets(s: Seq<(Seq<char>, i64)>) -> Seq<(Seq<char>, i64)>
    decreases s.len(),
{
    if s.len() == 0 {
        Seq::empty()
    } else {
        let r = positive_buckets(s.drop_last());
        if s.last().1 > 0 {
            r.push((s.last().0 + "_ms"@, s.last().1))
        } else {
            r
        }
    }
}

/// The products of what a log comes to, if there is one. What is zero is left
/// out, and a summary of which nothing is left is left out too.
pub fn resolve(parsed: Option<Parsed>) -> (r: BuildTimings)
    ensures
        parsed is None ==> r.summary is None && r.timeline is None,
        parsed is Some ==> {
            let p = parsed->0;
            let buckets = positive_buckets(p.category_sums.listed());
            &&& r.summary is None <==> p.total_ms <= 0 && p.top_tasks@.len() == 0 && buckets.len()
                == 0
            &&& r.summary is Some ==> {
                &&& r.summary->0.total_ms == (if p.total_ms > 0 {
                    Some(p.total_ms)
                } else {
                    None
                })
                &&& r.summary->0.top_tasks == p.top_tasks
                &&& bucket_views(r.summary->0.buckets@) == buckets
            }
            &&& r.timeline == (if p.timeline is Some && p.timeline->0.tasks@.len() > 0 {
                p.timeline
            } else {
                None
            })
        },
        parsed is Some && r.summary is Some ==> {
            let c = parsed->0.category_sums;
            let told = bucket_views(r.summary->0.buckets@);
            forall|v: i64|
                #![auto]
                {
                    &&& told.contains(("managed_code_ms"@, v)) <==> v == c.managed_code && v > 0
                    &&& told.contains(("native_ms"@, v)) <==> v == c.native && v > 0
                    &&& told.contains(("resources_ms"@, v)) <==> v == c.resources && v > 0
                    &&& told.contains(("packaging_ms"@, v)) <==> v == c.packaging && v > 0
                    &&& told.contains(("other_ms"@, v)) <==> v == c.other && v > 0
                }
        },
        parsed is Some ==> (r.summary is None <==> {
            let c = parsed->0.category_sums;
            &&& parsed->0.total_ms <= 0
            &&& parsed->0.top_tasks@.len() == 0
            &&& c.managed_code <= 0 && c.native <= 0 && c.resources <= 0 && c.packaging <= 0
                && c.other <= 0
        }),
{
    match parsed {
        None => BuildTimings { summary: None, timeline: None },
        Some(p) => {
            let sums = p.category_sums.iter();
            let ghost listed = p.category_sums.listed();
            let mut buckets: Vec<(String, i64)> = Vec::new();
            let mut i: usize = 0;
            proof {
                assert(bucket_views(buckets@) =~= positive_buckets(listed.take(0)));
            }
            while i < 5
                invariant
                    i <= 5,
                    listed.len() == 5,
                    sums@.len() == 5,
                    forall|k: int|
                        0 <= k < 5 ==> ((#[trigger] sums@[k]).0@, sums@[k].1) == listed[k],
                    bucket_views(buckets@) == positive_buckets(listed.take(i as int)),
                decreases 5 - i,
            {
                let (name, value) = sums[i];
                proof {
                    assert(listed.take(i + 1).drop_last() =~= listed.take(i as int));
                    assert(listed.take(i + 1).last() == (name@, value));
                }
                if value > 0 {
                    let b = (cat2(name, "_ms"), value);
                    proof {
                        assert(bucket_views(buckets@.push(b)) =~= bucket_views(buckets@).push(
                            (b.0@, b.1),
                        ));
                    }
                    buckets.push(b);
                }
                i += 1;
            }
            proof {
                assert(listed.take(5) =~= listed);
                let told = bucket_views(buckets@);
                let c = p.category_sums;
                assert forall|v: i64|
                    #![auto]
                    {
                        &&& told.contains(("managed_code_ms"@, v)) <==> v == c.managed_code && v > 0
                        &&& told.contains(("native_ms"@, v)) <==> v == c.native && v > 0
                        &&& told.contains(("resources_ms"@, v)) <==> v == c.resources && v > 0
                        &&& told.contains(("packaging_ms"@, v)) <==> v == c.packaging && v > 0
                        &&& told.contains(("other_ms"@, v)) <==> v == c.other && v > 0
                    } by {
                    law_each_kind_of_work_has_its_bucket(c, v);
                }
                law_no_work_no_bucket(p.category_sums);
                assert(buckets@.len() == bucket_views(buckets@).len());
            }
            let total_ms = if p.total_ms > 0 {
                Some(p.total_ms)
            } else {
                None
            };
            let summary = if total_ms.is_none() && p.top_tasks.len() == 0 && buckets.len() == 0 {
                None
            } else {
                Some(TimingsSummary { total_ms, top_tasks: p.top_tasks, buckets })
            };
            let timeline = match p.timeline {
                Some(t) => if t.tasks.len() > 0 {
                    Some(t)
                } else {
                    None
                },
                None => None,
            };
            BuildTimings { summary, timeline }
        },
    }
}

proof fn lemma_bucket_of(s: Seq<(Seq<char>, i64)>, name: Seq<char>, v: i64)
    ensures
        positive_buckets(s).contains((name, v)) <==> exists|i: int|
            0 <= i < s.len() && (#[trigger] s[i]).0 + "_ms"@ == name && s[i].1 == v && v > 0,
    decreases s.len(),
{
    if s.len() > 0 {
        let d = s.drop_last();
        lemma_bucket_of(d, name, v);
        let r = positive_buckets(d);
        let out = positive_buckets(s);
        let b = (s.last().0 + "_ms"@, s.last().1);
        if s.last().1 > 0 {
            assert(out[r.len() as int] == b);
            if out.contains((name, v)) {
                let k = choose|k: int| 0 <= k < out.len() && out[k] == (name, v);
                if k < r.len() {
                    assert(r[k] == (name, v));
                    let i = choose|i: int|
                        0 <= i < d.len() && (#[trigger] d[i]).0 + "_ms"@ == name && d[i].1 == v && v
                            > 0;
                    assert(s[i] == d[i]);
                } else {
                    assert(s[s.len() - 1].0 + "_ms"@ == name);
                }
            }
        }
        if exists|i: int|
            0 <= i < s.len() && (#[trigger] s[i]).0 + "_ms"@ == name && s[i].1 == v && v > 0 {
            let i = choose|i: int|
                0 <= i < s.len() && (#[trigger] s[i]).0 + "_ms"@ == name && s[i].1 == v && v > 0;
            if i < d.len() {
                assert(d[i] == s[i]);
                let k = choose|k: int| 0 <= k < r.len() && r[k] == (name, v);
                assert(out[k] == (name, v));
            } else {
                assert(out[r.len() as int] == (name, v));
            }
        }
        if s.last().1 <= 0 && out.contains((name, v)) {
            let i = choose|i: int|
                0 <= i < d.len() && (#[trigger] d[i]).0 + "_ms"@ == name && d[i].1 == v && v > 0;
            assert(s[i] == d[i]);
        }
    }
}

proof fn lemma_bucket_names()
    ensures
        "managed_code"@ + "_ms"@ == "managed_code_ms"@,
        "native"@ + "_ms"@ == "native_ms"@,
        "resources"@ + "_ms"@ == "resources_ms"@,
        "packaging"@ + "_ms"@ == "packaging_ms"@,
        "other"@ + "_ms"@ == "other_ms"@,
        "managed_code_ms"@[0] == 'm',
        "native_ms"@[0] == 'n',
        "resources_ms"@[0] == 'r',
        "packaging_ms"@[0] == 'p',
        "other_ms"@[0] == 'o',
{
    reveal_strlit("_ms");
    reveal_strlit("managed_code");
    reveal_strlit("native");
    reveal_strlit("resources");
    reveal_strlit("packaging");
    reveal_strlit("other");
    reveal_strlit("managed_code_ms");
    reveal_strlit("native_ms");
    reveal_strlit("resources_ms");
    reveal_strlit("packaging_ms");
    reveal_strlit("other_ms");
    assert("managed_code"@ + "_ms"@ =~= "managed_code_ms"@);
    assert("native"@ + "_ms"@ =~= "native_ms"@);
    assert("resources"@ + "_ms"@ =~= "resources_ms"@);
    assert("packaging"@ + "_ms"@ =~= "packaging_ms"@);
    assert("other"@ + "_ms"@ =~= "other_ms"@);
}

/// In the summary of the timings the time of each kind of work stands under its own name,
/// `managed_code_ms`, `native_ms`, `resources_ms`, `packaging_ms` or `other_ms`, exactly
/// where it is positive.
pub proof fn law_each_kind_of_work_has_its_bucket(c: CategorySums, v: i64)
    ensures
        ({
            let told = positive_buckets(c.listed());
            &&& told.contains(("managed_code_ms"@, v)) <==> v == c.managed_code && v > 0
            &&& told.contains(("native_ms"@, v)) <==> v == c.native && v > 0
            &&& told.contains(("resources_ms"@, v)) <==> v == c.resources && v > 0
            &&& told.contains(("packaging_ms"@, v)) <==> v == c.packaging && v > 0
            &&& told.contains(("other_ms"@, v)) <==> v == c.other && v > 0
        }),
{
    lemma_bucket_names();
    let s = c.listed();
    lemma_one_bucket(c, "managed_code_ms"@, v);
    lemma_one_bucket(c, "native_ms"@, v);
    lemma_one_bucket(c, "resources_ms"@, v);
    lemma_one_bucket(c, "packaging_ms"@, v);
    lemma_one_bucket(c, "other_ms"@, v);
}

proof fn lemma_one_bucket(c: CategorySums, name: Seq<char>, v: i64)
    ensures
        positive_buckets(c.listed()).contains((name, v)) <==> v > 0 && {
            ||| name == "managed_code_ms"@ && v == c.managed_code
            ||| name == "native_ms"@ && v == c.native
            ||| name == "resources_ms"@ && v == c.resources
            ||| name == "packaging_ms"@ && v == c.packaging
            ||| name == "other_ms"@ && v == c.other
        },
{
    lemma_bucket_names();
    let s = c.listed();
    lemma_bucket_of(s, name, v);
    assert(s[0].0 + "_ms"@ == "managed_code_ms"@ && s[0].1 == c.managed_code);
    assert(s[1].0 + "_ms"@ == "native_ms"@ && s[1].1 == c.native);
    assert(s[2].0 + "_ms"@ == "resources_ms"@ && s[2].1 == c.resources);
    assert(s[3].0 + "_ms"@ == "packaging_ms"@ && s[3].1 == c.packaging);
    assert(s[4].0 + "_ms"@ == "other_ms"@ && s[4].1 == c.other);
}

/// There is no bucket at all exactly where no kind of work took time.
pub proof fn law_no_work_no_bucket(c: CategorySums)
    ensures
        positive_buckets(c.listed()).len() == 0 <==> c.managed_code <= 0 && c.native <= 0
            && c.resources <= 0 && c.packaging <= 0 && c.other <= 0,
{
    let told = positive_buckets(c.listed());
    law_each_kind_of_work_has_its_bucket(c, c.managed_code);
    law_each_kind_of_work_has_its_bucket(c, c.native);
    law_each_kind_of_work_has_its_bucket(c, c.resources);
    law_each_kind_of_work_has_its_bucket(c, c.packaging);
    law_each_kind_of_work_has_its_bucket(c, c.other);
    if told.len() > 0 {
        assert(told.contains(told[0]));
        lemma_one_bucket(c, told[0].0, told[0].1);
    }
}

/// A place that is chosen for the slowest rows: the rows at the other places are no slower.
pub open spec fn at_least_as_slow(rows: Seq<TargetRow>, chosen: Seq<int>, i: int) -> bool {
    forall|k: int|
        0 <= k < chosen.len() ==> 0 <= #[trigger] chosen[k] < rows.len() && rows[chosen[k]].duration
            >= rows[i].duration
}

proof fn lemma_slowest_first(rows: Seq<TargetRow>, a: int, b: int)
    requires
        rows.len() <= i64::MAX,
        forall|i: int| 0 <= i < rows.len() ==> (#[trigger] rows[i]).duration > i64::MIN,
        0 <= a < b < rows.len(),
    ensures
        by_key(slowest_keys(rows)).len() == rows.len(),
        0 <= by_key(slowest_keys(rows))[a] < rows.len(),
        0 <= by_key(slowest_keys(rows))[b] < rows.len(),
        rows[by_key(slowest_keys(rows))[a]].duration >= rows[by_key(slowest_keys(rows))[b]].duration,
{
    let keys = slowest_keys(rows);
    law_by_key_is_a_permutation(keys);
    law_by_key_ascends(keys, a, b);
    let i = by_key(keys)[a];
    let j = by_key(keys)[b];
    assert(rows[i].duration > i64::MIN && rows[j].duration > i64::MIN);
    assert(keys[i] == -(rows[i].duration as int));
    assert(keys[j] == -(rows[j].duration as int));
}

proof fn lemma_noticeable(rows: Seq<TargetRow>, places: Seq<int>, x: (Seq<char>, i64))
    ensures
        noticeable(rows, places).len() <= places.len(),
        noticeable(rows, places).contains(x) <==> exists|k: int|
            0 <= k < places.len() && rows[#[trigger] places[k]].duration_ms >= 1 && x == (
                shown_title(rows[places[k]].path@),
                rows[places[k]].duration_ms,
            ),
    decreases places.len(),
{
    if places.len() > 0 {
        let d = places.drop_last();
        lemma_noticeable(rows, d, x);
        let r = noticeable(rows, d);
        let out = noticeable(rows, places);
        let row = rows[places.last()];
        let b = (shown_title(row.path@), row.duration_ms);
        if row.duration_ms >= 1 {
            assert(out[r.len() as int] == b);
            if out.contains(x) {
                let k = choose|k: int| 0 <= k < out.len() && out[k] == x;
                if k < r.len() {
                    assert(r[k] == x);
                    let i = choose|i: int|
                        0 <= i < d.len() && rows[#[trigger] d[i]].duration_ms >= 1 && x == (
                            shown_title(rows[d[i]].path@),
                            rows[d[i]].duration_ms,
                        );
                    assert(places[i] == d[i]);
                } else {
                    assert(places[places.len() - 1] == places.last());
                }
            }
        } else if out.contains(x) {
            let i = choose|i: int|
                0 <= i < d.len() && rows[#[trigger] d[i]].duration_ms >= 1 && x == (
                    shown_title(rows[d[i]].path@),
                    rows[d[i]].duration_ms,
                );
            assert(places[i] == d[i]);
        }
        if exists|k: int|
            0 <= k < places.len() && rows[#[trigger] places[k]].duration_ms >= 1 && x == (
                shown_title(rows[places[k]].path@),
                rows[places[k]].duration_ms,
            ) {
            let k = choose|k: int|
                0 <= k < places.len() && rows[#[trigger] places[k]].duration_ms >= 1 && x == (
                    shown_title(rows[places[k]].path@),
                    rows[places[k]].duration_ms,
                );
            if k < d.len() {
                assert(d[k] == places[k]);
                let q = choose|q: int| 0 <= q < r.len() && r[q] == x;
                assert(out[q] == x);
            } else {
                assert(out[r.len() as int] == x);
            }
        }
    }
}

/// The slowest targets are at most ten; each is told with its own title and time, of at
/// least a millisecond; and a target that is not told, though it took as long as that, is
/// one that ten others are at least as slow as.
pub proof fn law_the_slowest_are_told(rows: Seq<TargetRow>, i: int)
    requires
        rows.len() <= i64::MAX,
        forall|j: int| 0 <= j < rows.len() ==> (#[trigger] rows[j]).duration > i64::MIN,
        0 <= i < rows.len(),
    ensures
        slowest(rows).len() <= 10,
        forall|k: int|
            0 <= k < slowest(rows).len() ==> exists|j: int|
                0 <= j < rows.len() && (#[trigger] rows[j]).duration_ms >= 1 && (#[trigger] slowest(
                    rows,
                )[k]) == (shown_title(rows[j].path@), rows[j].duration_ms),
        rows[i].duration_ms >= 1 ==> {
            ||| slowest(rows).contains((shown_title(rows[i].path@), rows[i].duration_ms))
            ||| exists|chosen: Seq<int>|
                chosen.len() == 10 && chosen.no_duplicates() && #[trigger] at_least_as_slow(
                    rows,
                    chosen,
                    i,
                )
        },
{
    let keys = slowest_keys(rows);
    let order = by_key(keys);
    law_by_key_is_a_permutation(keys);
    let top = if order.len() > TOP_N {
        order.take(TOP_N as int)
    } else {
        order
    };
    let out = slowest(rows);
    lemma_noticeable(rows, top, (Seq::empty(), 0));
    assert forall|k: int| 0 <= k < out.len() implies exists|j: int|
        0 <= j < rows.len() && (#[trigger] rows[j]).duration_ms >= 1 && (#[trigger] out[k]) == (
            shown_title(rows[j].path@),
            rows[j].duration_ms,
        ) by {
        lemma_noticeable(rows, top, out[k]);
        assert(out.contains(out[k]));
        let p = choose|p: int|
            0 <= p < top.len() && rows[#[trigger] top[p]].duration_ms >= 1 && out[k] == (
                shown_title(rows[top[p]].path@),
                rows[top[p]].duration_ms,
            );
        assert(top[p] == order[p]);
        assert(rows[order[p]].duration_ms >= 1);
    }
    if rows[i].duration_ms >= 1 {
        let x = (shown_title(rows[i].path@), rows[i].duration_ms);
        lemma_noticeable(rows, top, x);
        assert(order.contains(i));
        let p = choose|p: int| 0 <= p < order.len() && order[p] == i;
        if p < top.len() {
            assert(top[p] == i);
        } else {
            assert forall|k: int| 0 <= k < top.len() implies 0 <= #[trigger] top[k] < rows.len()
                && rows[top[k]].duration >= rows[i].duration by {
                assert(top[k] == order[k]);
                lemma_slowest_first(rows, k, p);
            }
            assert(at_least_as_slow(rows, top, i));
            lemma_distinct(keys);
            assert(top.no_duplicates());
        }
    }
}

/// The places of sorted rows are all different.
proof fn lemma_distinct(keys: Seq<i64>)
    requires
        keys.len() <= i64::MAX,
    ensures
        by_key(keys).no_duplicates(),
{
    broadcast use vstd::seq_lib::group_to_multiset_ensures;

    law_by_key_is_a_permutation(keys);
    let p = placed(keys);
    let r = sorted_pairs(p);
    lemma_sorted_pairs(p);
    assert(p.no_duplicates()) by {
        assert forall|i: int, j: int| 0 <= i < p.len() && 0 <= j < p.len() && i != j implies p[i]
            != p[j] by {
            assert(p[i].1 == i as i64 && p[j].1 == j as i64);
        }
    }
    p.lemma_multiset_has_no_duplicates();
    r.lemma_multiset_has_no_duplicates_conv();
    let out = by_key(keys);
    assert forall|a: int, b: int| 0 <= a < out.len() && 0 <= b < out.len() && a != b implies out[a]
        != out[b] by {
        assert(r[a] != r[b]);
        assert(r.contains(r[a]) && r.contains(r[b]));
        assert(r.to_multiset().count(r[a]) > 0 && r.to_multiset().count(r[b]) > 0);
        assert(p.contains(r[a]) && p.contains(r[b]));
        let i = choose|i: int| 0 <= i < p.len() && p[i] == r[a];
        let j = choose|j: int| 0 <= j < p.len() && p[j] == r[b];
        assert(r[a] == (keys[i], i as i64));
        assert(r[b] == (keys[j], j as i64));
    }
}

/// A timeline shows its targets in the order of their starts, each with its own title,
/// category and times; all of them where they are at most ten thousand, and otherwise ten
/// thousand than which no other is slower.
pub proof fn law_timelines_run_forward(rows: Seq<TargetRow>, i: int)
    requires
        rows.len() <= i64::MAX,
        forall|j: int| 0 <= j < rows.len() ==> (#[trigger] rows[j]).duration > i64::MIN,
        0 <= i < rows.len(),
    ensures
        timeline_tasks(rows).len() == chronological(rows).len(),
        chronological(rows).len() == if rows.len() <= 10_000 {
            rows.len()
        } else {
            10_000
        },
        forall|a: int|
            0 <= a < chronological(rows).len() ==> {
                let j = #[trigger] chronological(rows)[a];
                &&& 0 <= j < rows.len()
                &&& timeline_tasks(rows)[a].path == shown_title(rows[j].path@)
                &&& timeline_tasks(rows)[a].category == rows[j].category
                &&& timeline_tasks(rows)[a].start_ms == rows[j].start_ms
                &&& timeline_tasks(rows)[a].end_ms == rows[j].end_ms
            },
        forall|a: int, b: int|
            0 <= a < b < chronological(rows).len() ==> rows[#[trigger] chronological(rows)[a]].start_cf
                <= rows[#[trigger] chronological(rows)[b]].start_cf,
        rows.len() <= 10_000 ==> chronological(rows).contains(i),
        !chronological(rows).contains(i) ==> at_least_as_slow(rows, chronological(rows), i),
{
    let kept = kept_places(rows);
    let order = by_key(slowest_keys(rows));
    law_by_key_is_a_permutation(slowest_keys(rows));
    assert forall|k: int| 0 <= k < kept.len() implies 0 <= #[trigger] kept[k] < rows.len() by {
        if rows.len() > TIMELINE_MAX_TASKS {
            assert(kept[k] == order[k]);
        }
    }
    let starts = kept.map_values(|i: int| rows[i].start_cf);
    law_by_key_is_a_permutation(starts);
    let c = chronological(rows);
    assert forall|a: int| 0 <= a < c.len() implies 0 <= #[trigger] c[a] < rows.len() && c[a]
        == kept[by_key(starts)[a]] by {
        assert(0 <= by_key(starts)[a] < kept.len());
    }
    assert forall|a: int, b: int| 0 <= a < b < c.len() implies rows[#[trigger] c[a]].start_cf
        <= rows[#[trigger] c[b]].start_cf by {
        law_by_key_ascends(starts, a, b);
        assert(starts[by_key(starts)[a]] == rows[c[a]].start_cf);
        assert(starts[by_key(starts)[b]] == rows[c[b]].start_cf);
    }
    if kept.contains(i) {
        let k = choose|k: int| 0 <= k < kept.len() && kept[k] == i;
        assert(by_key(starts).contains(k));
        let a = choose|a: int| 0 <= a < by_key(starts).len() && by_key(starts)[a] == k;
        assert(c[a] == i);
    }
    if rows.len() <= TIMELINE_MAX_TASKS {
        assert(kept[i] == i);
    } else if !c.contains(i) {
        assert(order.contains(i));
        let p = choose|p: int| 0 <= p < order.len() && order[p] == i;
        assert(p >= TIMELINE_MAX_TASKS) by {
            if p < TIMELINE_MAX_TASKS {
                assert(kept[p] == i);
            }
        }
        assert forall|a: int| 0 <= a < c.len() implies 0 <= #[trigger] c[a] < rows.len()
            && rows[c[a]].duration >= rows[i].duration by {
            let k = by_key(starts)[a];
            assert(c[a] == kept[k]);
            assert(kept[k] == order[k]);
            lemma_slowest_first(rows, k, p);
        }
    }
}

/// The row of a target tells its path, when it began and how long it took, as measured.
pub proof fn law_rows_tell_of_their_target(row: TargetRow, t: Target, m: TargetMeasures)
    requires
        row_tells(row, t, m),
    ensures
        row.path@ == t.path@,
        row.start_cf == t.start_cf,
        row.duration == m.duration,
        row.duration_ms == m.duration_ms,
        row.start_ms == m.start_ms,
        row.end_ms == m.end_ms,
{
}

} // verus!

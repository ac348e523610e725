//! The aggregator: flattens every package's task forest to its leaf tasks,
//! sums each leaf's duration per `(package, container, task)` key across all
//! packages given, and ranks the summed totals in descending order.
//!
//! Only leaf tasks are counted: a task with children spans its children's
//! time, so summing it as well would count that time twice.

use vstd::math::abs;
use vstd::prelude::*;

use crate::model::{package_model, packages_model, task_model, tasks_model, Package, PackageModel,
    Task, TaskModel};
use crate::timestamp::{duration_seconds, duration_secs};

verus! {

/// The leaf tasks under one task: the task itself where it has no
/// children, else the leaves of its children, depth first and in order.
pub open spec fn leaves_of_task(t: TaskModel) -> Seq<TaskModel>
    decreases t,
{
    if t.tasks.len() == 0 {
        seq![t]
    } else {
        leaves_of_tasks(t.tasks)
    }
}

/// The leaf tasks under a forest, depth first and in order.
pub open spec fn leaves_of_tasks(ts: Seq<TaskModel>) -> Seq<TaskModel>
    decreases ts,
{
    if ts.len() == 0 {
        Seq::empty()
    } else {
        leaves_of_tasks(ts.drop_last()) + leaves_of_task(ts.last())
    }
}

proof fn lemma_task_leaves_are_leaves(t: TaskModel)
    ensures
        forall|i: int|
            0 <= i < leaves_of_task(t).len() ==> (#[trigger] leaves_of_task(t)[i]).tasks.len()
                == 0,
    decreases t,
{
    if t.tasks.len() == 0 {
        assert(leaves_of_task(t) =~= seq![t]);
        assert(leaves_of_task(t)[0] == t);
    } else {
        lemma_leaves_are_leaves(t.tasks);
        assert(leaves_of_task(t) == leaves_of_tasks(t.tasks));
    }
}

/// Every task in a flattened leaf sequence has no children: a task with
/// children never appears there itself, only its leaf descendants do.
pub proof fn lemma_leaves_are_leaves(ts: Seq<TaskModel>)
    ensures
        forall|i: int|
            0 <= i < leaves_of_tasks(ts).len() ==> (#[trigger] leaves_of_tasks(ts)[i]).tasks.len()
                == 0,
    decreases ts,
{
    if ts.len() > 0 {
        lemma_leaves_are_leaves(ts.drop_last());
        lemma_task_leaves_are_leaves(ts.last());
        let a = leaves_of_tasks(ts.drop_last());
        let b = leaves_of_task(ts.last());
        assert(leaves_of_tasks(ts) == a + b);
        assert forall|i: int|
            0 <= i < leaves_of_tasks(ts).len() implies (#[trigger] leaves_of_tasks(
            ts,
        )[i]).tasks.len() == 0 by {
            if i < a.len() {
                assert(leaves_of_tasks(ts)[i] == a[i]);
            } else {
                assert(leaves_of_tasks(ts)[i] == b[i - a.len()]);
            }
        }
    }
}

/// The models of a sequence of borrowed tasks.
pub open spec fn leaf_models(rs: Seq<&Task>) -> Seq<TaskModel> {
    Seq::new(
        rs.len(),
        |i: int|
            if 0 <= i < rs.len() {
                task_model(*rs[i])
            } else {
                arbitrary()
            },
    )
}

proof fn lemma_leaf_models_push(rs: Seq<&Task>, t: &Task)
    ensures
        leaf_models(rs.push(t)) == leaf_models(rs).push(task_model(*t)),
{
    assert(leaf_models(rs.push(t)) =~= leaf_models(rs).push(task_model(*t)));
}

proof fn lemma_leaf_models_concat(a: Seq<&Task>, b: Seq<&Task>)
    ensures
        leaf_models(a + b) == leaf_models(a) + leaf_models(b),
{
    assert(leaf_models(a + b) =~= leaf_models(a) + leaf_models(b));
}

/// Collects references to the leaf tasks of a forest, depth first and in
/// order: exactly the tasks with no children.
pub fn get_leaf_tasks<'a>(tasks: &'a Vec<Task>) -> (r: Vec<&'a Task>)
    ensures
        leaf_models(r@) == leaves_of_tasks(tasks_model(tasks@)),
    decreases tasks@,
{
    let ghost tm = tasks_model(tasks@);
    let mut r: Vec<&Task> = Vec::new();
    proof {
        assert(leaf_models(r@) =~= Seq::<TaskModel>::empty());
        assert(tm.take(0) =~= Seq::<TaskModel>::empty());
    }
    let mut i: usize = 0;
    while i < tasks.len()
        invariant
            i <= tasks@.len(),
            tm == tasks_model(tasks@),
            tm.len() == tasks@.len(),
            leaf_models(r@) == leaves_of_tasks(tm.take(i as int)),
        decreases tasks@.len() - i,
    {
        let t: &Task = &tasks[i];
        proof {
            assert(tm[i as int] == task_model(tasks@[i as int]));
            assert(tm[i as int].tasks == tasks_model(t.tasks@));
            assert(tm.take(i + 1).drop_last() =~= tm.take(i as int));
            assert(tm.take(i + 1).last() == tm[i as int]);
        }
        if t.tasks.len() == 0 {
            proof {
                assert(leaves_of_task(tm[i as int]) =~= seq![tm[i as int]]);
                lemma_leaf_models_push(r@, t);
                assert(leaf_models(r@).push(task_model(*t)) =~= leaves_of_tasks(
                    tm.take(i + 1),
                ));
            }
            r.push(t);
        } else {
            proof {
                assert(decreases_to!(tasks@ => tasks@[i as int]));
                assert(decreases_to!(tasks@[i as int] => tasks@[i as int].tasks));
                assert(decreases_to!(tasks@[i as int].tasks => tasks@[i as int].tasks@));
            }
            let mut sub = get_leaf_tasks(&t.tasks);
            proof {
                lemma_leaf_models_concat(r@, sub@);
                assert(leaves_of_tasks(tm.take(i + 1)) == leaves_of_tasks(tm.take(i as int))
                    + leaves_of_task(tm[i as int]));
                assert(leaf_models(sub@) == leaves_of_task(tm[i as int]));
                assert(leaf_models(r@) + leaf_models(sub@) == leaves_of_tasks(tm.take(i + 1)));
            }
            r.append(&mut sub);
        }
        i = i + 1;
    }
    proof {
        assert(tm.take(tasks@.len() as int) =~= tm);
    }
    r
}



/// A `(package name, container name, task name)` aggregation key.
pub type AggKey = (Seq<char>, Seq<char>, Seq<char>);

/// One keyed duration: an aggregation key and one leaf's duration in
/// whole seconds.
pub type AggEntry = (AggKey, int);

/// The keyed duration entries of one package: one per leaf task, in order.
pub open spec fn entries_of_package(p: PackageModel) -> Seq<AggEntry> {
    Seq::new(
        leaves_of_tasks(p.tasks).len(),
        |i: int|
            if 0 <= i < leaves_of_tasks(p.tasks).len() {
                (
                    (p.package_name, p.container_name, leaves_of_tasks(p.tasks)[i].name),
                    duration_secs(
                        leaves_of_tasks(p.tasks)[i].start_time,
                        leaves_of_tasks(p.tasks)[i].end_time,
                    ),
                )
            } else {
                arbitrary()
            },
    )
}

/// The keyed duration entries of the packages from index `i` on.
pub open spec fn leaf_entries_from(ps: Seq<PackageModel>, i: int) -> Seq<AggEntry>
    decreases ps.len() - i,
{
    if i < 0 || i >= ps.len() {
        Seq::empty()
    } else {
        entries_of_package(ps[i]) + leaf_entries_from(ps, i + 1)
    }
}

/// All keyed duration entries of a run of packages, in order.
pub open spec fn leaf_entries(ps: Seq<PackageModel>) -> Seq<AggEntry> {
    leaf_entries_from(ps, 0)
}

/// The exact sum of the durations of the entries bearing key `k`.
pub open spec fn total_for(entries: Seq<AggEntry>, k: AggKey) -> int
    decreases entries.len(),
{
    if entries.len() == 0 {
        0
    } else {
        total_for(entries.drop_last(), k) + if entries.last().0 == k {
            entries.last().1
        } else {
            0
        }
    }
}

/// Whether any entry bears key `k`.
pub open spec fn key_appears(entries: Seq<AggEntry>, k: AggKey) -> bool {
    exists|i: int| 0 <= i < entries.len() && (#[trigger] entries[i]).0 == k
}

/// The sum of the absolute durations of all entries: a bound on every
/// per-key total.
pub open spec fn sum_abs(entries: Seq<AggEntry>) -> int
    decreases entries.len(),
{
    if entries.len() == 0 {
        0
    } else {
        sum_abs(entries.drop_last()) + abs(entries.last().1)
    }
}

proof fn lemma_total_for_push(entries: Seq<AggEntry>, e: AggEntry, k: AggKey)
    ensures
        total_for(entries.push(e), k) == total_for(entries, k) + if e.0 == k {
            e.1
        } else {
            0
        },
{
    assert(entries.push(e).drop_last() =~= entries);
}

proof fn lemma_sum_abs_push(entries: Seq<AggEntry>, e: AggEntry)
    ensures
        sum_abs(entries.push(e)) == sum_abs(entries) + abs(e.1),
{
    assert(entries.push(e).drop_last() =~= entries);
}

proof fn lemma_sum_abs_nonneg(entries: Seq<AggEntry>)
    ensures
        sum_abs(entries) >= 0,
    decreases entries.len(),
{
    if entries.len() > 0 {
        lemma_sum_abs_nonneg(entries.drop_last());
    }
}

proof fn lemma_total_for_bound(entries: Seq<AggEntry>, k: AggKey)
    ensures
        -sum_abs(entries) <= total_for(entries, k) <= sum_abs(entries),
    decreases entries.len(),
{
    if entries.len() > 0 {
        lemma_total_for_bound(entries.drop_last(), k);
    }
}

proof fn lemma_sum_abs_concat(a: Seq<AggEntry>, b: Seq<AggEntry>)
    ensures
        sum_abs(a + b) == sum_abs(a) + sum_abs(b),
    decreases b.len(),
{
    if b.len() == 0 {
        assert(a + b =~= a);
    } else {
        assert((a + b).drop_last() =~= a + b.drop_last());
        assert((a + b).last() == b.last());
        lemma_sum_abs_concat(a, b.drop_last());
    }
}

proof fn lemma_absent_key_total_zero(entries: Seq<AggEntry>, k: AggKey)
    requires
        !key_appears(entries, k),
    ensures
        total_for(entries, k) == 0,
    decreases entries.len(),
{
    if entries.len() > 0 {
        assert(!key_appears(entries.drop_last(), k)) by {
            if key_appears(entries.drop_last(), k) {
                let i = choose|i: int|
                    0 <= i < entries.drop_last().len() && (#[trigger] entries.drop_last()[i]).0
                        == k;
                assert(entries[i].0 == k);
            }
        }
        assert(entries.last().0 != k) by {
            if entries.last().0 == k {
                assert(entries[entries.len() - 1].0 == k);
            }
        }
        lemma_absent_key_total_zero(entries.drop_last(), k);
    }
}

proof fn lemma_key_appears_push(entries: Seq<AggEntry>, e: AggEntry, k: AggKey)
    ensures
        key_appears(entries.push(e), k) <==> (key_appears(entries, k) || e.0 == k),
{
    if key_appears(entries, k) {
        let i = choose|i: int| 0 <= i < entries.len() && (#[trigger] entries[i]).0 == k;
        assert(entries.push(e)[i].0 == k);
    }
    if e.0 == k {
        assert(entries.push(e)[entries.len() as int].0 == k);
    }
    if key_appears(entries.push(e), k) {
        let i = choose|i: int|
            0 <= i < entries.push(e).len() && (#[trigger] entries.push(e)[i]).0 == k;
        if i < entries.len() {
            assert(entries[i].0 == k);
        }
    }
}

/// One ranked row of the aggregate report.
#[derive(Debug)]
pub struct AggregateRow {
    pub package_name: String,
    pub container_name: String,
    pub task_name: String,
    pub total_seconds: i128,
}

pub open spec fn row_key(r: AggregateRow) -> AggKey {
    (r.package_name@, r.container_name@, r.task_name@)
}

/// `rows` aggregates `entries`: every row bears a key of the entries and
/// its exact per-key total, every key of the entries has a row, and no two
/// rows share a key.
pub open spec fn rows_aggregate(entries: Seq<AggEntry>, rows: Seq<AggregateRow>) -> bool {
    &&& forall|i: int| 0 <= i < rows.len() ==> key_appears(entries, row_key(#[trigger] rows[i]))
    &&& forall|i: int|
        0 <= i < rows.len() ==> (#[trigger] rows[i]).total_seconds == total_for(
            entries,
            row_key(rows[i]),
        )
    &&& forall|k: AggKey|
        #[trigger] key_appears(entries, k) ==> exists|i: int|
            0 <= i < rows.len() && row_key(#[trigger] rows[i]) == k
    &&& forall|i: int, j: int|
        0 <= i < j < rows.len() ==> row_key(rows[i]) != row_key(rows[j])
}

/// Totals are ranked largest first.
pub open spec fn sorted_desc(rows: Seq<AggregateRow>) -> bool {
    forall|i: int, j: int|
        0 <= i <= j < rows.len() ==> (#[trigger] rows[i]).total_seconds >= (
        #[trigger] rows[j]).total_seconds
}

/// Folds one keyed duration into the rows: adds it to the row bearing its
/// key, or appends a new row where no row bears it yet.
#[verifier::loop_isolation(false)]
fn add_entry(
    rows: &mut Vec<AggregateRow>,
    package_name: &String,
    container_name: &String,
    task_name: &String,
    d: i128,
    Ghost(entries): Ghost<Seq<AggEntry>>,
)
    requires
        rows_aggregate(entries, old(rows)@),
        sum_abs(entries) + abs(d as int) <= i128::MAX,
    ensures
        rows_aggregate(
            entries.push(((package_name@, container_name@, task_name@), d as int)),
            final(rows)@,
        ),
{
    let ghost e: AggEntry = ((package_name@, container_name@, task_name@), d as int);
    let ghost new_entries = entries.push(e);
    proof {
        lemma_key_appears_push(entries, e, e.0);
        lemma_total_for_push(entries, e, e.0);
    }
    let n = rows.len();
    let mut i: usize = 0;
    while i < n
        invariant
            i <= n,
            n == rows@.len(),
            rows@ == old(rows)@,
            forall|t: int| 0 <= t < i ==> row_key(#[trigger] rows@[t]) != e.0,
        decreases n - i,
    {
        if rows[i].package_name == *package_name && rows[i].container_name == *container_name
            && rows[i].task_name == *task_name {
            proof {
                lemma_total_for_bound(entries, e.0);
                lemma_sum_abs_nonneg(entries);
            }
            let mut row = rows.remove(i);
            row.total_seconds = row.total_seconds + d;
            rows.insert(i, row);
            proof {
                assert(rows@ =~= old(rows)@.update(i as int, row));
                let k0 = row_key(old(rows)@[i as int]);
                assert(k0 == e.0);
                assert forall|t: int|
                    0 <= t < rows@.len() implies (#[trigger] rows@[t]).total_seconds == total_for(
                    new_entries,
                    row_key(rows@[t]),
                ) by {
                    if t == i {
                        assert(rows@[t] == row);
                        assert(row_key(row) == e.0);
                    } else {
                        assert(rows@[t] == old(rows)@[t]);
                        assert(row_key(old(rows)@[t]) != e.0);
                        lemma_total_for_push(entries, e, row_key(old(rows)@[t]));
                    }
                }
                assert forall|t: int|
                    0 <= t < rows@.len() implies key_appears(
                    new_entries,
                    row_key(#[trigger] rows@[t]),
                ) by {
                    lemma_key_appears_push(entries, e, row_key(rows@[t]));
                    if t != i {
                        assert(rows@[t] == old(rows)@[t]);
                    }
                }
                assert forall|k: AggKey| #[trigger]
                    key_appears(new_entries, k) implies exists|t: int|
                    0 <= t < rows@.len() && row_key(#[trigger] rows@[t]) == k by {
                    lemma_key_appears_push(entries, e, k);
                    if k == e.0 {
                        assert(row_key(rows@[i as int]) == k);
                    } else {
                        let t = choose|t: int|
                            0 <= t < old(rows)@.len() && row_key(#[trigger] old(rows)@[t]) == k;
                        assert(t != i);
                        assert(row_key(rows@[t]) == k);
                    }
                }
                assert forall|t: int, u: int|
                    0 <= t < u < rows@.len() implies row_key(rows@[t]) != row_key(rows@[u]) by {
                    assert(row_key(rows@[t]) == row_key(old(rows)@[t]));
                    assert(row_key(rows@[u]) == row_key(old(rows)@[u]));
                }
            }
            return;
        }
        i = i + 1;
    }
    proof {
        assert(!key_appears(entries, e.0)) by {
            if key_appears(entries, e.0) {
                let t = choose|t: int|
                    0 <= t < old(rows)@.len() && row_key(#[trigger] old(rows)@[t]) == e.0;
                assert(row_key(rows@[t]) != e.0);
            }
        }
        lemma_absent_key_total_zero(entries, e.0);
    }
    let row = AggregateRow {
        package_name: package_name.clone(),
        container_name: container_name.clone(),
        task_name: task_name.clone(),
        total_seconds: d,
    };
    proof {
        assert(row_key(row) == e.0);
    }
    rows.push(row);
    proof {
        assert forall|t: int|
            0 <= t < rows@.len() implies (#[trigger] rows@[t]).total_seconds == total_for(
            new_entries,
            row_key(rows@[t]),
        ) by {
            if t < old(rows)@.len() {
                assert(rows@[t] == old(rows)@[t]);
                assert(row_key(old(rows)@[t]) != e.0);
                lemma_total_for_push(entries, e, row_key(old(rows)@[t]));
            } else {
                assert(rows@[t] == row);
            }
        }
        assert forall|t: int|
            0 <= t < rows@.len() implies key_appears(new_entries, row_key(#[trigger] rows@[t])) by {
            lemma_key_appears_push(entries, e, row_key(rows@[t]));
            if t < old(rows)@.len() {
                assert(rows@[t] == old(rows)@[t]);
            } else {
                assert(rows@[t] == row);
            }
        }
        assert forall|k: AggKey| #[trigger]
            key_appears(new_entries, k) implies exists|t: int|
            0 <= t < rows@.len() && row_key(#[trigger] rows@[t]) == k by {
            lemma_key_appears_push(entries, e, k);
            if k == e.0 {
                assert(row_key(rows@[old(rows)@.len() as int]) == k);
            } else {
                let t = choose|t: int|
                    0 <= t < old(rows)@.len() && row_key(#[trigger] old(rows)@[t]) == k;
                assert(row_key(rows@[t]) == k);
            }
        }
        assert forall|t: int, u: int|
            0 <= t < u < rows@.len() implies row_key(rows@[t]) != row_key(rows@[u]) by {
            if u < old(rows)@.len() {
                assert(row_key(rows@[t]) == row_key(old(rows)@[t]));
                assert(row_key(rows@[u]) == row_key(old(rows)@[u]));
            } else {
                assert(rows@[u] == row);
                assert(rows@[t] == old(rows)@[t]);
                assert(row_key(old(rows)@[t]) != e.0);
            }
        }
    }
}

/// Moving any one row of `rest` to the end of `done` keeps the whole an
/// aggregate of the same entries.
proof fn lemma_rows_aggregate_extract(
    entries: Seq<AggEntry>,
    done: Seq<AggregateRow>,
    rest: Seq<AggregateRow>,
    b: int,
)
    requires
        rows_aggregate(entries, done + rest),
        0 <= b < rest.len(),
    ensures
        rows_aggregate(entries, done.push(rest[b]) + rest.remove(b)),
{
    let old_s = done + rest;
    let new_s = done.push(rest[b]) + rest.remove(b);
    rest.remove_ensures(b);
    assert(new_s.len() == old_s.len());
    let dl = done.len() as int;
    // Where each row of the new arrangement stood in the old one.
    let ghost back = |i: int|
        if i < dl {
            i
        } else if i == dl {
            dl + b
        } else if i - dl - 1 < b {
            i - 1
        } else {
            i
        };
    assert forall|i: int| 0 <= i < new_s.len() implies new_s[i] == old_s[back(i)] && 0 <= back(i)
        < old_s.len() by {
        if i < dl {
        } else if i == dl {
            assert(new_s[i] == rest[b]);
            assert(old_s[dl + b] == rest[b]);
        } else {
            let u = i - dl - 1;
            assert(new_s[i] == rest.remove(b)[u]);
            if u < b {
                assert(rest.remove(b)[u] == rest[u]);
                assert(old_s[dl + u] == rest[u]);
            } else {
                assert(rest.remove(b)[u] == rest[u + 1]);
                assert(old_s[dl + u + 1] == rest[u + 1]);
            }
        }
    }
    assert forall|i: int|
        0 <= i < new_s.len() implies key_appears(entries, row_key(#[trigger] new_s[i])) && (
    #[trigger] new_s[i]).total_seconds == total_for(entries, row_key(new_s[i])) by {
        assert(new_s[i] == old_s[back(i)]);
    }
    assert forall|k: AggKey| #[trigger]
        key_appears(entries, k) implies exists|i: int|
        0 <= i < new_s.len() && row_key(#[trigger] new_s[i]) == k by {
        let j = choose|j: int| 0 <= j < old_s.len() && row_key(#[trigger] old_s[j]) == k;
        let fwd = if j < dl {
            j
        } else if j - dl < b {
            j + 1
        } else if j - dl == b {
            dl
        } else {
            j
        };
        assert(back(fwd) == j);
        assert(row_key(new_s[fwd]) == k);
    }
    assert forall|i: int, j: int|
        0 <= i < j < new_s.len() implies row_key(new_s[i]) != row_key(new_s[j]) by {
        assert(new_s[i] == old_s[back(i)]);
        assert(new_s[j] == old_s[back(j)]);
        if back(i) < back(j) {
            assert(row_key(old_s[back(i)]) != row_key(old_s[back(j)]));
        } else {
            assert(back(j) < back(i));
            assert(row_key(old_s[back(j)]) != row_key(old_s[back(i)]));
        }
    }
}



/// Flattens every package to its leaf tasks, sums durations per
/// `(package, container, task)` key across all packages given, and ranks
/// the summed totals largest first; the order among equal totals is left
/// open. The caller owes room: the total absolute duration must fit the
/// accumulator (`try_aggregate` checks this at run time).
#[verifier::loop_isolation(false)]
pub fn aggregate(packages: &Vec<Package>) -> (rows: Vec<AggregateRow>)
    requires
        sum_abs(leaf_entries(packages_model(packages@))) <= i128::MAX,
    ensures
        rows_aggregate(leaf_entries(packages_model(packages@)), rows@),
        sorted_desc(rows@),
{
    let ghost pm = packages_model(packages@);
    let ghost all_entries = leaf_entries(pm);
    let mut rows: Vec<AggregateRow> = Vec::new();
    let ghost mut done: Seq<AggEntry> = Seq::empty();
    proof {
        assert(done + leaf_entries_from(pm, 0) =~= leaf_entries_from(pm, 0));
    }
    let mut p: usize = 0;
    while p < packages.len()
        invariant
            p <= packages@.len(),
            pm.len() == packages@.len(),
            rows_aggregate(done, rows@),
            done + leaf_entries_from(pm, p as int) == all_entries,
        decreases packages@.len() - p,
    {
        let pkg: &Package = &packages[p];
        let leaves = get_leaf_tasks(&pkg.tasks);
        let ghost ents = entries_of_package(pm[p as int]);
        proof {
            assert(pm[p as int] == package_model(packages@[p as int]));
            assert(leaf_models(leaves@) == leaves_of_tasks(pm[p as int].tasks));
            assert(leaves@.len() == ents.len());
            assert(leaf_entries_from(pm, p as int) == ents + leaf_entries_from(pm, p + 1));
            assert(done + ents.skip(0) + leaf_entries_from(pm, p + 1) =~= done + leaf_entries_from(
                pm,
                p as int,
            ));
        }
        let mut j: usize = 0;
        while j < leaves.len()
            invariant
                j <= leaves@.len(),
                leaves@.len() == ents.len(),
                ents == entries_of_package(pm[p as int]),
                leaf_models(leaves@) == leaves_of_tasks(pm[p as int].tasks),
                p < packages@.len(),
                pm[p as int] == package_model(packages@[p as int]),
                rows_aggregate(done, rows@),
                done + ents.skip(j as int) + leaf_entries_from(pm, p + 1) == all_entries,
            decreases leaves@.len() - j,
        {
            let leaf: &Task = leaves[j];
            let d: i128 = duration_seconds(&leaf.start_time, &leaf.end_time);
            let ghost e = ents[j as int];
            proof {
                assert(task_model(*leaves@[j as int]) == leaves_of_tasks(
                    pm[p as int].tasks,
                )[j as int]);
                assert(e == ((pkg.package_name@, pkg.container_name@, leaf.name@), d as int));
                assert(ents.skip(j as int) =~= seq![e] + ents.skip(j + 1));
                lemma_sum_abs_concat(done + ents.skip(j as int), leaf_entries_from(pm, p + 1));
                lemma_sum_abs_concat(done, ents.skip(j as int));
                lemma_sum_abs_concat(seq![e], ents.skip(j + 1));
                lemma_sum_abs_nonneg(leaf_entries_from(pm, p + 1));
                lemma_sum_abs_nonneg(ents.skip(j + 1));
                assert(seq![e].drop_last() =~= Seq::<AggEntry>::empty());
                assert(sum_abs(Seq::<AggEntry>::empty()) == 0);
                assert(seq![e].last() == e);
                assert(sum_abs(seq![e]) == abs(e.1));
                assert(sum_abs(done) + abs(d as int) <= i128::MAX);
            }
            add_entry(
                &mut rows,
                &pkg.package_name,
                &pkg.container_name,
                &leaf.name,
                d,
                Ghost(done),
            );
            proof {
                done = done.push(e);
                assert(done + ents.skip(j + 1) + leaf_entries_from(pm, p + 1) =~= all_entries);
            }
            j = j + 1;
        }
        proof {
            assert(ents.skip(ents.len() as int) =~= Seq::<AggEntry>::empty());
            assert(done + leaf_entries_from(pm, p + 1) =~= done + ents.skip(ents.len() as int)
                + leaf_entries_from(pm, p + 1));
        }
        p = p + 1;
    }
    proof {
        assert(leaf_entries_from(pm, p as int) =~= Seq::<AggEntry>::empty());
        assert(done =~= done + leaf_entries_from(pm, p as int));
        assert(rows_aggregate(all_entries, rows@));
    }
    let mut out: Vec<AggregateRow> = Vec::new();
    proof {
        assert(out@ + rows@ =~= rows@);
    }
    while rows.len() > 0
        invariant
            rows_aggregate(all_entries, out@ + rows@),
            sorted_desc(out@),
            forall|i: int|
                0 <= i < rows@.len() && out@.len() > 0 ==> out@.last().total_seconds >= (
                #[trigger] rows@[i]).total_seconds,
        decreases rows@.len(),
    {
        let mut best: usize = 0;
        let mut t: usize = 1;
        while t < rows.len()
            invariant
                best < rows@.len(),
                t <= rows@.len(),
                forall|u: int|
                    0 <= u < t ==> rows@[best as int].total_seconds >= (
                    #[trigger] rows@[u]).total_seconds,
            decreases rows@.len() - t,
        {
            if rows[t].total_seconds > rows[best].total_seconds {
                best = t;
            }
            t = t + 1;
        }
        let ghost prev_out = out@;
        let ghost prev_rows = rows@;
        proof {
            lemma_rows_aggregate_extract(all_entries, prev_out, prev_rows, best as int);
            prev_rows.remove_ensures(best as int);
        }
        let row = rows.remove(best);
        out.push(row);
        proof {
            assert(row == prev_rows[best as int]);
            assert forall|i: int, j: int|
                0 <= i <= j < out@.len() implies (#[trigger] out@[i]).total_seconds >= (
            #[trigger] out@[j]).total_seconds by {
                if j < prev_out.len() {
                } else {
                    assert(out@[j] == row);
                    if i < prev_out.len() {
                        assert(prev_out[prev_out.len() - 1].total_seconds >= row.total_seconds);
                        assert(out@[i].total_seconds >= prev_out[prev_out.len()
                            - 1].total_seconds);
                    }
                }
            }
            assert forall|u: int|
                0 <= u < rows@.len() && out@.len() > 0 implies out@.last().total_seconds >= (
            #[trigger] rows@[u]).total_seconds by {
                if u < best {
                    assert(rows@[u] == prev_rows[u]);
                } else {
                    assert(rows@[u] == prev_rows[u + 1]);
                }
            }
        }
    }
    proof {
        assert(out@ + rows@ =~= out@);
    }
    out
}

/// The accumulator's view of a sum: capped at its ceiling.
spec fn clamp_total(x: int) -> int {
    if x > i128::MAX {
        i128::MAX as int
    } else {
        x
    }
}

fn abs_clamped(d: i128) -> (a: i128)
    ensures
        a as int == clamp_total(abs(d as int) as int),
        a >= 0,
{
    if d >= 0 {
        d
    } else if d == i128::MIN {
        i128::MAX
    } else {
        -d
    }
}

fn sat_add_nonneg(a: i128, b: i128) -> (r: i128)
    requires
        a >= 0,
        b >= 0,
    ensures
        r as int == clamp_total(a as int + b as int),
        r >= 0,
{
    if a <= i128::MAX - b {
        a + b
    } else {
        i128::MAX
    }
}

/// Aggregates where the total absolute duration fits the accumulator, and
/// answers `None` instead of overflowing where it does not.
#[verifier::loop_isolation(false)]
pub fn try_aggregate(packages: &Vec<Package>) -> (r: Option<Vec<AggregateRow>>)
    ensures
        match r {
            Some(rows) => {
                &&& sum_abs(leaf_entries(packages_model(packages@))) <= i128::MAX
                &&& rows_aggregate(leaf_entries(packages_model(packages@)), rows@)
                &&& sorted_desc(rows@)
            },
            None => sum_abs(leaf_entries(packages_model(packages@))) >= i128::MAX,
        },
{
    let ghost pm = packages_model(packages@);
    let ghost all_entries = leaf_entries(pm);
    let mut acc: i128 = 0;
    let ghost mut done: Seq<AggEntry> = Seq::empty();
    proof {
        assert(done + leaf_entries_from(pm, 0) =~= leaf_entries_from(pm, 0));
    }
    let mut p: usize = 0;
    while p < packages.len()
        invariant
            p <= packages@.len(),
            pm.len() == packages@.len(),
            acc >= 0,
            acc as int == clamp_total(sum_abs(done)),
            done + leaf_entries_from(pm, p as int) == all_entries,
        decreases packages@.len() - p,
    {
        let pkg: &Package = &packages[p];
        let leaves = get_leaf_tasks(&pkg.tasks);
        let ghost ents = entries_of_package(pm[p as int]);
        proof {
            assert(pm[p as int] == package_model(packages@[p as int]));
            assert(leaf_models(leaves@) == leaves_of_tasks(pm[p as int].tasks));
            assert(leaves@.len() == ents.len());
            assert(leaf_entries_from(pm, p as int) == ents + leaf_entries_from(pm, p + 1));
            assert(done + ents.skip(0) + leaf_entries_from(pm, p + 1) =~= done + leaf_entries_from(
                pm,
                p as int,
            ));
        }
        let mut j: usize = 0;
        while j < leaves.len()
            invariant
                j <= leaves@.len(),
                leaves@.len() == ents.len(),
                ents == entries_of_package(pm[p as int]),
                leaf_models(leaves@) == leaves_of_tasks(pm[p as int].tasks),
                p < packages@.len(),
                pm[p as int] == package_model(packages@[p as int]),
                acc >= 0,
                acc as int == clamp_total(sum_abs(done)),
                done + ents.skip(j as int) + leaf_entries_from(pm, p + 1) == all_entries,
            decreases leaves@.len() - j,
        {
            let leaf: &Task = leaves[j];
            let d: i128 = duration_seconds(&leaf.start_time, &leaf.end_time);
            let ghost e = ents[j as int];
            proof {
                assert(task_model(*leaves@[j as int]) == leaves_of_tasks(
                    pm[p as int].tasks,
                )[j as int]);
                assert(e.1 == d as int);
                assert(ents.skip(j as int) =~= seq![e] + ents.skip(j + 1));
                lemma_sum_abs_push(done, e);
                lemma_sum_abs_nonneg(done);
            }
            let a = abs_clamped(d);
            acc = sat_add_nonneg(acc, a);
            proof {
                done = done.push(e);
                assert(acc as int == clamp_total(sum_abs(done)));
                assert(done + ents.skip(j + 1) + leaf_entries_from(pm, p + 1) =~= all_entries);
            }
            j = j + 1;
        }
        proof {
            assert(ents.skip(ents.len() as int) =~= Seq::<AggEntry>::empty());
            assert(done + leaf_entries_from(pm, p + 1) =~= done + ents.skip(ents.len() as int)
                + leaf_entries_from(pm, p + 1));
        }
        p = p + 1;
    }
    proof {
        assert(leaf_entries_from(pm, p as int) =~= Seq::<AggEntry>::empty());
        assert(done =~= done + leaf_entries_from(pm, p as int));
    }
    if acc < i128::MAX {
        Some(aggregate(packages))
    } else {
        None
    }
}

} // verus!

//! The filter policy: a persisted three-way preference selects which tasks
//! of a collection are visible, preserving their relative order.

use vstd::prelude::*;

use crate::model::{Task, TaskSpec};
use crate::utils::str_eq;

verus! {

/// Which tasks are visible: every task, only the still-open ones, or only
/// the completed ones. Persisted in the settings store as a string.
#[derive(Clone, Copy, PartialEq, Eq, Structural, Debug)]
pub enum FilterPreference {
    All,
    Open,
    Done,
}

/// Whether one task is selected by a preference.
pub open spec fn task_passes(p: FilterPreference, t: TaskSpec) -> bool {
    match p {
        FilterPreference::All => true,
        FilterPreference::Open => !t.completed,
        FilterPreference::Done => t.completed,
    }
}

/// The preference that behaves exactly like an optional predicate.
pub open spec fn pred_filter(pred: Option<FilterPreference>) -> FilterPreference {
    match pred {
        Option::None => FilterPreference::All,
        Option::Some(p) => p,
    }
}

/// The source indices of the tasks a preference selects, in source order.
pub open spec fn visible_indices(p: FilterPreference, ts: Seq<TaskSpec>) -> Seq<int>
    decreases ts.len(),
{
    if ts.len() == 0 {
        Seq::empty()
    } else {
        let pre = visible_indices(p, ts.drop_last());
        if task_passes(p, ts.last()) {
            pre.push(ts.len() - 1)
        } else {
            pre
        }
    }
}

/// The tasks a preference selects, in source order.
pub open spec fn visible_tasks(p: FilterPreference, ts: Seq<TaskSpec>) -> Seq<TaskSpec> {
    visible_indices(p, ts).map_values(|j: int| ts[j])
}

/// The view of a vector of source indices as mathematical integers.
pub open spec fn indices_view(v: Seq<usize>) -> Seq<int> {
    v.map_values(|u: usize| u as int)
}

/// The string form under which a preference is recognized in settings.
pub open spec fn spec_parse_preference(s: Seq<char>) -> Option<FilterPreference> {
    if s == "All"@ {
        Option::Some(FilterPreference::All)
    } else if s == "Open"@ {
        Option::Some(FilterPreference::Open)
    } else if s == "Done"@ {
        Option::Some(FilterPreference::Done)
    } else {
        Option::None
    }
}

impl FilterPreference {
    /// Whether the given task is visible under this preference.
    pub fn matches(&self, t: &Task) -> (r: bool)
        ensures
            r == task_passes(*self, t@),
    {
        match self {
            FilterPreference::All => true,
            FilterPreference::Open => !t.completed,
            FilterPreference::Done => t.completed,
        }
    }

    /// Read a preference from its persisted string form; an unrecognized
    /// value yields `None`.
    pub fn parse(s: &str) -> (r: Option<FilterPreference>)
        ensures
            r == spec_parse_preference(s@),
    {
        if str_eq(s, "All") {
            Some(FilterPreference::All)
        } else if str_eq(s, "Open") {
            Some(FilterPreference::Open)
        } else if str_eq(s, "Done") {
            Some(FilterPreference::Done)
        } else {
            None
        }
    }

    /// Read a preference from its persisted string form, failing softly:
    /// a stale or foreign value falls back to showing all tasks.
    pub fn from_setting(s: &str) -> (r: FilterPreference)
        ensures
            r == match spec_parse_preference(s@) {
                Option::Some(p) => p,
                Option::None => FilterPreference::All,
            },
    {
        match FilterPreference::parse(s) {
            Some(p) => p,
            None => FilterPreference::All,
        }
    }

    /// The string form under which this preference is persisted.
    pub fn setting_str(&self) -> (r: String)
        ensures
            spec_parse_preference(r@) == Option::Some(*self),
            match *self {
                FilterPreference::All => r@ == "All"@,
                FilterPreference::Open => r@ == "Open"@,
                FilterPreference::Done => r@ == "Done"@,
            },
    {
        proof {
            lemma_preference_strings_distinct();
        }
        match self {
            FilterPreference::All => "All".to_owned(),
            FilterPreference::Open => "Open".to_owned(),
            FilterPreference::Done => "Done".to_owned(),
        }
    }

    /// The optional predicate this preference stands for: `None` means
    /// "no filtering, show all".
    pub fn predicate(&self) -> (r: Option<FilterPreference>)
        ensures
            pred_filter(r) == *self,
            r is None <==> *self is All,
    {
        match self {
            FilterPreference::All => None,
            FilterPreference::Open => Some(FilterPreference::Open),
            FilterPreference::Done => Some(FilterPreference::Done),
        }
    }
}

/// The three persisted preference strings denote three distinct values.
proof fn lemma_preference_strings_distinct()
    ensures
        "All"@ != "Open"@,
        "All"@ != "Done"@,
        "Open"@ != "Done"@,
{
    reveal_strlit("All");
    reveal_strlit("Open");
    reveal_strlit("Done");
    assert("All"@.len() == 3);
    assert("Open"@.len() == 4);
    assert("Done"@.len() == 4);
    assert("Open"@[0] == 'O');
    assert("Done"@[0] == 'D');
}

/// Map the persisted preference string to the predicate driving the view:
/// `None` (show all) for `All` and for any unrecognized stale value, a
/// completion test otherwise.
pub fn current_predicate(s: &str) -> (r: Option<FilterPreference>)
    ensures
        r == match spec_parse_preference(s@) {
            Option::Some(p) => if p is All {
                Option::<FilterPreference>::None
            } else {
                Option::Some(p)
            },
            Option::None => Option::<FilterPreference>::None,
        },
{
    match FilterPreference::parse(s) {
        Some(p) => p.predicate(),
        None => None,
    }
}

/// Compute the membership of the filtered view: the source indices of the
/// tasks the preference selects, in source order.
pub fn compute_view(p: &FilterPreference, tasks: &Vec<Task>) -> (v: Vec<usize>)
    ensures
        indices_view(v@) == visible_indices(*p, tasks.deep_view()),
{
    let mut v: Vec<usize> = Vec::new();
    let n = tasks.len();
    let mut i: usize = 0;
    while i < n
        invariant
            n == tasks@.len(),
            i <= n,
            indices_view(v@) == visible_indices(*p, tasks.deep_view().take(i as int)),
        decreases n - i,
    {
        let ghost pre = indices_view(v@);
        if p.matches(&tasks[i]) {
            v.push(i);
        }
        proof {
            let dv = tasks.deep_view();
            assert(dv.take(i + 1).drop_last() =~= dv.take(i as int));
            assert(dv.take(i + 1).last() == dv[i as int]);
            assert(dv[i as int] == tasks@[i as int].deep_view());
            if task_passes(*p, dv[i as int]) {
                assert(indices_view(v@) =~= pre.push(i as int));
            }
        }
        i = i + 1;
    }
    proof {
        assert(tasks.deep_view().take(n as int) =~= tasks.deep_view());
    }
    v
}

/// Apply an optional predicate to a task sequence: `None` shows every task.
/// The result is the membership of the filtered view.
pub fn apply(pred: Option<FilterPreference>, tasks: &Vec<Task>) -> (v: Vec<usize>)
    ensures
        indices_view(v@) == visible_indices(pred_filter(pred), tasks.deep_view()),
{
    let p = match pred {
        None => FilterPreference::All,
        Some(q) => q,
    };
    compute_view(&p, tasks)
}

/// Filter correctness: the view selects exactly the tasks that satisfy the
/// preference's completion condition, each exactly once, in source order.
pub proof fn lemma_filter_correctness(p: FilterPreference, ts: Seq<TaskSpec>)
    ensures
        visible_indices(p, ts).len() <= ts.len(),
        forall|k: int| 0 <= k < visible_indices(p, ts).len() ==> {
            let j = #[trigger] visible_indices(p, ts)[k];
            0 <= j < ts.len() && task_passes(p, ts[j])
        },
        forall|k1: int, k2: int| 0 <= k1 < k2 < visible_indices(p, ts).len() ==>
            #[trigger] visible_indices(p, ts)[k1] < #[trigger] visible_indices(p, ts)[k2],
        forall|j: int| #[trigger] visible_indices(p, ts).contains(j) <==>
            (0 <= j < ts.len() && task_passes(p, ts[j])),
        visible_tasks(p, ts).len() == visible_indices(p, ts).len(),
        forall|k: int| 0 <= k < visible_indices(p, ts).len() ==>
            #[trigger] visible_tasks(p, ts)[k] == ts[visible_indices(p, ts)[k]],
    decreases ts.len(),
{
    if ts.len() == 0 {
        assert forall|j: int| !visible_indices(p, ts).contains(j) by {
            assert(visible_indices(p, ts).len() == 0);
        }
    } else {
        let dl = ts.drop_last();
        lemma_filter_correctness(p, dl);
        let pre = visible_indices(p, dl);
        let vi = visible_indices(p, ts);
        assert forall|j: int| 0 <= j < dl.len() implies dl[j] == ts[j] by {}
        if task_passes(p, ts.last()) {
            assert(vi == pre.push(ts.len() - 1));
            assert forall|j: int| #[trigger] vi.contains(j) implies
                (0 <= j < ts.len() && task_passes(p, ts[j])) by {
                let k = choose|k: int| 0 <= k < vi.len() && vi[k] == j;
                if k < pre.len() {
                    assert(pre[k] == j);
                    assert(pre.contains(j));
                } else {
                    assert(j == ts.len() - 1);
                }
            }
            assert forall|j: int| (0 <= j < ts.len() && task_passes(p, ts[j])) implies
                #[trigger] vi.contains(j) by {
                if j < ts.len() - 1 {
                    assert(dl[j] == ts[j]);
                    assert(pre.contains(j));
                    let k = choose|k: int| 0 <= k < pre.len() && pre[k] == j;
                    assert(vi[k] == j);
                } else {
                    assert(vi[vi.len() - 1] == j);
                }
            }
        } else {
            assert(vi == pre);
            assert forall|j: int| #[trigger] vi.contains(j) implies
                (0 <= j < ts.len() && task_passes(p, ts[j])) by {
                assert(pre.contains(j));
            }
            assert forall|j: int| (0 <= j < ts.len() && task_passes(p, ts[j])) implies
                #[trigger] vi.contains(j) by {
                assert(j != ts.len() - 1);
                assert(dl[j] == ts[j]);
                assert(pre.contains(j));
            }
        }
    }
}

/// In a task sequence whose members all pass, the view's membership is
/// every source index in order.
proof fn lemma_all_pass_indices(p: FilterPreference, u: Seq<TaskSpec>)
    requires
        forall|k: int| 0 <= k < u.len() ==> task_passes(p, #[trigger] u[k]),
    ensures
        visible_indices(p, u) == Seq::new(u.len(), |k: int| k),
    decreases u.len(),
{
    if u.len() == 0 {
        assert(visible_indices(p, u) =~= Seq::new(u.len(), |k: int| k));
    } else {
        let dl = u.drop_last();
        assert(forall|k: int| 0 <= k < dl.len() ==> dl[k] == u[k]);
        lemma_all_pass_indices(p, dl);
        assert(task_passes(p, u.last())) by {
            assert(u.last() == u[u.len() - 1]);
        }
        assert(visible_indices(p, u) == visible_indices(p, dl).push(u.len() - 1));
        assert(visible_indices(p, u) =~= Seq::new(u.len(), |k: int| k));
    }
}

/// A task sequence whose members all pass the preference filters to itself.
pub proof fn lemma_filter_all_pass(p: FilterPreference, u: Seq<TaskSpec>)
    requires
        forall|k: int| 0 <= k < u.len() ==> task_passes(p, #[trigger] u[k]),
    ensures
        visible_tasks(p, u) == u,
{
    lemma_all_pass_indices(p, u);
    assert(visible_tasks(p, u) =~= u);
}

/// Filter idempotence: filtering an already filtered task sequence with the
/// same preference gives the same members in the same order.
pub proof fn lemma_filter_idempotent(p: FilterPreference, ts: Seq<TaskSpec>)
    ensures
        visible_tasks(p, visible_tasks(p, ts)) == visible_tasks(p, ts),
{
    let u = visible_tasks(p, ts);
    lemma_filter_correctness(p, ts);
    assert forall|k: int| 0 <= k < u.len() implies task_passes(p, #[trigger] u[k]) by {
        assert(u[k] == ts[visible_indices(p, ts)[k]]);
    }
    lemma_filter_all_pass(p, u);
}

/// Appending one task extends the filtered view by that task exactly when
/// it passes the filter.
pub proof fn lemma_visible_tasks_push(p: FilterPreference, u: Seq<TaskSpec>, t: TaskSpec)
    ensures
        task_passes(p, t) ==> visible_tasks(p, u.push(t)) == visible_tasks(p, u).push(t),
        !task_passes(p, t) ==> visible_tasks(p, u.push(t)) == visible_tasks(p, u),
{
    let w = u.push(t);
    assert(w.drop_last() =~= u);
    assert(w.last() == t);
    lemma_filter_correctness(p, u);
    let pre = visible_indices(p, u);
    assert forall|k: int| 0 <= k < pre.len() implies
        #[trigger] visible_tasks(p, w)[k] == visible_tasks(p, u)[k] by {
        assert(visible_indices(p, w)[k] == pre[k]);
        assert(0 <= pre[k] < u.len());
        assert(w[pre[k]] == u[pre[k]]);
    }
    if task_passes(p, t) {
        assert(visible_indices(p, w) == pre.push(u.len() as int));
        assert(visible_tasks(p, w)[pre.len() as int] == t);
        assert(visible_tasks(p, w) =~= visible_tasks(p, u).push(t));
    } else {
        assert(visible_indices(p, w) == pre);
        assert(visible_tasks(p, w) =~= visible_tasks(p, u));
    }
}

/// Replacing one task changes the size of the view by at most one, in the
/// direction the replacement's filter outcome dictates.
pub proof fn lemma_visible_update(p: FilterPreference, ts: Seq<TaskSpec>, i: int, t2: TaskSpec)
    requires
        0 <= i < ts.len(),
    ensures
        task_passes(p, ts[i]) == task_passes(p, t2) ==>
            visible_indices(p, ts.update(i, t2)).len() == visible_indices(p, ts).len(),
        task_passes(p, ts[i]) && !task_passes(p, t2) ==>
            visible_indices(p, ts.update(i, t2)).len() + 1 == visible_indices(p, ts).len(),
        !task_passes(p, ts[i]) && task_passes(p, t2) ==>
            visible_indices(p, ts.update(i, t2)).len() == visible_indices(p, ts).len() + 1,
    decreases ts.len(),
{
    let ts2 = ts.update(i, t2);
    if i == ts.len() - 1 {
        assert(ts2.drop_last() =~= ts.drop_last());
        assert(ts2.last() == t2);
    } else {
        let dl = ts.drop_last();
        assert(ts2.drop_last() =~= dl.update(i, t2));
        assert(ts2.last() == ts.last());
        assert(dl[i] == ts[i]);
        lemma_visible_update(p, dl, i, t2);
    }
}

/// The task at position `i`, marked completed, its title kept.
pub open spec fn completed_at(ts: Seq<TaskSpec>, i: int) -> Seq<TaskSpec> {
    ts.update(i, TaskSpec { title: ts[i].title, completed: true })
}

/// Live-view consistency: marking one open task completed shrinks the
/// `Open` view by exactly that task and grows the `Done` view by exactly
/// it; every other task keeps its membership in both views, and both views
/// keep their source order.
pub proof fn lemma_complete_task(ts: Seq<TaskSpec>, i: int)
    requires
        0 <= i < ts.len(),
        !ts[i].completed,
    ensures
        visible_indices(FilterPreference::Open, completed_at(ts, i)).len() + 1
            == visible_indices(FilterPreference::Open, ts).len(),
        visible_indices(FilterPreference::Done, completed_at(ts, i)).len()
            == visible_indices(FilterPreference::Done, ts).len() + 1,
        forall|j: int| j != i ==> (
            #[trigger] visible_indices(FilterPreference::Open, completed_at(ts, i)).contains(j)
            <==> visible_indices(FilterPreference::Open, ts).contains(j)),
        forall|j: int| j != i ==> (
            #[trigger] visible_indices(FilterPreference::Done, completed_at(ts, i)).contains(j)
            <==> visible_indices(FilterPreference::Done, ts).contains(j)),
        !visible_indices(FilterPreference::Open, completed_at(ts, i)).contains(i),
        visible_indices(FilterPreference::Done, completed_at(ts, i)).contains(i),
        forall|k1: int, k2: int|
            0 <= k1 < k2 < visible_indices(FilterPreference::Open, completed_at(ts, i)).len() ==>
                #[trigger] visible_indices(FilterPreference::Open, completed_at(ts, i))[k1]
                < #[trigger] visible_indices(FilterPreference::Open, completed_at(ts, i))[k2],
        forall|k1: int, k2: int|
            0 <= k1 < k2 < visible_indices(FilterPreference::Done, completed_at(ts, i)).len() ==>
                #[trigger] visible_indices(FilterPreference::Done, completed_at(ts, i))[k1]
                < #[trigger] visible_indices(FilterPreference::Done, completed_at(ts, i))[k2],
{
    let t2 = TaskSpec { title: ts[i].title, completed: true };
    let ts2 = completed_at(ts, i);
    lemma_visible_update(FilterPreference::Open, ts, i, t2);
    lemma_visible_update(FilterPreference::Done, ts, i, t2);
    lemma_filter_correctness(FilterPreference::Open, ts);
    lemma_filter_correctness(FilterPreference::Open, ts2);
    lemma_filter_correctness(FilterPreference::Done, ts);
    lemma_filter_correctness(FilterPreference::Done, ts2);
    assert(forall|j: int| 0 <= j < ts.len() && j != i ==> ts2[j] == ts[j]);
}

} // verus!

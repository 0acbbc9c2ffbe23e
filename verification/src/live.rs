//! Change propagation: the state a window keeps between the store and the
//! screen. One collection is active at a time; a live view holds the
//! membership of its filtered task list, and every structural change to the
//! active collection recomputes that membership. Switching the active
//! collection rebinds the view to the new collection alone, so mutations of
//! an inactive collection can never reach it.

use vstd::prelude::*;

use crate::filter::{
    completed_at, compute_view, indices_view, lemma_complete_task, lemma_filter_correctness,
    lemma_visible_tasks_push, spec_parse_preference, visible_indices, visible_tasks,
    FilterPreference,
};
use crate::model::{Collection, CollectionSpec, Store, StoreSpec, Task, TaskSpec};

verus! {

/// Mathematical image of a [`TodoState`].
pub ghost struct TodoSpec {
    pub store: StoreSpec,
    pub active: Option<int>,
    pub pref: FilterPreference,
    pub visible: Seq<int>,
}

/// The store, the active collection, the filter preference, and the live
/// view's membership: the source indices of the visible tasks, in order.
pub struct TodoState {
    pub store: Store,
    pub active: Option<usize>,
    pub pref: FilterPreference,
    pub visible: Vec<usize>,
}

impl View for TodoState {
    type V = TodoSpec;

    open spec fn view(&self) -> TodoSpec {
        TodoSpec {
            store: self.store@,
            active: match self.active {
                Option::Some(a) => Option::Some(a as int),
                Option::None => Option::None,
            },
            pref: self.pref,
            visible: indices_view(self.visible@),
        }
    }
}

/// The tasks of the active collection; none when no collection is active.
pub open spec fn active_tasks(s: TodoSpec) -> Seq<TaskSpec> {
    match s.active {
        Option::Some(a) => if 0 <= a < s.store.collections.len() {
            s.store.collections[a].tasks
        } else {
            Seq::empty()
        },
        Option::None => Seq::empty(),
    }
}

impl TodoSpec {
    /// The live view is bound to the active collection: its membership is
    /// exactly the filtered view of that collection's tasks.
    pub open spec fn wf(self) -> bool {
        &&& (self.active matches Option::Some(a) ==> 0 <= a < self.store.collections.len())
        &&& self.visible == visible_indices(self.pref, active_tasks(self))
    }
}

/// The store with the task at `i` in collection `c` keeping its title and
/// taking `done` as its completion flag.
pub open spec fn with_task_completed(st: StoreSpec, c: int, i: int, done: bool) -> StoreSpec {
    let col = st.collections[c];
    StoreSpec {
        collections: st.collections.update(c, CollectionSpec {
            title: col.title,
            tasks: col.tasks.update(i, TaskSpec { title: col.tasks[i].title, completed: done }),
        }),
    }
}

/// The store with a fresh open task of the given title appended to
/// collection `c`.
pub open spec fn with_task_added(st: StoreSpec, c: int, title: Seq<char>) -> StoreSpec {
    let col = st.collections[c];
    StoreSpec {
        collections: st.collections.update(c, CollectionSpec {
            title: col.title,
            tasks: col.tasks.push(TaskSpec { title, completed: false }),
        }),
    }
}

/// The store with the task at `i` removed from collection `c`.
pub open spec fn with_task_removed(st: StoreSpec, c: int, i: int) -> StoreSpec {
    let col = st.collections[c];
    StoreSpec {
        collections: st.collections.update(c, CollectionSpec {
            title: col.title,
            tasks: col.tasks.remove(i),
        }),
    }
}

/// The store with every completed task dropped from collection `c`: what
/// remains is the `Open` view of its tasks, order kept.
pub open spec fn with_done_removed(st: StoreSpec, c: int) -> StoreSpec {
    let col = st.collections[c];
    StoreSpec {
        collections: st.collections.update(c, CollectionSpec {
            title: col.title,
            tasks: visible_tasks(FilterPreference::Open, col.tasks),
        }),
    }
}

/// The store with a fresh empty collection of the given title appended.
pub open spec fn with_collection_added(st: StoreSpec, title: Seq<char>) -> StoreSpec {
    StoreSpec {
        collections: st.collections.push(CollectionSpec { title, tasks: Seq::empty() }),
    }
}

/// The error of the interactive flows around a [`TodoState`].
#[derive(Clone, Copy, PartialEq, Eq, Structural, Debug)]
pub enum TodoError {
    /// A new collection needs a non-empty title.
    EmptyCollectionTitle,
}

impl TodoState {
    /// Start a window's state from a loaded store: the first collection, if
    /// any, becomes active, and the view binds to it.
    pub fn new(store: Store, pref: FilterPreference) -> (r: TodoState)
        ensures
            r@.wf(),
            r@.store == store@,
            r@.pref == pref,
            store@.collections.len() > 0 ==> r@.active == Option::Some(0int),
            store@.collections.len() == 0 ==> r@.active is None,
    {
        let active: Option<usize> = if store.collections.len() > 0 {
            Some(0)
        } else {
            None
        };
        let mut r = TodoState { store, active, pref, visible: Vec::new() };
        r.refresh();
        r
    }

    /// Rebind the live view: recompute its membership from the active
    /// collection and the current preference.
    fn refresh(&mut self)
        requires
            old(self)@.active matches Option::Some(a) ==>
                0 <= a < old(self)@.store.collections.len(),
        ensures
            final(self).store == old(self).store,
            final(self).active == old(self).active,
            final(self).pref == old(self).pref,
            final(self)@.wf(),
    {
        match self.active {
            Some(a) => {
                let v = compute_view(&self.pref, &self.store.collections[a].tasks);
                proof {
                    assert(self.store.collections@[a as int].deep_view()
                        == self.store@.collections[a as int]);
                }
                self.visible = v;
            },
            None => {
                self.visible = Vec::new();
                proof {
                    assert(indices_view(self.visible@)
                        =~= visible_indices(self.pref, Seq::empty()));
                }
            },
        }
    }

    /// How many tasks the live view shows.
    pub fn visible_count(&self) -> (n: usize)
        ensures
            n == self@.visible.len(),
    {
        self.visible.len()
    }

    /// Whether the task-list region should be shown at all: true exactly
    /// when the view is non-empty.
    pub fn list_visible(&self) -> (r: bool)
        ensures
            r == (self@.visible.len() > 0),
    {
        self.visible.len() > 0
    }

    /// Switch the active collection, tearing the view off the old one and
    /// rebinding it to the new one. Out-of-range indices are refused.
    pub fn switch_collection(&mut self, c: usize) -> (ok: bool)
        requires
            old(self)@.wf(),
        ensures
            final(self)@.wf(),
            final(self)@.store == old(self)@.store,
            final(self)@.pref == old(self)@.pref,
            ok == (c < old(self)@.store.collections.len()),
            ok ==> final(self)@.active == Option::Some(c as int),
            !ok ==> final(self)@ == old(self)@,
    {
        if c < self.store.collections.len() {
            self.active = Some(c);
            self.refresh();
            true
        } else {
            false
        }
    }

    /// Change the filter preference in place; the view's membership is
    /// recomputed against the unchanged active collection.
    pub fn set_preference(&mut self, p: FilterPreference)
        requires
            old(self)@.wf(),
        ensures
            final(self)@.wf(),
            final(self)@.store == old(self)@.store,
            final(self)@.active == old(self)@.active,
            final(self)@.pref == p,
    {
        self.pref = p;
        self.refresh();
    }

    /// Change the filter preference from its persisted string form; a stale
    /// or foreign value falls back to showing all tasks.
    pub fn set_preference_str(&mut self, s: &str)
        requires
            old(self)@.wf(),
        ensures
            final(self)@.wf(),
            final(self)@.store == old(self)@.store,
            final(self)@.active == old(self)@.active,
            final(self)@.pref == match spec_parse_preference(s@) {
                Option::Some(p) => p,
                Option::None => FilterPreference::All,
            },
    {
        let p = FilterPreference::from_setting(s);
        self.set_preference(p);
    }

    /// Append a new open task with the given title to the active
    /// collection. Fails only when no collection is active.
    pub fn add_task(&mut self, title: String) -> (ok: bool)
        requires
            old(self)@.wf(),
        ensures
            final(self)@.wf(),
            final(self)@.active == old(self)@.active,
            final(self)@.pref == old(self)@.pref,
            ok == (old(self)@.active is Some),
            old(self)@.active matches Option::Some(a) ==>
                final(self)@.store == with_task_added(old(self)@.store, a, title@),
            !ok ==> final(self)@ == old(self)@,
    {
        match self.active {
            Some(a) => {
                let t = Task::new(title, false);
                let ghost title_chars = t@.title;
                self.store.collections[a].tasks.push(t);
                proof {
                    let a_ = a as int;
                    crate::model::lemma_deep_view_push(
                        self.store.collections@[a_].tasks,
                        old(self).store.collections@[a_].tasks,
                        t,
                    );
                    let target = with_task_added(old(self)@.store, a_, title_chars);
                    assert forall|j: int| 0 <= j < self.store@.collections.len() implies
                        self.store@.collections[j] == target.collections[j] by {
                        assert(self.store@.collections[j]
                            == self.store.collections@[j].deep_view());
                        assert(old(self)@.store.collections[j]
                            == old(self).store.collections@[j].deep_view());
                    }
                    assert(self.store@.collections =~= target.collections);
                }
                self.refresh();
                true
            },
            None => false,
        }
    }

    /// Set the completion flag of the task at source position `i` of the
    /// active collection. Fails when no collection is active or the
    /// position is out of range.
    pub fn set_task_completed(&mut self, i: usize, done: bool) -> (ok: bool)
        requires
            old(self)@.wf(),
        ensures
            final(self)@.wf(),
            final(self)@.active == old(self)@.active,
            final(self)@.pref == old(self)@.pref,
            ok == (old(self)@.active matches Option::Some(a)
                && i < old(self)@.store.collections[a].tasks.len()),
            old(self)@.active matches Option::Some(a) ==>
                (i < old(self)@.store.collections[a].tasks.len() ==>
                    final(self)@.store == with_task_completed(
                        old(self)@.store, a, i as int, done)),
            !ok ==> final(self)@ == old(self)@,
    {
        match self.active {
            Some(a) => self.set_task_completed_in(a, i, done),
            None => false,
        }
    }

    /// Set the completion flag of the task at position `i` of collection
    /// `c`, whether or not `c` is active. Only a change to the active
    /// collection can move the view: when `c` is inactive the view's
    /// membership stays exactly as it was.
    pub fn set_task_completed_in(&mut self, c: usize, i: usize, done: bool) -> (ok: bool)
        requires
            old(self)@.wf(),
        ensures
            final(self)@.wf(),
            final(self)@.active == old(self)@.active,
            final(self)@.pref == old(self)@.pref,
            ok == (c < old(self)@.store.collections.len()
                && i < old(self)@.store.collections[c as int].tasks.len()),
            ok ==> final(self)@.store == with_task_completed(
                old(self)@.store, c as int, i as int, done),
            !ok ==> final(self)@ == old(self)@,
            old(self)@.active != Option::Some(c as int) ==>
                final(self)@.visible == old(self)@.visible,
    {
        if c < self.store.collections.len() && i < self.store.collections[c].tasks.len() {
            self.store.collections[c].tasks[i].completed = done;
            proof {
                let ghost st2 = with_task_completed(old(self)@.store, c as int, i as int, done);
                assert(self.store@.collections[c as int].tasks
                    =~= st2.collections[c as int].tasks);
                assert(self.store@.collections[c as int] =~= st2.collections[c as int])
                    by {
                    assert(self.store@.collections[c as int].title
                        == st2.collections[c as int].title);
                }
                assert(self.store@.collections =~= st2.collections);
            }
            let is_active = match self.active {
                Some(a) => a == c,
                None => false,
            };
            if is_active {
                self.refresh();
            } else {
                proof {
                    assert(active_tasks(self@) =~= active_tasks(old(self)@));
                }
            }
            true
        } else {
            false
        }
    }

    /// Remove the task at source position `i` of the active collection.
    pub fn remove_task(&mut self, i: usize) -> (ok: bool)
        requires
            old(self)@.wf(),
        ensures
            final(self)@.wf(),
            final(self)@.active == old(self)@.active,
            final(self)@.pref == old(self)@.pref,
            ok == (old(self)@.active matches Option::Some(a)
                && i < old(self)@.store.collections[a].tasks.len()),
            old(self)@.active matches Option::Some(a) ==>
                (i < old(self)@.store.collections[a].tasks.len() ==>
                    final(self)@.store == with_task_removed(old(self)@.store, a, i as int)),
            !ok ==> final(self)@ == old(self)@,
    {
        match self.active {
            Some(a) => {
                if i < self.store.collections[a].tasks.len() {
                    self.store.collections[a].tasks.remove(i);
                    proof {
                        let a_ = a as int;
                        crate::model::lemma_deep_view_remove(
                            self.store.collections@[a_].tasks,
                            old(self).store.collections@[a_].tasks,
                            i as int,
                        );
                        let target = with_task_removed(old(self)@.store, a_, i as int);
                        assert forall|j: int| 0 <= j < self.store@.collections.len() implies
                            self.store@.collections[j] == target.collections[j] by {
                            assert(self.store@.collections[j]
                                == self.store.collections@[j].deep_view());
                            assert(old(self)@.store.collections[j]
                                == old(self).store.collections@[j].deep_view());
                        }
                        assert(self.store@.collections =~= target.collections);
                    }
                    self.refresh();
                    true
                } else {
                    false
                }
            },
            None => false,
        }
    }

    /// Drop every completed task from the active collection: what remains
    /// is exactly the `Open` view of its old tasks, in the same order.
    pub fn remove_done_tasks(&mut self) -> (ok: bool)
        requires
            old(self)@.wf(),
        ensures
            final(self)@.wf(),
            final(self)@.active == old(self)@.active,
            final(self)@.pref == old(self)@.pref,
            ok == (old(self)@.active is Some),
            old(self)@.active matches Option::Some(a) ==>
                final(self)@.store == with_done_removed(old(self)@.store, a),
            !ok ==> final(self)@ == old(self)@,
    {
        match self.active {
            Some(a) => {
                let n = self.store.collections[a].tasks.len();
                let mut kept: Vec<Task> = Vec::new();
                let mut i: usize = 0;
                while i < n
                    invariant
                        a < self.store.collections@.len(),
                        n == self.store.collections@[a as int].tasks@.len(),
                        i <= n,
                        kept.deep_view() == visible_tasks(
                            FilterPreference::Open,
                            self.store@.collections[a as int].tasks.take(i as int)),
                    decreases n - i,
                {
                    let ghost tasks = self.store@.collections[a as int].tasks;
                    proof {
                        assert(kept.deep_view().len() == kept@.len());
                        lemma_visible_tasks_push(
                            FilterPreference::Open, tasks.take(i as int), tasks[i as int]);
                        assert(tasks.take(i + 1) =~= tasks.take(i as int).push(tasks[i as int]));
                    }
                    let t = &self.store.collections[a].tasks[i];
                    if !t.completed {
                        kept.push(t.duplicate());
                        proof {
                            assert(kept.deep_view() =~= visible_tasks(
                                FilterPreference::Open,
                                tasks.take(i as int)).push(tasks[i as int]));
                        }
                    }
                    i = i + 1;
                }
                proof {
                    let tasks = self.store@.collections[a as int].tasks;
                    assert(tasks.take(n as int) =~= tasks);
                }
                self.store.collections[a].tasks = kept;
                proof {
                    assert(self.store@.collections =~= with_done_removed(
                        old(self)@.store, a as int).collections);
                }
                self.refresh();
                true
            },
            None => false,
        }
    }

    /// Add a new empty collection and make it active. The interactive flow
    /// requires a non-empty title; an empty one is refused.
    pub fn new_collection(&mut self, title: String) -> (r: Result<usize, TodoError>)
        requires
            old(self)@.wf(),
        ensures
            final(self)@.wf(),
            final(self)@.pref == old(self)@.pref,
            r matches Ok(c) <==> title@.len() > 0,
            title@.len() == 0 ==> r == Result::<usize, TodoError>::Err(
                TodoError::EmptyCollectionTitle) && final(self)@ == old(self)@,
            r matches Ok(c) ==> c == old(self)@.store.collections.len()
                && final(self)@.store == with_collection_added(old(self)@.store, title@)
                && final(self)@.active == Option::Some(c as int),
    {
        if title.as_str().unicode_len() == 0 {
            return Err(TodoError::EmptyCollectionTitle);
        }
        let c = self.store.collections.len();
        let col = Collection::new(title);
        proof {
            assert(col@.tasks =~= Seq::<TaskSpec>::empty());
        }
        self.store.collections.push(col);
        proof {
            assert(self.store@.collections
                =~= with_collection_added(old(self)@.store, col@.title).collections);
        }
        self.active = Some(c);
        self.refresh();
        Ok(c)
    }

    /// The titles the live view shows, in view order.
    pub fn visible_titles(&self) -> (v: Vec<String>)
        requires
            self@.wf(),
        ensures
            v@.map_values(|s: String| s@) == visible_tasks(
                self@.pref, active_tasks(self@)).map_values(|t: TaskSpec| t.title),
    {
        proof {
            lemma_filter_correctness(self@.pref, active_tasks(self@));
        }
        let mut v: Vec<String> = Vec::new();
        let k_end = self.visible.len();
        let mut k: usize = 0;
        match self.active {
            Some(a) => {
                while k < k_end
                    invariant
                        self@.wf(),
                        self.active == Option::Some(a),
                        a < self.store.collections@.len(),
                        k <= k_end,
                        k_end == self.visible@.len(),
                        forall|m: int| 0 <= m < self.visible@.len() ==> {
                            let j = #[trigger] indices_view(self.visible@)[m];
                            0 <= j < active_tasks(self@).len()
                        },
                        v@.map_values(|s: String| s@) == visible_tasks(
                            self@.pref, active_tasks(self@))
                            .map_values(|t: TaskSpec| t.title).take(k as int),
                    decreases k_end - k,
                {
                    let ghost pre = v@.map_values(|s: String| s@);
                    let j = self.visible[k];
                    proof {
                        assert(indices_view(self.visible@)[k as int] == j as int);
                        assert(visible_indices(self@.pref, active_tasks(self@))[k as int]
                            == j as int);
                        lemma_filter_correctness(self@.pref, active_tasks(self@));
                        assert(self.store.collections@[a as int].tasks@.len()
                            == active_tasks(self@).len());
                    }
                    let title = self.store.collections[a].tasks[j].title.clone();
                    proof {
                        assert(title@ == active_tasks(self@)[j as int].title);
                        assert(visible_tasks(self@.pref, active_tasks(self@))[k as int]
                            == active_tasks(self@)[j as int]);
                    }
                    v.push(title);
                    proof {
                        assert(v@.map_values(|s: String| s@) =~= pre.push(title@));
                        assert(v@.map_values(|s: String| s@) =~= visible_tasks(
                            self@.pref, active_tasks(self@))
                            .map_values(|t: TaskSpec| t.title).take(k + 1));
                    }
                    k = k + 1;
                }
                proof {
                    let full = visible_tasks(self@.pref, active_tasks(self@))
                        .map_values(|t: TaskSpec| t.title);
                    assert(full.take(k_end as int) =~= full);
                }
                v
            },
            None => {
                proof {
                    let full = visible_tasks(self@.pref, active_tasks(self@))
                        .map_values(|t: TaskSpec| t.title);
                    assert(full.len() == 0);
                    assert(v@.map_values(|s: String| s@) =~= full);
                }
                v
            },
        }
    }
}

/// Live-view consistency for a window state: marking one open task of the
/// active collection completed under the `Open` preference shrinks the live
/// view by exactly one entry, grows the `Done` view of the same tasks by
/// exactly one, and moves no other task in or out of either view.
pub proof fn lemma_live_view_consistency(s: TodoSpec, i: int)
    requires
        s.wf(),
        s.pref == FilterPreference::Open,
        s.active is Some,
        0 <= i < active_tasks(s).len(),
        !active_tasks(s)[i].completed,
    ensures
        visible_indices(FilterPreference::Open, completed_at(active_tasks(s), i)).len() + 1
            == s.visible.len(),
        visible_indices(FilterPreference::Done, completed_at(active_tasks(s), i)).len()
            == visible_indices(FilterPreference::Done, active_tasks(s)).len() + 1,
        forall|j: int| j != i ==> (
            #[trigger] visible_indices(FilterPreference::Open,
                completed_at(active_tasks(s), i)).contains(j)
            <==> s.visible.contains(j)),
        !visible_indices(FilterPreference::Open, completed_at(active_tasks(s), i)).contains(i),
        visible_indices(FilterPreference::Done, completed_at(active_tasks(s), i)).contains(i),
{
    lemma_complete_task(active_tasks(s), i);
}

/// Switch-collection isolation: once collection `b` is active, completing
/// or reopening a task of a different collection `a` leaves the membership
/// of `b`'s filtered view untouched.
pub proof fn lemma_switch_collection_isolation(s: TodoSpec, a: int, i: int, done: bool)
    requires
        s.wf(),
        s.active matches Option::Some(b) && a != b,
        0 <= a < s.store.collections.len(),
    ensures
        visible_indices(s.pref, active_tasks(TodoSpec {
            store: with_task_completed(s.store, a, i, done),
            active: s.active,
            pref: s.pref,
            visible: s.visible,
        })) == s.visible,
{
    let s2 = TodoSpec {
        store: with_task_completed(s.store, a, i, done),
        active: s.active,
        pref: s.pref,
        visible: s.visible,
    };
    assert(active_tasks(s2) == active_tasks(s));
}

} // verus!

//! The persisted data model: a task record, a named collection of task
//! records, and the collection store that roots everything on disk.

use vstd::prelude::*;

verus! {

/// A single todo item: a title and a completion flag.
///
/// The title may be empty; the flag is the only other state a task has.
pub struct Task {
    pub title: String,
    pub completed: bool,
}

/// Mathematical image of a [`Task`].
pub ghost struct TaskSpec {
    pub title: Seq<char>,
    pub completed: bool,
}

impl View for Task {
    type V = TaskSpec;

    open spec fn view(&self) -> TaskSpec {
        TaskSpec { title: self.title@, completed: self.completed }
    }
}

impl DeepView for Task {
    type V = TaskSpec;

    open spec fn deep_view(&self) -> TaskSpec {
        self@
    }
}

/// A named, ordered group of tasks. Insertion order is display order.
pub struct Collection {
    pub title: String,
    pub tasks: Vec<Task>,
}

/// Mathematical image of a [`Collection`].
pub ghost struct CollectionSpec {
    pub title: Seq<char>,
    pub tasks: Seq<TaskSpec>,
}

impl View for Collection {
    type V = CollectionSpec;

    open spec fn view(&self) -> CollectionSpec {
        CollectionSpec { title: self.title@, tasks: self.tasks.deep_view() }
    }
}

impl DeepView for Collection {
    type V = CollectionSpec;

    open spec fn deep_view(&self) -> CollectionSpec {
        self@
    }
}

/// The ordered set of collections: the single root of persisted state.
pub struct Store {
    pub collections: Vec<Collection>,
}

/// Mathematical image of a [`Store`].
pub ghost struct StoreSpec {
    pub collections: Seq<CollectionSpec>,
}

impl View for Store {
    type V = StoreSpec;

    open spec fn view(&self) -> StoreSpec {
        StoreSpec { collections: self.collections.deep_view() }
    }
}

impl Task {
    /// Make a task from its two attributes.
    pub fn new(title: String, completed: bool) -> (r: Task)
        ensures
            r@ == (TaskSpec { title: title@, completed }),
    {
        Task { title, completed }
    }

    /// An independent copy with the same title and flag.
    pub fn duplicate(&self) -> (r: Task)
        ensures
            r@ == self@,
    {
        Task { title: self.title.clone(), completed: self.completed }
    }
}

impl Collection {
    /// A collection with the given title and no tasks yet.
    pub fn new(title: String) -> (r: Collection)
        ensures
            r@.title == title@,
            r@.tasks =~= Seq::<TaskSpec>::empty(),
    {
        Collection { title, tasks: Vec::new() }
    }

    /// An independent copy of the collection and all its tasks.
    pub fn duplicate(&self) -> (r: Collection)
        ensures
            r@ == self@,
    {
        let mut tasks: Vec<Task> = Vec::new();
        let mut i: usize = 0;
        while i < self.tasks.len()
            invariant
                i <= self.tasks.len(),
                tasks.deep_view() == self.tasks.deep_view().take(i as int),
            decreases self.tasks.len() - i,
        {
            proof {
                assert(tasks.deep_view().len() == tasks@.len());
            }
            tasks.push(self.tasks[i].duplicate());
            proof {
                let dv = tasks.deep_view();
                let target = self.tasks.deep_view().take(i + 1);
                assert forall|j: int| 0 <= j < dv.len() implies dv[j] == target[j] by {
                    assert(dv[j] == tasks@[j].deep_view());
                    assert(target[j] == self.tasks@[j].deep_view());
                }
                assert(dv =~= target);
            }
            i = i + 1;
        }
        assert(tasks.deep_view() =~= self.tasks.deep_view());
        Collection { title: self.title.clone(), tasks }
    }
}

impl Store {
    /// The store of a first run: no collections at all.
    pub fn empty() -> (r: Store)
        ensures
            r@.collections =~= Seq::<CollectionSpec>::empty(),
    {
        Store { collections: Vec::new() }
    }

    /// An independent copy of every collection, for snapshotting the store
    /// before handing it to a writer.
    pub fn duplicate(&self) -> (r: Store)
        ensures
            r@ == self@,
    {
        let mut collections: Vec<Collection> = Vec::new();
        let mut i: usize = 0;
        while i < self.collections.len()
            invariant
                i <= self.collections.len(),
                collections.deep_view() == self.collections.deep_view().take(i as int),
            decreases self.collections.len() - i,
        {
            proof {
                assert(collections.deep_view().len() == collections@.len());
            }
            collections.push(self.collections[i].duplicate());
            proof {
                let dv = collections.deep_view();
                let target = self.collections.deep_view().take(i + 1);
                assert forall|j: int| 0 <= j < dv.len() implies dv[j] == target[j] by {
                    assert(dv[j] == collections@[j].deep_view());
                    assert(target[j] == self.collections@[j].deep_view());
                }
                assert(dv =~= target);
            }
            i = i + 1;
        }
        assert(collections.deep_view() =~= self.collections.deep_view());
        Store { collections }
    }
}

/// Pushing onto a vector pushes the element's view onto the vector's view.
pub proof fn lemma_deep_view_push<T: DeepView>(v: Vec<T>, w: Vec<T>, t: T)
    requires
        v@ == w@.push(t),
    ensures
        v.deep_view() == w.deep_view().push(t.deep_view()),
{
    assert forall|j: int| 0 <= j < v.deep_view().len() implies
        v.deep_view()[j] == w.deep_view().push(t.deep_view())[j] by {
        assert(v.deep_view()[j] == v@[j].deep_view());
        if j < w@.len() {
            assert(w.deep_view()[j] == w@[j].deep_view());
        }
    }
    assert(v.deep_view() =~= w.deep_view().push(t.deep_view()));
}

/// Removing an element of a vector removes its view from the vector's view.
pub proof fn lemma_deep_view_remove<T: DeepView>(v: Vec<T>, w: Vec<T>, i: int)
    requires
        0 <= i < w@.len(),
        v@ == w@.remove(i),
    ensures
        v.deep_view() == w.deep_view().remove(i),
{
    assert forall|j: int| 0 <= j < v.deep_view().len() implies
        v.deep_view()[j] == w.deep_view().remove(i)[j] by {
        assert(v.deep_view()[j] == v@[j].deep_view());
        if j < i {
            assert(w.deep_view()[j] == w@[j].deep_view());
        } else {
            assert(w.deep_view()[j + 1] == w@[j + 1].deep_view());
        }
    }
    assert(v.deep_view() =~= w.deep_view().remove(i));
}

} // verus!

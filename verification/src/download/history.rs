//! Downloads that are over: completed, failed or deleted.

use vstd::prelude::*;
use super::folder_queue::{first_from, lemma_position, position, task_views};
use super::task::{DownloadTask, TaskView};

verus! {

/// The downloads that are over, oldest first.
pub struct DownloadHistory {
    pub items: Vec<DownloadTask>,
}

impl View for DownloadHistory {
    type V = Seq<TaskView>;

    open spec fn view(&self) -> Seq<TaskView> {
        task_views(self.items@)
    }
}

/// No two tasks share an id.
pub open spec fn ids_distinct(ts: Seq<TaskView>) -> bool {
    forall|i: int, j: int| #![trigger ts[i], ts[j]] 0 <= i < j < ts.len() ==> ts[i].id != ts[j].id
}

/// The history with a task added, unless one with its id is there already.
pub open spec fn history_added(ts: Seq<TaskView>, t: TaskView) -> Seq<TaskView> {
    if position(ts, t.id) is None {
        ts.push(t)
    } else {
        ts
    }
}

/// The history without the first task that has the given id.
pub open spec fn history_removed(ts: Seq<TaskView>, id: u128) -> Seq<TaskView> {
    match position(ts, id) {
        Some(p) => ts.remove(p),
        None => ts,
    }
}

/// Adding and removing keep the ids distinct.
pub proof fn law_ids_stay_distinct(ts: Seq<TaskView>, t: TaskView, id: u128)
    requires
        ids_distinct(ts),
    ensures
        ids_distinct(history_added(ts, t)),
        ids_distinct(history_removed(ts, id)),
{
    lemma_position(ts, t.id);
    lemma_position(ts, id);
    let a = history_added(ts, t);
    assert forall|i: int, j: int| #![trigger a[i], a[j]] 0 <= i < j < a.len() implies a[i].id
        != a[j].id by {
        assert(a[i] == ts[i]);
        if j < ts.len() {
            assert(a[j] == ts[j]);
        }
    }
    let r = history_removed(ts, id);
    if let Some(p) = position(ts, id) {
        assert forall|i: int, j: int| #![trigger r[i], r[j]] 0 <= i < j < r.len() implies r[i].id
            != r[j].id by {
            assert(r[i] == ts[if i < p {
                i
            } else {
                i + 1
            }]);
            assert(r[j] == ts[if j < p {
                j
            } else {
                j + 1
            }]);
        }
    }
}

/// Adding a task a second time changes nothing.
pub proof fn law_add_twice(ts: Seq<TaskView>, t: TaskView)
    ensures
        history_added(history_added(ts, t), t) == history_added(ts, t),
{
    let a = history_added(ts, t);
    lemma_position(ts, t.id);
    lemma_position(a, t.id);
    if position(ts, t.id) is None {
        assert(a[ts.len() as int] == t);
    }
}

/// Where ids are distinct, a removed id is no longer found.
pub proof fn law_removed_is_gone(ts: Seq<TaskView>, id: u128)
    requires
        ids_distinct(ts),
    ensures
        position(history_removed(ts, id), id) is None,
{
    let r = history_removed(ts, id);
    lemma_position(ts, id);
    lemma_position(r, id);
    if let Some(p) = position(ts, id) {
        if let Some(k) = position(r, id) {
            let o = if k < p {
                k
            } else {
                k + 1
            };
            assert(r[k] == ts[o]);
        }
    }
}

/// A download is added behind all others unless one with its id is there; removing
/// an id takes out the first download that has it and leaves the order of the
/// others.
pub proof fn law_history_keeps_its_order(ts: Seq<TaskView>, t: TaskView, id: u128, p: int)
    requires
        0 <= p <= ts.len(),
        forall|j: int| 0 <= j < p ==> (#[trigger] ts[j]).id != id,
        p < ts.len() ==> ts[p].id == id,
    ensures
        (forall|j: int| 0 <= j < ts.len() ==> (#[trigger] ts[j]).id != t.id) ==> history_added(
            ts,
            t,
        ) == ts + seq![t],
        (exists|j: int| 0 <= j < ts.len() && (#[trigger] ts[j]).id == t.id) ==> history_added(
            ts,
            t,
        ) == ts,
        p < ts.len() ==> history_removed(ts, id) == ts.take(p) + ts.skip(p + 1),
        p == ts.len() ==> history_removed(ts, id) == ts,
{
    lemma_position(ts, t.id);
    lemma_position(ts, id);
    assert(ts.push(t) =~= ts + seq![t]);
    if p < ts.len() {
        assert(ts[p].id == id);
        assert(position(ts, id) == Some(p)) by {
            let q = position(ts, id)->0;
            if q < p {
                assert(ts[q].id != id);
            }
        }
        assert(ts.remove(p) =~= ts.take(p) + ts.skip(p + 1));
    }
}

impl Default for DownloadHistory {
    fn default() -> (r: DownloadHistory)
        ensures
            r@ == Seq::<TaskView>::empty(),
    {
        Self::new()
    }
}

impl DownloadHistory {
    /// An empty history.
    pub fn new() -> (r: DownloadHistory)
        ensures
            r@ == Seq::<TaskView>::empty(),
    {
        let r = DownloadHistory { items: Vec::new() };
        assert(r@ =~= Seq::<TaskView>::empty());
        r
    }

    fn find(&self, id: u128) -> (r: Option<usize>)
        ensures
            match r {
                Some(p) => position(self@, id) == Some(p as int) && p < self.items@.len(),
                None => position(self@, id) is None,
            },
    {
        for i in 0..self.items.len()
            invariant
                position(self@, id) == first_from(self@, id, i as int),
        {
            assert(self@[i as int] == self.items@[i as int]@);
            if self.items[i].id == id {
                return Some(i);
            }
        }
        None
    }

    /// Adds a task, unless one with its id is there already.
    pub fn add(&mut self, task: DownloadTask)
        ensures
            final(self)@ == history_added(old(self)@, task@),
    {
        if self.find(task.id).is_none() {
            self.items.push(task);
            assert(self@ =~= old(self)@.push(task@));
        }
    }

    /// Takes the first task with the given id out.
    pub fn remove(&mut self, id: u128) -> (r: Option<DownloadTask>)
        ensures
            final(self)@ == history_removed(old(self)@, id),
            match r {
                Some(t) => position(old(self)@, id) is Some && t@ == old(self)@[position(
                    old(self)@,
                    id,
                )->0],
                None => position(old(self)@, id) is None,
            },
    {
        match self.find(id) {
            Some(p) => {
                let t = self.items.remove(p);
                assert(self@ =~= old(self)@.remove(p as int));
                assert(old(self)@[p as int] == t@);
                Some(t)
            },
            None => None,
        }
    }

    /// The first task with the given id.
    pub fn get(&self, id: u128) -> (r: Option<&DownloadTask>)
        ensures
            match r {
                Some(t) => position(self@, id) is Some && t@ == self@[position(self@, id)->0],
                None => position(self@, id) is None,
            },
    {
        match self.find(id) {
            Some(p) => {
                assert(self@[p as int] == self.items@[p as int]@);
                Some(&self.items[p])
            },
            None => None,
        }
    }

    /// The first task with the given id, to be changed in place.
    pub fn get_mut(&mut self, id: u128) -> (r: Option<&mut DownloadTask>)
        ensures
            match r {
                Some(t) => position(old(self)@, id) is Some && t@ == old(self)@[position(
                    old(self)@,
                    id,
                )->0] && final(self)@ == old(self)@.update(
                    position(old(self)@, id)->0,
                    final(t)@,
                ),
                None => position(old(self)@, id) is None && final(self)@ == old(self)@,
            },
    {
        match self.find(id) {
            Some(p) => {
                assert(self@[p as int] == self.items@[p as int]@);
                Some(&mut self.items[p])
            },
            None => None,
        }
    }

    /// All tasks, oldest first.
    pub fn all(&self) -> (r: &[DownloadTask])
        ensures
            r@ == self.items@,
    {
        self.items.as_slice()
    }

    /// How many tasks there are.
    pub fn len(&self) -> (r: usize)
        ensures
            r == self@.len(),
    {
        self.items.len()
    }

    /// Whether there is no task.
    pub fn is_empty(&self) -> (r: bool)
        ensures
            r == (self@.len() == 0),
    {
        self.items.len() == 0
    }

    /// Forgets all tasks.
    pub fn clear(&mut self)
        ensures
            final(self)@ == Seq::<TaskView>::empty(),
    {
        self.items.clear();
        assert(self@ =~= Seq::<TaskView>::empty());
    }
}

} // verus!

//! One list of tasks over all folders, as it is read from and written to files.

use vstd::prelude::*;
use super::folder_queue::{first_from, position, task_views};
use super::task::{DownloadTask, TaskView};
use crate::text::{text_eq, texts};
use crate::text_map::TextMap;

verus! {

/// Tasks of all folders, in order.
pub struct DownloadQueue {
    pub tasks: Vec<DownloadTask>,
}

impl View for DownloadQueue {
    type V = Seq<TaskView>;

    open spec fn view(&self) -> Seq<TaskView> {
        task_views(self.tasks@)
    }
}

/// The tasks of the folder `f`.
pub open spec fn in_folder(f: Seq<char>) -> spec_fn(TaskView) -> bool {
    |t: TaskView| t.folder_id == f
}

/// Whether any task belongs to the folder `f`.
pub open spec fn folder_in_use(ts: Seq<TaskView>, f: Seq<char>) -> bool {
    exists|i: int| 0 <= i < ts.len() && (#[trigger] ts[i]).folder_id == f
}

/// Whether `m` sorts the tasks by folder: each folder in use has its tasks, in
/// order, and no other folder has an entry.
pub open spec fn is_partition(m: Map<Seq<char>, Vec<DownloadTask>>, ts: Seq<TaskView>) -> bool {
    &&& forall|f: Seq<char>| #[trigger] m.contains_key(f) == folder_in_use(ts, f)
    &&& forall|f: Seq<char>| #[trigger]
        m.contains_key(f) ==> task_views(m[f]@) == ts.filter(in_folder(f))
}

/// Whether a list is that of the folder of a task with the task behind it.
spec fn is_longer(
    list: Vec<DownloadTask>,
    m: Map<Seq<char>, Vec<DownloadTask>>,
    tv: TaskView,
) -> bool {
    task_views(list@) == (if m.contains_key(tv.folder_id) {
        task_views(m[tv.folder_id]@)
    } else {
        Seq::empty()
    }).push(tv)
}

/// Puts a task behind the others of its folder.
fn file_task(m: &mut TextMap<Vec<DownloadTask>>, task: DownloadTask)
    ensures
        exists|list: Vec<DownloadTask>|
            final(m)@ == #[trigger] old(m)@.insert(task@.folder_id, list) && is_longer(
                list,
                old(m)@,
                task@,
            ),
{
    let folder = task.folder_id.clone();
    let mut list: Vec<DownloadTask> = match m.remove(folder.as_str()) {
        Some(l) => l,
        None => Vec::new(),
    };
    let ghost l0 = task_views(list@);
    let ghost tv = task@;
    list.push(task);
    m.insert(folder, list);
    assert(m@ =~= old(m)@.insert(tv.folder_id, list));
    assert(task_views(list@) =~= l0.push(tv));
    assert(!old(m)@.contains_key(tv.folder_id) ==> l0 =~= Seq::<TaskView>::empty());
}

/// One more task at the end of the list of its folder.
proof fn lemma_partition_grows(
    m: Map<Seq<char>, Vec<DownloadTask>>,
    before: Seq<TaskView>,
    tv: TaskView,
    list: Vec<DownloadTask>,
)
    requires
        is_partition(m, before),
        is_longer(list, m, tv),
    ensures
        is_partition(m.insert(tv.folder_id, list), before.push(tv)),
{
    let f = tv.folder_id;
    let after = before.push(tv);
    let next = m.insert(f, list);
    assert(after.drop_last() =~= before);
    reveal(Seq::filter);
    if !m.contains_key(f) {
        assert(!folder_in_use(before, f));
        assert forall|k: int| 0 <= k < before.len() implies !in_folder(f)(
            #[trigger] before[k],
        ) by {
            assert(before[k].folder_id != f);
        }
        before.lemma_all_neg_filter_empty(in_folder(f));
    }
    assert(after.filter(in_folder(f)) == before.filter(in_folder(f)).push(tv));
    assert forall|g: Seq<char>| #[trigger] next.contains_key(g) == folder_in_use(after, g) by {
        assert(after[before.len() as int].folder_id == f);
        if folder_in_use(before, g) {
            let k = choose|k: int| 0 <= k < before.len() && (#[trigger] before[k]).folder_id == g;
            assert(after[k].folder_id == g);
        }
        if folder_in_use(after, g) && g != f {
            let k = choose|k: int| 0 <= k < after.len() && (#[trigger] after[k]).folder_id == g;
            assert(before[k].folder_id == g);
        }
        assert(m.contains_key(g) == folder_in_use(before, g));
    }
    assert forall|g: Seq<char>| #[trigger] next.contains_key(g) implies task_views(next[g]@)
        == after.filter(in_folder(g)) by {
        if g != f {
            assert(m.contains_key(g));
            assert(after.filter(in_folder(g)) == before.filter(in_folder(g)));
        }
    }
}

/// Sorting by folder loses no task: each stands in the list of its folder.
pub proof fn law_partition_keeps_every_task(
    m: Map<Seq<char>, Vec<DownloadTask>>,
    ts: Seq<TaskView>,
    i: int,
)
    requires
        is_partition(m, ts),
        0 <= i < ts.len(),
    ensures
        m.contains_key(ts[i].folder_id),
        task_views(m[ts[i].folder_id]@).contains(ts[i]),
{
    assert(folder_in_use(ts, ts[i].folder_id));
    ts.lemma_filter_contains(in_folder(ts[i].folder_id), i);
}

impl Default for DownloadQueue {
    fn default() -> (r: DownloadQueue)
        ensures
            r@ == Seq::<TaskView>::empty(),
    {
        Self::new()
    }
}

impl DownloadQueue {
    /// An empty queue.
    pub fn new() -> (r: DownloadQueue)
        ensures
            r@ == Seq::<TaskView>::empty(),
    {
        let r = DownloadQueue { tasks: Vec::new() };
        assert(r@ =~= Seq::<TaskView>::empty());
        r
    }

    /// Adds a task behind all others.
    pub fn add(&mut self, task: DownloadTask)
        ensures
            final(self)@ == old(self)@.push(task@),
    {
        self.tasks.push(task);
        assert(self@ =~= old(self)@.push(task@));
    }

    /// Copies of all tasks, in order.
    pub fn get_all(&self) -> (r: Vec<DownloadTask>)
        ensures
            task_views(r@) == self@,
    {
        let mut out: Vec<DownloadTask> = Vec::new();
        for i in 0..self.tasks.len()
            invariant
                task_views(out@) == self@.take(i as int),
        {
            let t = self.tasks[i].clone();
            let ghost before = task_views(out@);
            out.push(t);
            assert(task_views(out@) =~= before.push(t@));
            assert(self@.take(i + 1) =~= self@.take(i as int).push(self@[i as int]));
        }
        assert(self@.take(self@.len() as int) =~= self@);
        out
    }

    fn find(&self, id: u128) -> (r: Option<usize>)
        ensures
            match r {
                Some(p) => position(self@, id) == Some(p as int) && p < self.tasks@.len(),
                None => position(self@, id) is None,
            },
    {
        for i in 0..self.tasks.len()
            invariant
                position(self@, id) == first_from(self@, id, i as int),
        {
            assert(self@[i as int] == self.tasks@[i as int]@);
            if self.tasks[i].id == id {
                return Some(i);
            }
        }
        None
    }

    /// Takes the first task with the given id out.
    pub fn remove(&mut self, id: u128) -> (r: Option<DownloadTask>)
        ensures
            match r {
                Some(t) => position(old(self)@, id) is Some && t@ == old(self)@[position(
                    old(self)@,
                    id,
                )->0] && final(self)@ == old(self)@.remove(position(old(self)@, id)->0),
                None => position(old(self)@, id) is None && final(self)@ == old(self)@,
            },
    {
        match self.find(id) {
            Some(p) => {
                let t = self.tasks.remove(p);
                assert(self@ =~= old(self)@.remove(p as int));
                assert(old(self)@[p as int] == t@);
                Some(t)
            },
            None => None,
        }
    }

    /// A copy of the first task with the given id.
    pub fn get_by_id(&self, id: u128) -> (r: Option<DownloadTask>)
        ensures
            match r {
                Some(t) => position(self@, id) is Some && t@ == self@[position(self@, id)->0],
                None => position(self@, id) is None,
            },
    {
        match self.find(id) {
            Some(p) => {
                assert(self@[p as int] == self.tasks@[p as int]@);
                Some(self.tasks[p].clone())
            },
            None => None,
        }
    }

    /// Replaces the first task that has the id of `task`; does nothing if there
    /// is none.
    pub fn update(&mut self, task: DownloadTask)
        ensures
            final(self)@ == (match position(old(self)@, task.id) {
                Some(p) => old(self)@.update(p, task@),
                None => old(self)@,
            }),
    {
        match self.find(task.id) {
            Some(p) => {
                self.tasks.set(p, task);
                assert(self@ =~= old(self)@.update(p as int, task@));
            },
            None => {},
        }
    }

    /// Puts the given tasks in the place of all others.
    pub fn replace_all(&mut self, tasks: Vec<DownloadTask>)
        ensures
            final(self)@ == task_views(tasks@),
    {
        self.tasks = tasks;
    }

    /// The tasks sorted by folder.
    pub fn by_folder(&self) -> (r: TextMap<Vec<DownloadTask>>)
        ensures
            is_partition(r@, self@),
    {
        let mut m: TextMap<Vec<DownloadTask>> = TextMap::new();
        proof {
            assert(self@.take(0) =~= Seq::<TaskView>::empty());
        }
        for i in 0..self.tasks.len()
            invariant
                is_partition(m@, self@.take(i as int)),
        {
            let ghost before = self@.take(i as int);
            let ghost old_m = m@;
            let task = self.tasks[i].clone();
            let ghost tv = task@;
            file_task(&mut m, task);
            proof {
                let list = choose|list: Vec<DownloadTask>|
                    m@ == #[trigger] old_m.insert(tv.folder_id, list) && is_longer(
                        list,
                        old_m,
                        tv,
                    );
                lemma_partition_grows(old_m, before, tv, list);
                assert(self@.take(i + 1) =~= before.push(tv));
            }
        }
        assert(self@.take(self@.len() as int) =~= self@);
        m
    }

    /// Of the folders that have a queue file, those that no task belongs to any
    /// more, in order: their files are to be deleted.
    pub fn stale_folders(&self, with_file: &Vec<String>) -> (r: Vec<String>)
        ensures
            texts(r@) == texts(with_file@).filter(|f: Seq<char>| !folder_in_use(self@, f)),
    {
        let ghost p = |f: Seq<char>| !folder_in_use(self@, f);
        let ghost names = texts(with_file@);
        let mut out: Vec<String> = Vec::new();
        proof {
            reveal(Seq::filter);
            assert(names.take(0) =~= Seq::<Seq<char>>::empty());
            assert(texts(out@) =~= Seq::<Seq<char>>::empty());
        }
        for i in 0..with_file.len()
            invariant
                names == texts(with_file@),
                p == (|f: Seq<char>| !folder_in_use(self@, f)),
                texts(out@) == names.take(i as int).filter(p),
        {
            proof {
                reveal(Seq::filter);
                assert(names.take(i + 1).drop_last() =~= names.take(i as int));
                assert(names.take(i + 1).last() == with_file@[i as int]@);
            }
            if !self.uses_folder(with_file[i].as_str()) {
                let ghost before = texts(out@);
                out.push(with_file[i].clone());
                assert(texts(out@) =~= before.push(with_file@[i as int]@));
            }
        }
        assert(names.take(names.len() as int) =~= names);
        out
    }

    /// Whether any task belongs to the given folder.
    pub fn uses_folder(&self, folder_id: &str) -> (r: bool)
        ensures
            r == folder_in_use(self@, folder_id@),
    {
        for i in 0..self.tasks.len()
            invariant
                forall|j: int| 0 <= j < i ==> (#[trigger] self@[j]).folder_id != folder_id@,
        {
            assert(self@[i as int] == self.tasks@[i as int]@);
            if text_eq(self.tasks[i].folder_id.as_str(), folder_id) {
                return true;
            }
        }
        false
    }
}

} // verus!

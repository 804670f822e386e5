//! Commands that act on several downloads, or move one.

use vstd::prelude::*;
use vstd::string::*;
use super::folder::{folder_meant, means_folder, not_found, resolve_folder_id};
use super::handler::opt_str;
use crate::app::config::Config;
use crate::clock::{current_moment, valid_instant, Moment};
use crate::download::folder_queue::{
    can_move_before, law_move_before_permutes, law_move_to_bottom_permutes,
    law_move_to_top_permutes, law_moves_keep_the_order_of_the_others, lemma_position, moved_before,
    moved_to_bottom, moved_to_top, position, queue_removed, task_views, QueueView,
};
use crate::download::history::ids_distinct;
use crate::download::manager::{
    all_tasks, find_task, holder, law_added_tasks_are_counted, law_all_tasks_are_there,
    law_found_tasks_have_the_id, law_mover_holds_both, law_pausing_each_is_exact,
    law_removal_is_exact, lemma_added_is_there, lemma_all_tasks_len,
    lemma_all_tasks_permuted, lemma_holder_from, mover_from, reordered, task_added, task_removed,
    well_filed, DownloadManager, ManagerView,
};
use crate::download::task::{fresh_task, DownloadStatus, DownloadTask, TaskView};
use crate::file::naming::{
    file_extension, keeps_wanted, law_moment_before_the_extension, lemma_keeps_none,
    lemma_keeps_wanted, name_parts, same_extension, sanitized,
};
use crate::file::path::{PathView, SavePath};
use crate::ids::{fresh_id, parse_uuid, uuid_bits};
use crate::script::events::HookEvent;
use crate::text::{
    decimal, decimal_u64, sort_texts, split, split_at_char, text_eq, texts, texts_sorted, trim,
    trimmed,
};
use crate::text_map::TextMap;

verus! {

// ---------------------------------------------------------------------------
// Picking downloads
// ---------------------------------------------------------------------------

/// The ids of the downloads that have one of the given statuses and are in the
/// given folder, if one is named; in order.
pub open spec fn picked(
    ts: Seq<TaskView>,
    statuses: Seq<DownloadStatus>,
    folder: Option<Seq<char>>,
) -> Seq<u128>
    decreases ts.len(),
{
    if ts.len() == 0 {
        Seq::empty()
    } else if statuses.contains(ts.last().status) && (folder is None || ts.last().folder_id
        == folder->0) {
        picked(ts.drop_last(), statuses, folder).push(ts.last().id)
    } else {
        picked(ts.drop_last(), statuses, folder)
    }
}

/// The downloads that are picked are those with one of the statuses, in the folder if
/// one is named, and no other, in their order.
pub proof fn law_picked_by_status_and_folder(
    ts: Seq<TaskView>,
    statuses: Seq<DownloadStatus>,
    folder: Option<Seq<char>>,
)
    ensures
        folder is None ==> picked(ts, statuses, folder) == ts.filter(
            |t: TaskView| statuses.contains(t.status),
        ).map_values(|t: TaskView| t.id),
        folder is Some ==> picked(ts, statuses, folder) == ts.filter(
            |t: TaskView| statuses.contains(t.status) && t.folder_id == folder->0,
        ).map_values(|t: TaskView| t.id),
    decreases ts.len(),
{
    reveal(Seq::filter);
    let of_any = |t: TaskView| statuses.contains(t.status);
    let of_one = |t: TaskView| statuses.contains(t.status) && t.folder_id == folder->0;
    let id = |t: TaskView| t.id;
    if ts.len() > 0 {
        let before = ts.drop_last();
        law_picked_by_status_and_folder(before, statuses, folder);
        assert(before.filter(of_any).push(ts.last()).map_values(id) =~= before.filter(
            of_any,
        ).map_values(id).push(ts.last().id));
        assert(before.filter(of_one).push(ts.last()).map_values(id) =~= before.filter(
            of_one,
        ).map_values(id).push(ts.last().id));
    } else {
        assert(ts.filter(of_any).map_values(id) =~= Seq::empty());
        assert(ts.filter(of_one).map_values(id) =~= Seq::empty());
    }
}

fn has_status(statuses: &Vec<DownloadStatus>, status: DownloadStatus) -> (r: bool)
    ensures
        r == statuses@.contains(status),
{
    for i in 0..statuses.len()
        invariant
            forall|k: int| 0 <= k < i ==> statuses@[k] != status,
    {
        if statuses[i] == status {
            assert(statuses@.contains(status));
            return true;
        }
    }
    false
}

/// The ids of the downloads that have one of the given statuses and are in the
/// given folder, if one is named.
pub fn pick_ids(
    tasks: &Vec<DownloadTask>,
    statuses: &Vec<DownloadStatus>,
    folder: Option<&str>,
) -> (r: Vec<u128>)
    ensures
        r@ == picked(task_views(tasks@), statuses@, opt_str(folder)),
{
    let ghost ts = task_views(tasks@);
    let ghost f = opt_str(folder);
    let mut r: Vec<u128> = Vec::new();
    assert(ts.take(0) =~= Seq::<TaskView>::empty());
    for i in 0..tasks.len()
        invariant
            ts == task_views(tasks@),
            f == opt_str(folder),
            r@ == picked(ts.take(i as int), statuses@, f),
    {
        assert(ts.take(i + 1).drop_last() =~= ts.take(i as int));
        assert(ts.take(i + 1).last() == tasks@[i as int]@);
        let in_folder = match folder {
            Some(id) => text_eq(tasks[i].folder_id.as_str(), id),
            None => true,
        };
        if in_folder && has_status(statuses, tasks[i].status) {
            r.push(tasks[i].id);
        }
    }
    assert(ts.take(ts.len() as int) =~= ts);
    r
}

/// The downloads to start where all of a folder, or all, are to: those that wait
/// and those that are paused.
pub fn startable_ids(manager: &DownloadManager, folder: Option<&str>) -> (r: Vec<u128>)
    ensures
        r@ == picked(
            all_tasks(manager@.folders),
            seq![DownloadStatus::Pending, DownloadStatus::Paused],
            opt_str(folder),
        ),
{
    let tasks = manager.get_all_downloads();
    let statuses = vec![DownloadStatus::Pending, DownloadStatus::Paused];
    assert(statuses@ =~= seq![DownloadStatus::Pending, DownloadStatus::Paused]);
    pick_ids(&tasks, &statuses, folder)
}

/// Pauses all downloads of a folder, or all, that run. Says how many.
pub fn pause_running(manager: &mut DownloadManager, folder: Option<&str>) -> (r: usize)
    requires
        old(manager)@.wf(),
    ensures
        ({
            let ids = picked(
                all_tasks(old(manager)@.folders),
                seq![DownloadStatus::Downloading],
                opt_str(folder),
            );
            &&& final(manager)@ == crate::download::manager::all_paused(old(manager)@, ids)
            &&& r == ids.len()
        }),
        final(manager)@.wf(),
        old(manager)@.in_sync() ==> final(manager)@.in_sync(),
{
    let tasks = manager.get_all_downloads();
    let statuses = vec![DownloadStatus::Downloading];
    assert(statuses@ =~= seq![DownloadStatus::Downloading]);
    let ids = pick_ids(&tasks, &statuses, folder);
    let ghost start = manager@;
    assert(ids@.take(0) =~= Seq::<u128>::empty());
    for i in 0..ids.len()
        invariant
            manager@ == crate::download::manager::all_paused(start, ids@.take(i as int)),
            manager@.wf(),
            start.in_sync() ==> manager@.in_sync(),
    {
        manager.pause_download(ids[i]);
        assert(ids@.take(i + 1).drop_last() =~= ids@.take(i as int));
    }
    assert(ids@.take(ids@.len() as int) =~= ids@);
    ids.len()
}

// ---------------------------------------------------------------------------
// Clearing
// ---------------------------------------------------------------------------

/// The status that a word means.
pub open spec fn status_meant(word: Seq<char>) -> Option<DownloadStatus> {
    if word == "completed"@ {
        Some(DownloadStatus::Completed)
    } else if word == "error"@ {
        Some(DownloadStatus::Error)
    } else if word == "paused"@ {
        Some(DownloadStatus::Paused)
    } else if word == "pending"@ {
        Some(DownloadStatus::Pending)
    } else {
        None
    }
}

/// The words of a list, without white space at their ends; empty ones left out.
pub open spec fn words(parts: Seq<Seq<char>>) -> Seq<Seq<char>>
    decreases parts.len(),
{
    if parts.len() == 0 {
        Seq::empty()
    } else if trimmed(parts.last()).len() > 0 {
        words(parts.drop_last()).push(trimmed(parts.last()))
    } else {
        words(parts.drop_last())
    }
}

/// The first word that means no status.
pub open spec fn first_unknown(ws: Seq<Seq<char>>) -> Option<Seq<char>>
    decreases ws.len(),
{
    if ws.len() == 0 {
        None
    } else if first_unknown(ws.drop_last()) is Some {
        first_unknown(ws.drop_last())
    } else if status_meant(ws.last()) is None {
        Some(ws.last())
    } else {
        None
    }
}

/// The statuses that words mean.
pub open spec fn statuses_meant(ws: Seq<Seq<char>>) -> Seq<DownloadStatus> {
    ws.map_values(|w: Seq<char>| status_meant(w)->0)
}

/// The words that can be used, as they are shown.
pub open spec fn status_words() -> Seq<char> {
    "completed, error, paused, pending"@
}

/// Four words mean a status, and no other word means any.
pub proof fn law_words_for_statuses(word: Seq<char>)
    ensures
        status_meant(word) == Some(DownloadStatus::Completed) <==> word == "completed"@,
        status_meant(word) == Some(DownloadStatus::Error) <==> word == "error"@,
        status_meant(word) == Some(DownloadStatus::Paused) <==> word == "paused"@,
        status_meant(word) == Some(DownloadStatus::Pending) <==> word == "pending"@,
        status_meant(word) is None <==> word != "completed"@ && word != "error"@ && word
            != "paused"@ && word != "pending"@,
{
    reveal_strlit("completed");
    reveal_strlit("error");
    reveal_strlit("paused");
    reveal_strlit("pending");
    assert("completed"@.len() == 9 && "error"@.len() == 5 && "paused"@.len() == 6
        && "pending"@.len() == 7);
}

/// The words of a list are its parts without white space around them, but for those
/// that are nothing else.
pub proof fn law_words_of_a_list(parts: Seq<Seq<char>>)
    ensures
        words(parts) == parts.map_values(|p: Seq<char>| trimmed(p)).filter(
            |w: Seq<char>| w.len() > 0,
        ),
    decreases parts.len(),
{
    reveal(Seq::filter);
    let bare = |p: Seq<char>| trimmed(p);
    let some = |w: Seq<char>| w.len() > 0;
    let all = parts.map_values(bare);
    if parts.len() > 0 {
        law_words_of_a_list(parts.drop_last());
        assert(all.drop_last() =~= parts.drop_last().map_values(bare));
        assert(all.last() == trimmed(parts.last()));
    } else {
        assert(all.filter(some) =~= Seq::empty());
    }
}

/// A word that means no status is named, and of several the first.
pub proof fn law_first_unknown_word(ws: Seq<Seq<char>>, k: int)
    requires
        0 <= k <= ws.len(),
        forall|i: int| 0 <= i < k ==> status_meant(#[trigger] ws[i]) is Some,
        k < ws.len() ==> status_meant(ws[k]) is None,
    ensures
        k < ws.len() ==> first_unknown(ws) == Some(ws[k]),
        k == ws.len() ==> first_unknown(ws) is None,
    decreases ws.len(),
{
    if ws.len() > 0 {
        let before = ws.drop_last();
        let m = if k < ws.len() {
            k
        } else {
            k - 1
        };
        assert(forall|i: int| 0 <= i < before.len() ==> #[trigger] before[i] == ws[i]);
        assert forall|i: int| 0 <= i < m implies status_meant(#[trigger] before[i]) is Some by {
            assert(before[i] == ws[i]);
        }
        law_first_unknown_word(before, m);
        if k == ws.len() {
            assert(status_meant(ws[k - 1]) is Some);
        }
    }
}

fn status_of(word: &str) -> (r: Option<DownloadStatus>)
    ensures
        r == status_meant(word@),
{
    if text_eq(word, "completed") {
        Some(DownloadStatus::Completed)
    } else if text_eq(word, "error") {
        Some(DownloadStatus::Error)
    } else if text_eq(word, "paused") {
        Some(DownloadStatus::Paused)
    } else if text_eq(word, "pending") {
        Some(DownloadStatus::Pending)
    } else {
        None
    }
}

fn list_words(list: &str) -> (r: Vec<String>)
    ensures
        texts(r@) == words(split(list@, ',')),
{
    let parts = split_at_char(list, ',');
    let ghost ps = texts(parts@);
    let mut r: Vec<String> = Vec::new();
    assert(texts(r@) =~= Seq::<Seq<char>>::empty());
    assert(ps.take(0) =~= Seq::<Seq<char>>::empty());
    for i in 0..parts.len()
        invariant
            ps == texts(parts@),
            texts(r@) == words(ps.take(i as int)),
    {
        assert(ps.take(i + 1).drop_last() =~= ps.take(i as int));
        assert(ps.take(i + 1).last() == parts@[i as int]@);
        let word = trim(parts[i].as_str());
        if !word.as_str().is_empty() {
            assert(texts(r@.push(word)) =~= texts(r@).push(word@));
            r.push(word);
        }
    }
    assert(ps.take(ps.len() as int) =~= ps);
    r
}

/// An unknown word stays the first one, whatever follows.
proof fn lemma_unknown_stays(ws: Seq<Seq<char>>, n: int)
    requires
        0 <= n <= ws.len(),
        first_unknown(ws.take(n)) is Some,
    ensures
        first_unknown(ws) == first_unknown(ws.take(n)),
    decreases ws.len(),
{
    if n < ws.len() {
        assert(ws.drop_last().take(n) =~= ws.take(n));
        lemma_unknown_stays(ws.drop_last(), n);
    } else {
        assert(ws.take(n) =~= ws);
    }
}

/// The statuses that a list of words means, or what is said of a list that names
/// none or an unknown one.
pub fn parse_statuses(list: &str) -> (r: Result<Vec<DownloadStatus>, String>)
    ensures
        ({
            let ws = words(split(list@, ','));
            if ws.len() == 0 {
                r is Err && r->Err_0@ == "No status specified. Valid: "@ + status_words()
            } else {
                match first_unknown(ws) {
                    Some(w) => r is Err && r->Err_0@ == "Unknown status '"@ + w + "'. Valid: "@
                        + status_words(),
                    None => r is Ok && r->Ok_0@ == statuses_meant(ws),
                }
            }
        }),
{
    let parts = list_words(list);
    let ghost ws = texts(parts@);
    if parts.len() == 0 {
        let mut s = "No status specified. Valid: ".to_owned();
        s.append("completed, error, paused, pending");
        return Err(s);
    }
    let mut r: Vec<DownloadStatus> = Vec::new();
    assert(ws.take(0) =~= Seq::<Seq<char>>::empty());
    assert(r@ =~= statuses_meant(ws.take(0)));
    for i in 0..parts.len()
        invariant
            ws == texts(parts@),
            ws == words(split(list@, ',')),
            ws.len() > 0,
            first_unknown(ws.take(i as int)) is None,
            r@ == statuses_meant(ws.take(i as int)),
    {
        assert(ws.take(i + 1).drop_last() =~= ws.take(i as int));
        assert(ws.take(i + 1).last() == parts@[i as int]@);
        match status_of(parts[i].as_str()) {
            Some(status) => {
                assert(r@.push(status) =~= statuses_meant(ws.take(i + 1)));
                r.push(status);
            },
            None => {
                proof {
                    lemma_unknown_stays(ws, i + 1);
                }
                let mut s = "Unknown status '".to_owned();
                s.append(parts[i].as_str());
                s.append("'. Valid: ");
                s.append("completed, error, paused, pending");
                return Err(s);
            },
        }
    }
    assert(ws.take(ws.len() as int) =~= ws);
    Ok(r)
}

/// The manager after several downloads were removed, one after another, and how
/// many of them were there.
pub open spec fn each_removed(m: ManagerView, ids: Seq<u128>) -> (ManagerView, nat)
    decreases ids.len(),
{
    if ids.len() == 0 {
        (m, 0)
    } else {
        let before = each_removed(m, ids.drop_last());
        (
            ManagerView {
                folders: task_removed(before.0.folders, ids.last()),
                active: before.0.active.remove(ids.last()),
                breaker: before.0.breaker.released(ids.last()),
                ..before.0
            },
            before.1 + (if find_task(before.0.folders, ids.last()) is Some {
                1nat
            } else {
                0nat
            }),
        )
    }
}

/// Removes downloads, one after another. Says how many were there.
pub fn remove_each(manager: &mut DownloadManager, ids: &Vec<u128>) -> (r: usize)
    requires
        old(manager)@.wf(),
    ensures
        final(manager)@ == each_removed(old(manager)@, ids@).0,
        r == each_removed(old(manager)@, ids@).1,
        final(manager)@.wf(),
{
    let ghost start = manager@;
    let mut n: usize = 0;
    assert(ids@.take(0) =~= Seq::<u128>::empty());
    for i in 0..ids.len()
        invariant
            manager@ == each_removed(start, ids@.take(i as int)).0,
            n == each_removed(start, ids@.take(i as int)).1,
            n <= i,
            manager@.wf(),
    {
        assert(ids@.take(i + 1).drop_last() =~= ids@.take(i as int));
        if manager.remove_download(ids[i]).is_some() {
            n = n + 1;
        }
    }
    assert(ids@.take(ids@.len() as int) =~= ids@);
    n
}

/// Removes all downloads of a folder, or all, whose status is among those that a
/// list of words means. Says how many.
pub fn clear(manager: &mut DownloadManager, list: &str, folder: Option<&str>) -> (r: Result<
    usize,
    String,
>)
    requires
        old(manager)@.wf(),
    ensures
        ({
            let ws = words(split(list@, ','));
            let ids = picked(
                all_tasks(old(manager)@.folders),
                statuses_meant(ws),
                opt_str(folder),
            );
            if ws.len() > 0 && first_unknown(ws) is None {
                r is Ok && final(manager)@ == each_removed(old(manager)@, ids).0 && r->Ok_0
                    == each_removed(old(manager)@, ids).1
            } else {
                r is Err && final(manager)@ == old(manager)@ && r->Err_0@ == (if ws.len() == 0 {
                    "No status specified. Valid: "@ + status_words()
                } else {
                    "Unknown status '"@ + first_unknown(ws)->0 + "'. Valid: "@ + status_words()
                })
            }
        }),
        final(manager)@.wf(),
{
    match parse_statuses(list) {
        Ok(statuses) => {
            let tasks = manager.get_all_downloads();
            let ids = pick_ids(&tasks, &statuses, folder);
            Ok(remove_each(manager, &ids))
        },
        Err(e) => Err(e),
    }
}

/// The ids that are picked are those of the downloads with one of the statuses in
/// the folder, if one is named.
pub proof fn lemma_picked(
    ts: Seq<TaskView>,
    statuses: Seq<DownloadStatus>,
    folder: Option<Seq<char>>,
    t: TaskView,
)
    requires
        ts.contains(t),
        statuses.contains(t.status),
        folder is None || t.folder_id == folder->0,
    ensures
        picked(ts, statuses, folder).contains(t.id),
    decreases ts.len(),
{
    let k = choose|k: int| 0 <= k < ts.len() && ts[k] == t;
    let before = ts.drop_last();
    if k == ts.len() - 1 {
        let ids = picked(ts, statuses, folder);
        assert(ids[ids.len() - 1] == t.id);
    } else {
        assert(before[k] == t);
        lemma_picked(before, statuses, folder, t);
        let ids = picked(before, statuses, folder);
        let j = choose|j: int| 0 <= j < ids.len() && ids[j] == t.id;
        assert(picked(ts, statuses, folder)[j] == t.id);
    }
}

/// Where no two downloads share an id, removing some takes them, and nothing
/// else, out of the queue.
pub proof fn law_removing_each_is_exact(m: ManagerView, ids: Seq<u128>)
    requires
        ids_distinct(all_tasks(m.folders)),
    ensures
        ids_distinct(all_tasks(each_removed(m, ids).0.folders)),
        forall|t: TaskView| #[trigger]
            all_tasks(each_removed(m, ids).0.folders).contains(t) <==> all_tasks(
                m.folders,
            ).contains(t) && !ids.contains(t.id),
    decreases ids.len(),
{
    if ids.len() > 0 {
        let before = ids.drop_last();
        law_removing_each_is_exact(m, before);
        let n = each_removed(m, before).0;
        law_removal_is_exact(n.folders, ids.last());
        assert forall|t: TaskView| #[trigger]
            all_tasks(each_removed(m, ids).0.folders).contains(t) <==> all_tasks(
                m.folders,
            ).contains(t) && !ids.contains(t.id) by {
            assert(all_tasks(n.folders).contains(t) <==> all_tasks(m.folders).contains(t)
                && !before.contains(t.id));
            if before.contains(t.id) {
                let k = choose|k: int| 0 <= k < before.len() && before[k] == t.id;
                assert(ids[k] == t.id);
            }
            if ids.contains(t.id) && t.id != ids.last() {
                let k = choose|k: int| 0 <= k < ids.len() && ids[k] == t.id;
                assert(before[k] == t.id);
            }
            if t.id == ids.last() {
                assert(ids[ids.len() - 1] == t.id);
            }
        }
    }
}

/// Where no two downloads share an id, every one that was named and was there is
/// counted as removed. What is removed no longer runs, and nothing else about the
/// manager changes.
pub proof fn law_removals_are_counted(m: ManagerView, ids: Seq<u128>)
    requires
        ids_distinct(all_tasks(m.folders)),
        ids.no_duplicates(),
        forall|i: int|
            0 <= i < ids.len() ==> exists|t: TaskView|
                #[trigger] all_tasks(m.folders).contains(t) && t.id == #[trigger] ids[i],
    ensures
        each_removed(m, ids).1 == ids.len(),
        each_removed(m, ids).0.history == m.history,
        each_removed(m, ids).0.active_folders == m.active_folders,
        each_removed(m, ids).0.breaker.circuits == m.breaker.circuits,
        forall|id: u128|
            #[trigger] each_removed(m, ids).0.active.contains(id) <==> m.active.contains(id)
                && !ids.contains(id),
    decreases ids.len(),
{
    if ids.len() > 0 {
        let before = ids.drop_last();
        let last = ids.last();
        assert(ids[ids.len() - 1] == last);
        assert forall|i: int| 0 <= i < before.len() implies exists|t: TaskView|
            #[trigger] all_tasks(m.folders).contains(t) && t.id == #[trigger] before[i] by {
            assert(before[i] == ids[i]);
        }
        assert(before.no_duplicates());
        law_removals_are_counted(m, before);
        law_removing_each_is_exact(m, before);
        let n = each_removed(m, before).0;
        let t = choose|t: TaskView| #[trigger]
            all_tasks(m.folders).contains(t) && t.id == ids[ids.len() - 1];
        assert(!before.contains(t.id)) by {
            if before.contains(t.id) {
                let k = choose|k: int| 0 <= k < before.len() && before[k] == t.id;
                assert(ids[k] == ids[ids.len() - 1]);
            }
        }
        assert(all_tasks(n.folders).contains(t));
        law_found_tasks_have_the_id(n.folders, last);
        assert forall|id: u128|
            #[trigger] each_removed(m, ids).0.active.contains(id) <==> m.active.contains(id)
                && !ids.contains(id) by {
            assert(n.active.contains(id) <==> m.active.contains(id) && !before.contains(id));
            if before.contains(id) {
                let k = choose|k: int| 0 <= k < before.len() && before[k] == id;
                assert(ids[k] == id);
            }
            if ids.contains(id) && id != last {
                let k = choose|k: int| 0 <= k < ids.len() && ids[k] == id;
                assert(before[k] == id);
            }
        }
    }
}

/// Where no two downloads share an id, no download with one of the statuses is
/// left after they were cleared.
pub proof fn law_cleared_statuses_are_gone(
    m: ManagerView,
    statuses: Seq<DownloadStatus>,
    folder: Option<Seq<char>>,
    t: TaskView,
)
    requires
        ids_distinct(all_tasks(m.folders)),
        all_tasks(
            each_removed(m, picked(all_tasks(m.folders), statuses, folder)).0.folders,
        ).contains(t),
        folder is None || t.folder_id == folder->0,
    ensures
        !statuses.contains(t.status),
{
    let ids = picked(all_tasks(m.folders), statuses, folder);
    law_removing_each_is_exact(m, ids);
    if statuses.contains(t.status) {
        lemma_picked(all_tasks(m.folders), statuses, folder, t);
    }
}

/// The ids of all downloads, in order.
pub open spec fn all_ids(ts: Seq<TaskView>) -> Seq<u128> {
    ts.map_values(|t: TaskView| t.id)
}

/// Removes all downloads. Says how many there were.
pub fn reset_queue(manager: &mut DownloadManager) -> (r: usize)
    requires
        old(manager)@.wf(),
    ensures
        final(manager)@ == each_removed(
            old(manager)@,
            all_ids(all_tasks(old(manager)@.folders)),
        ).0,
        r == all_tasks(old(manager)@.folders).len(),
        final(manager)@.wf(),
{
    let tasks = manager.get_all_downloads();
    let ghost ts = task_views(tasks@);
    let mut ids: Vec<u128> = Vec::new();
    for i in 0..tasks.len()
        invariant
            ts == task_views(tasks@),
            ids@ == all_ids(ts).take(i as int),
    {
        assert(all_ids(ts)[i as int] == tasks@[i as int].id);
        assert(all_ids(ts).take(i + 1) =~= all_ids(ts).take(i as int).push(
            tasks@[i as int].id,
        ));
        ids.push(tasks[i].id);
    }
    assert(all_ids(ts).take(ts.len() as int) =~= all_ids(ts));
    let _ = remove_each(manager, &ids);
    tasks.len()
}

// ---------------------------------------------------------------------------
// Adding
// ---------------------------------------------------------------------------

/// A new download of `url` in the given folder, if one is named.
pub open spec fn new_download(
    id: u128,
    url: Seq<char>,
    place: PathView,
    folder: Option<Seq<char>>,
    now: Moment,
) -> TaskView {
    let t = fresh_task(
        id,
        url,
        place,
        "default"@,
        Map::empty(),
        None,
        now,
        "Download task created"@,
    );
    match folder {
        Some(f) => TaskView { folder_id: f, ..t },
        None => t,
    }
}

/// The manager with a download added.
pub open spec fn with_download(m: ManagerView, t: TaskView) -> ManagerView {
    ManagerView {
        folders: task_added(
            m.folders,
            TaskView { filename: sanitized(t.filename), ..t },
            m.per_folder,
        ),
        ..m
    }
}

/// A URL that is added waits in the folder that is named, or else in the default one,
/// to be saved to the given place under the safe form of its name; nothing else about
/// the manager changes.
pub proof fn law_added_urls_wait(
    m: ManagerView,
    id: u128,
    url: Seq<char>,
    place: PathView,
    folder: Option<Seq<char>>,
    now: Moment,
)
    ensures
        ({
            let t = new_download(id, url, place, folder, now);
            let n = with_download(m, t);
            let filed = TaskView { filename: sanitized(t.filename), ..t };
            &&& t.id == id
            &&& t.url == url
            &&& t.save_path == place
            &&& t.status == DownloadStatus::Pending
            &&& t.created_at == now
            &&& t.downloaded == 0
            &&& t.user_agent is None
            &&& t.headers == Map::<Seq<char>, Seq<char>>::empty()
            &&& t.logs.len() == 1
            &&& t.logs[0].message == "Download task created"@
            &&& t.logs[0].timestamp == now
            &&& folder is Some ==> t.folder_id == folder->0
            &&& folder is None ==> t.folder_id == "default"@
            &&& n == (ManagerView { folders: n.folders, ..m })
            &&& all_tasks(n.folders).contains(filed)
            &&& forall|x: TaskView|
                #[trigger] all_tasks(n.folders).contains(x) <==> all_tasks(m.folders).contains(x)
                    || x == filed
        }),
{
    let t = new_download(id, url, place, folder, now);
    let filed = TaskView { filename: sanitized(t.filename), ..t };
    let n = with_download(m, t);
    assert forall|x: TaskView|
        #[trigger] all_tasks(n.folders).contains(x) <==> all_tasks(m.folders).contains(x) || x
            == filed by {
        lemma_added_is_there(m.folders, filed, m.per_folder, x);
    }
}

/// Adds a download of `url`, with the given id, made at the moment `now`.
pub fn queue_url_as(
    manager: &mut DownloadManager,
    id: u128,
    url: String,
    folder: Option<&str>,
    place: &SavePath,
    now: Moment,
)
    requires
        old(manager)@.wf(),
    ensures
        final(manager)@ == with_download(
            old(manager)@,
            new_download(id, url@, place@, opt_str(folder), now),
        ),
        final(manager)@.wf(),
{
    let mut task = DownloadTask::create(id, url, place.clone(), now);
    if let Some(f) = folder {
        task.folder_id = f.to_owned();
    }
    assert(task@ =~= new_download(id, url@, place@, opt_str(folder), now));
    manager.add_download(task);
}

/// Adds a download of `url`, with a new random id, made now. Returns the id.
pub fn queue_url(
    manager: &mut DownloadManager,
    url: String,
    folder: Option<&str>,
    place: &SavePath,
) -> (r: u128)
    requires
        old(manager)@.wf(),
    ensures
        exists|now: Moment|
            valid_instant(now) && final(manager)@ == #[trigger] with_download(
                old(manager)@,
                new_download(r, url@, place@, opt_str(folder), now),
            ),
        final(manager)@.wf(),
{
    let id: u128 = fresh_id();
    let now: Moment = current_moment();
    queue_url_as(manager, id, url, folder, place, now);
    id
}

/// The name of a made-up file.
pub open spec fn sample_name(i: nat) -> Seq<char> {
    "test_file_"@ + decimal(i) + ".zip"@
}

/// Made-up files are numbered, and the words for statuses are these.
pub proof fn law_sample_names(i: nat)
    ensures
        sample_name(i) == "test_file_"@ + decimal(i) + ".zip"@,
        status_words() == "completed, error, paused, pending"@,
{
}

/// The URL of a made-up file.
pub fn sample_url(i: usize) -> (r: String)
    ensures
        r@ == "http://example.com/"@ + sample_name(i as nat),
{
    let mut s = "http://example.com/".to_owned();
    let mut name = "test_file_".to_owned();
    name.append(decimal_u64(i as u64).as_str());
    name.append(".zip");
    s.append(name.as_str());
    s
}

// ---------------------------------------------------------------------------
// Moving
// ---------------------------------------------------------------------------

/// Where a download is to go.
pub enum MoveTarget {
    Top,
    Bottom,
    Before(u128),
    Folder(String),
}

/// Where a download is to go, as values.
pub enum TargetView {
    Top,
    Bottom,
    Before(u128),
    Folder(Seq<char>),
}

impl View for MoveTarget {
    type V = TargetView;

    open spec fn view(&self) -> TargetView {
        match self {
            MoveTarget::Top => TargetView::Top,
            MoveTarget::Bottom => TargetView::Bottom,
            MoveTarget::Before(id) => TargetView::Before(*id),
            MoveTarget::Folder(f) => TargetView::Folder(f@),
        }
    }
}

/// Reads where a download is to go: to the front; else to the back; else before
/// another; else to a folder, by key or by name.
pub fn read_target(
    config: &Config,
    to_top: bool,
    to_bottom: bool,
    before: Option<&str>,
    folder: Option<&str>,
) -> (r: Result<MoveTarget, String>)
    ensures
        if to_top {
            r is Ok && r->Ok_0@ == TargetView::Top
        } else if to_bottom {
            r is Ok && r->Ok_0@ == TargetView::Bottom
        } else if before is Some {
            match uuid_bits(before->0@) {
                Some(id) => r is Ok && r->Ok_0@ == TargetView::Before(id),
                None => r is Err && r->Err_0@ == "Invalid before UUID format"@,
            }
        } else if folder is Some {
            if means_folder(*config, folder->0@) {
                r is Ok && r->Ok_0@ is Folder && folder_meant(
                    *config,
                    folder->0@,
                    r->Ok_0@->Folder_0,
                )
            } else {
                r is Err && r->Err_0@ == not_found(folder->0@)
            }
        } else {
            r is Err && r->Err_0@
                == "Must specify one of: --to-top, --to-bottom, --before, --folder"@
        },
{
    if to_top {
        Ok(MoveTarget::Top)
    } else if to_bottom {
        Ok(MoveTarget::Bottom)
    } else if let Some(b) = before {
        match parse_uuid(b) {
            Some(id) => Ok(MoveTarget::Before(id)),
            None => Err("Invalid before UUID format".to_owned()),
        }
    } else if let Some(f) = folder {
        match resolve_folder_id(config, f) {
            Some(key) => Ok(MoveTarget::Folder(key)),
            None => {
                let mut s = "Folder '".to_owned();
                s.append(f);
                s.append("' not found");
                Err(s)
            },
        }
    } else {
        Err("Must specify one of: --to-top, --to-bottom, --before, --folder".to_owned())
    }
}

/// The manager after a download was moved, or what is said where it cannot be.
pub open spec fn moved(m: ManagerView, id: u128, target: TargetView) -> Result<
    ManagerView,
    Seq<char>,
> {
    match target {
        TargetView::Top => match holder(m.folders, id) {
            Some(i) => Ok(
                ManagerView {
                    folders: reordered(m.folders, i, moved_to_top(m.folders[i].1.tasks, id)),
                    ..m
                },
            ),
            None => Err("Download not found"@),
        },
        TargetView::Bottom => match holder(m.folders, id) {
            Some(i) => Ok(
                ManagerView {
                    folders: reordered(m.folders, i, moved_to_bottom(m.folders[i].1.tasks, id)),
                    ..m
                },
            ),
            None => Err("Download not found"@),
        },
        TargetView::Before(other) => match mover_from(m.folders, id, other, 0) {
            Some(i) => Ok(
                ManagerView {
                    folders: reordered(
                        m.folders,
                        i,
                        moved_before(m.folders[i].1.tasks, id, other),
                    ),
                    ..m
                },
            ),
            None => Err("Download not found"@),
        },
        TargetView::Folder(f) => match find_task(m.folders, id) {
            Some(t) => Ok(
                ManagerView {
                    folders: task_added(
                        task_removed(m.folders, id),
                        TaskView { folder_id: f, ..t },
                        m.per_folder,
                    ),
                    ..m
                },
            ),
            None => Err("Task not found"@),
        },
    }
}

/// A download can be moved within its folder exactly if it is there, before another
/// one only where one folder holds both, and to a folder if it is there.
pub proof fn law_what_can_be_moved(m: ManagerView, id: u128, other: u128, f: Seq<char>)
    ensures
        ({
            let there = exists|t: TaskView|
                #[trigger] all_tasks(m.folders).contains(t) && t.id == id;
            &&& moved(m, id, TargetView::Top) is Ok <==> there
            &&& moved(m, id, TargetView::Bottom) is Ok <==> there
            &&& moved(m, id, TargetView::Folder(f)) is Ok <==> there
            &&& !there ==> moved(m, id, TargetView::Top) == Err::<ManagerView, Seq<char>>(
                "Download not found"@,
            ) && moved(m, id, TargetView::Bottom) == Err::<ManagerView, Seq<char>>(
                "Download not found"@,
            ) && moved(m, id, TargetView::Folder(f)) == Err::<ManagerView, Seq<char>>(
                "Task not found"@,
            )
            &&& moved(m, id, TargetView::Before(other)) is Err ==> moved(
                m,
                id,
                TargetView::Before(other),
            ) == Err::<ManagerView, Seq<char>>("Download not found"@)
            &&& moved(m, id, TargetView::Before(other)) is Ok <==> id != other && exists|
                i: int,
                k: int,
                l: int,
            |
                0 <= i < m.folders.len() && 0 <= k < m.folders[i].1.tasks.len() && 0 <= l
                    < m.folders[i].1.tasks.len() && (#[trigger] m.folders[i].1.tasks[k]).id == id
                    && (#[trigger] m.folders[i].1.tasks[l]).id == other
        }),
{
    law_found_tasks_have_the_id(m.folders, id);
    if let Some(t) = find_task(m.folders, id) {
        assert(all_tasks(m.folders).contains(t) && t.id == id);
    }
    law_mover_holds_both(m.folders, id, other, 0);
    if let Some(i) = mover_from(m.folders, id, other, 0) {
        let k = choose|k: int|
            0 <= k < m.folders[i].1.tasks.len() && #[trigger] m.folders[i].1.tasks[k].id == id;
        let l = choose|l: int|
            0 <= l < m.folders[i].1.tasks.len() && #[trigger] m.folders[i].1.tasks[l].id == other;
        assert(m.folders[i].1.tasks[k].id == id && m.folders[i].1.tasks[l].id == other);
    }
}

/// Where downloads stand in the folders that they name, a moved one stands first or
/// last in its folder, right before another, or last in another folder; all other
/// downloads stay in their folders and in their order.
pub proof fn law_moved_where_it_should_go(
    m: ManagerView,
    id: u128,
    other: u128,
    i: int,
    p: int,
    q: int,
    j: int,
)
    requires
        well_filed(m.folders),
        0 <= i < m.folders.len(),
        0 <= p < m.folders[i].1.tasks.len(),
        m.folders[i].1.tasks[p].id == id,
        0 <= q < m.folders[i].1.tasks.len(),
        m.folders[i].1.tasks[q].id == other,
        0 <= j < m.folders.len(),
        j != i,
    ensures
        ({
            let ts = m.folders[i].1.tasks;
            let top = moved(m, id, TargetView::Top)->Ok_0.folders;
            let bottom = moved(m, id, TargetView::Bottom)->Ok_0.folders;
            let before = moved(m, id, TargetView::Before(other))->Ok_0.folders;
            &&& top[i].1.tasks == seq![ts[p]] + (ts.take(p) + ts.skip(p + 1))
            &&& bottom[i].1.tasks == (ts.take(p) + ts.skip(p + 1)) + seq![ts[p]]
            &&& p < q ==> before[i].1.tasks == ts.take(p) + ts.subrange(p + 1, q) + seq![ts[p]]
                + ts.skip(q)
            &&& q < p ==> before[i].1.tasks == ts.take(q) + seq![ts[p]] + ts.subrange(q, p)
                + ts.skip(p + 1)
            &&& top[j] == m.folders[j]
            &&& bottom[j] == m.folders[j]
            &&& p != q ==> before[j] == m.folders[j]
        }),
{
    let fs = m.folders;
    let ts = fs[i].1.tasks;
    assert forall|k: int| 0 <= k < p implies (#[trigger] ts[k]).id != id by {
        assert(fs[i].1.tasks[k].id != fs[i].1.tasks[p].id);
    }
    assert forall|k: int| 0 <= k < q implies (#[trigger] ts[k]).id != other by {
        assert(fs[i].1.tasks[k].id != fs[i].1.tasks[q].id);
    }
    law_moves_keep_the_order_of_the_others(ts, id, other, p, q);
    lemma_holder_from(fs, id, 0);
    lemma_position(ts, id);
    assert(holder(fs, id) == Some(i)) by {
        match holder(fs, id) {
            Some(h) => {
                lemma_position(fs[h].1.tasks, id);
                let k = position(fs[h].1.tasks, id)->0;
                assert(fs[h].1.tasks[k].id == fs[i].1.tasks[p].id);
            },
            None => {
                assert(position(fs[i].1.tasks, id) is None);
            },
        }
    }
    law_mover_holds_both(fs, id, other, 0);
    if p != q {
        assert(id != other) by {
            if id == other {
                assert(fs[i].1.tasks[p].id == fs[i].1.tasks[q].id);
            }
        }
        assert(fs[i].1.tasks[p].id == id && fs[i].1.tasks[q].id == other);
        let h = mover_from(fs, id, other, 0)->0;
        let k = choose|k: int|
            0 <= k < fs[h].1.tasks.len() && #[trigger] fs[h].1.tasks[k].id == id;
        assert(fs[h].1.tasks[k].id == fs[i].1.tasks[p].id);
        assert(h == i);
    }
}

/// A download that goes to another folder is the same download there.
pub proof fn law_moved_to_a_folder(m: ManagerView, id: u128, f: Seq<char>)
    requires
        find_task(m.folders, id) is Some,
    ensures
        moved(m, id, TargetView::Folder(f)) is Ok,
        all_tasks(moved(m, id, TargetView::Folder(f))->Ok_0.folders).contains(
            TaskView { folder_id: f, ..find_task(m.folders, id)->0 },
        ),
{
    let t = TaskView { folder_id: f, ..find_task(m.folders, id)->0 };
    lemma_added_is_there(task_removed(m.folders, id), t, m.per_folder, t);
}

/// Moving a download loses none and doubles none: in its folder all downloads
/// stay as they are, but for their order; to another folder, their number stays.
pub proof fn law_moving_loses_nothing(m: ManagerView, id: u128, target: TargetView)
    requires
        moved(m, id, target) is Ok,
    ensures
        all_tasks(moved(m, id, target)->Ok_0.folders).len() == all_tasks(m.folders).len(),
        !(target is Folder) ==> all_tasks(moved(m, id, target)->Ok_0.folders).to_multiset()
            == all_tasks(m.folders).to_multiset(),
{
    let fs = m.folders;
    match target {
        TargetView::Top => {
            lemma_holder_from(fs, id, 0);
            let i = holder(fs, id)->0;
            let q = fs[i].1;
            law_move_to_top_permutes(q.tasks, id, DownloadStatus::Pending);
            let n = QueueView { tasks: moved_to_top(q.tasks, id), ..q };
            lemma_all_tasks_permuted(fs, i, n);
            lemma_all_tasks_len(fs, i, n);
        },
        TargetView::Bottom => {
            lemma_holder_from(fs, id, 0);
            let i = holder(fs, id)->0;
            let q = fs[i].1;
            law_move_to_bottom_permutes(q.tasks, id, DownloadStatus::Pending);
            let n = QueueView { tasks: moved_to_bottom(q.tasks, id), ..q };
            lemma_all_tasks_permuted(fs, i, n);
            lemma_all_tasks_len(fs, i, n);
        },
        TargetView::Before(other) => {
            lemma_mover_from(fs, id, other, 0);
            let i = mover_from(fs, id, other, 0)->0;
            let q = fs[i].1;
            law_move_before_permutes(q.tasks, id, other, DownloadStatus::Pending);
            let n = QueueView { tasks: moved_before(q.tasks, id, other), ..q };
            lemma_all_tasks_permuted(fs, i, n);
            lemma_all_tasks_len(fs, i, n);
        },
        TargetView::Folder(f) => {
            lemma_holder_from(fs, id, 0);
            let i = holder(fs, id)->0;
            let q = fs[i].1;
            lemma_position(q.tasks, id);
            lemma_all_tasks_len(fs, i, queue_removed(q, id));
            law_added_tasks_are_counted(
                task_removed(fs, id),
                TaskView { folder_id: f, ..find_task(fs, id)->0 },
                m.per_folder,
            );
        },
    }
}

/// What `mover_from` finds.
proof fn lemma_mover_from(fs: Seq<(Seq<char>, QueueView)>, id: u128, other: u128, i: int)
    requires
        0 <= i,
    ensures
        mover_from(fs, id, other, i) is Some ==> i <= mover_from(fs, id, other, i)->0 < fs.len(),
    decreases fs.len() - i,
{
    if i < fs.len() && !can_move_before(fs[i].1.tasks, id, other) {
        lemma_mover_from(fs, id, other, i + 1);
    }
}

/// Moves a download.
pub fn move_download(manager: &mut DownloadManager, id: u128, target: MoveTarget) -> (r: Result<
    (),
    String,
>)
    requires
        old(manager)@.wf(),
    ensures
        match moved(old(manager)@, id, target@) {
            Ok(m) => r is Ok && final(manager)@ == m,
            Err(e) => r is Err && r->Err_0@ == e && final(manager)@ == old(manager)@,
        },
        final(manager)@.wf(),
{
    match target {
        MoveTarget::Top => manager.move_to_top(id),
        MoveTarget::Bottom => manager.move_to_bottom(id),
        MoveTarget::Before(other) => manager.move_before(id, other),
        MoveTarget::Folder(f) => manager.change_folder(id, f),
    }
}

// ---------------------------------------------------------------------------
// Waiting
// ---------------------------------------------------------------------------

/// Whether to wait on for a download.
#[derive(Debug, Clone, Copy, PartialEq, Eq, Structural)]
pub enum Wait {
    GoOn,
    Completed,
    Failed,
    Paused,
}

/// Whether to wait on for a download that has the given status.
pub fn wait_on(status: DownloadStatus) -> (r: Wait)
    ensures
        r == (match status {
            DownloadStatus::Completed => Wait::Completed,
            DownloadStatus::Error => Wait::Failed,
            DownloadStatus::Paused => Wait::Paused,
            _ => Wait::GoOn,
        }),
{
    match status {
        DownloadStatus::Completed => Wait::Completed,
        DownloadStatus::Error => Wait::Failed,
        DownloadStatus::Paused => Wait::Paused,
        _ => Wait::GoOn,
    }
}

// ---------------------------------------------------------------------------
// Scripts
// ---------------------------------------------------------------------------

/// Whether a script is switched on: it is unless the settings say otherwise.
pub open spec fn script_on(scripts: Map<Seq<char>, bool>, name: Seq<char>) -> bool {
    scripts.contains_key(name) ==> scripts[name]
}

/// Whether the name is that of a script.
pub open spec fn named_script(name: Seq<char>) -> bool {
    match name_parts(name) {
        Some((_, extension)) => extension == "js"@,
        None => false,
    }
}

/// The names of scripts, all or those that are switched on, in the order given.
pub open spec fn script_list(
    names: Seq<Seq<char>>,
    scripts: Map<Seq<char>, bool>,
    on_only: bool,
) -> Seq<Seq<char>>
    decreases names.len(),
{
    if names.len() == 0 {
        Seq::empty()
    } else if named_script(names.last()) && (on_only ==> script_on(scripts, names.last())) {
        script_list(names.drop_last(), scripts, on_only).push(names.last())
    } else {
        script_list(names.drop_last(), scripts, on_only)
    }
}

/// A script is listed if it is one, and, where only those are wanted that are switched
/// on, unless the settings switch it off; all in the order given.
pub proof fn law_listed_scripts(
    names: Seq<Seq<char>>,
    scripts: Map<Seq<char>, bool>,
    on_only: bool,
)
    ensures
        on_only ==> script_list(names, scripts, on_only) == names.filter(
            |n: Seq<char>| named_script(n) && !(scripts.contains_key(n) && !scripts[n]),
        ),
        !on_only ==> script_list(names, scripts, on_only) == names.filter(
            |n: Seq<char>| named_script(n),
        ),
    decreases names.len(),
{
    reveal(Seq::filter);
    if names.len() > 0 {
        law_listed_scripts(names.drop_last(), scripts, on_only);
    }
}

/// A script has the extension `js`.
pub proof fn law_scripts_end_in_js(stem: Seq<char>, ext: Seq<char>)
    requires
        stem.len() > 0,
        ext.len() > 0,
        !stem.contains('/'),
        !ext.contains('/'),
        !ext.contains('.'),
    ensures
        named_script(stem + seq!['.'] + ext) <==> ext == "js"@,
        !named_script(ext),
{
    law_moment_before_the_extension(stem, ext, 0);
}

fn is_on(scripts: &TextMap<bool>, name: &str) -> (r: bool)
    ensures
        r == script_on(scripts@, name@),
{
    match scripts.get(name) {
        Some(b) => *b,
        None => true,
    }
}

/// The scripts among the files of a directory, all or those that are switched
/// on, in the order of code points, each with whether it is switched on.
pub fn list_scripts(names: &Vec<String>, scripts: &TextMap<bool>, on_only: bool) -> (r: Vec<
    (String, bool),
>)
    ensures
        ({
            let listed = Seq::new(r@.len(), |i: int| r@[i].0@);
            &&& texts_sorted(listed)
            &&& forall|i: int|
                0 <= i < r@.len() ==> (#[trigger] r@[i]).1 == script_on(scripts@, r@[i].0@) && (
                on_only ==> r@[i].1)
            &&& keeps_wanted(
                listed,
                texts(names@),
                |n: Seq<char>| named_script(n) && (on_only ==> script_on(scripts@, n)),
            )
            &&& (forall|i: int| 0 <= i < names@.len() ==> same_extension((#[trigger] names@[i])@))
                ==> listed.to_multiset() == script_list(
                texts(names@),
                scripts@,
                on_only,
            ).to_multiset()
        }),
{
    let ghost ns = texts(names@);
    let ghost known = forall|i: int| 0 <= i < names@.len() ==> same_extension((#[trigger] names@[i])@);
    let ghost wanted = |n: Seq<char>|
        named_script(n) && (on_only ==> script_on(scripts@, n));
    let mut kept: Vec<String> = Vec::new();
    assert(texts(kept@) =~= Seq::<Seq<char>>::empty());
    assert(ns.take(0) =~= Seq::<Seq<char>>::empty());
    proof {
        lemma_keeps_none(wanted);
    }
    for i in 0..names.len()
        invariant
            ns == texts(names@),
            wanted == (|n: Seq<char>| named_script(n) && (on_only ==> script_on(scripts@, n))),
            keeps_wanted(texts(kept@), ns.take(i as int), wanted),
            on_only ==> forall|k: int|
                0 <= k < kept@.len() ==> script_on(scripts@, (#[trigger] kept@[k])@),
            known == (forall|i: int|
                0 <= i < names@.len() ==> same_extension((#[trigger] names@[i])@)),
            known ==> texts(kept@) == script_list(ns.take(i as int), scripts@, on_only),
    {
        assert(ns.take(i + 1).drop_last() =~= ns.take(i as int));
        assert(ns.take(i + 1).last() == names@[i as int]@);
        let is_js = match file_extension(names[i].as_str()) {
            Some(e) => text_eq(e.as_str(), "js"),
            None => false,
        };
        let keep = is_js && (!on_only || is_on(scripts, names[i].as_str()));
        proof {
            lemma_keeps_wanted(texts(kept@), ns.take(i as int), wanted, ns[i as int], keep);
            assert(ns.take(i + 1) =~= ns.take(i as int).push(ns[i as int]));
        }
        if keep {
            let n = names[i].clone();
            assert(texts(kept@.push(n)) =~= texts(kept@).push(n@));
            kept.push(n);
        }
    }
    assert(ns.take(ns.len() as int) =~= ns);
    let ghost ks = texts(kept@);
    let sorted = sort_texts(kept);
    let ghost ss = texts(sorted@);
    proof {
        assert forall|i: int| on_only && 0 <= i < ss.len() implies script_on(
            scripts@,
            #[trigger] ss[i],
        ) by {
            broadcast use vstd::seq_lib::group_to_multiset_ensures;

            assert(ss.contains(ss[i]));
            assert(ss.to_multiset().count(ss[i]) > 0);
            assert(ks.to_multiset().count(ss[i]) > 0);
        }
    }
    let mut r: Vec<(String, bool)> = Vec::new();
    for i in 0..sorted.len()
        invariant
            ss == texts(sorted@),
            r@.len() == i,
            forall|k: int|
                0 <= k < i ==> (#[trigger] r@[k]).0@ == ss[k] && r@[k].1 == script_on(
                    scripts@,
                    ss[k],
                ),
    {
        let n = sorted[i].clone();
        let on = is_on(scripts, n.as_str());
        r.push((n, on));
    }
    assert(Seq::new(r@.len(), |i: int| r@[i].0@) =~= ss);
    r
}

/// The event that a script is tried out with, or what is said of a name that
/// means none.
pub fn trial_event(name: &str) -> (r: Result<HookEvent, String>)
    ensures
        match r {
            Ok(e) => match e {
                HookEvent::BeforeRequest => name@ == "beforeRequest"@ || name@
                    == "before_request"@,
                HookEvent::HeadersReceived => name@ == "headersReceived"@ || name@
                    == "headers_received"@,
                HookEvent::Completed => name@ == "completed"@,
                HookEvent::ErrorOccurred => name@ == "errorOccurred"@ || name@
                    == "error_occurred"@ || name@ == "error"@,
                HookEvent::Progress => name@ == "progress"@,
                HookEvent::AuthRequired => false,
            },
            Err(e) => name@ != "beforeRequest"@ && name@ != "before_request"@ && name@
                != "headersReceived"@ && name@ != "headers_received"@ && name@ != "completed"@
                && name@ != "errorOccurred"@ && name@ != "error_occurred"@ && name@ != "error"@
                && name@ != "progress"@ && e@ == "Invalid event: "@ + name@
                + ". Valid events: beforeRequest, headersReceived, completed, errorOccurred, progress"@,
        },
{
    if text_eq(name, "beforeRequest") || text_eq(name, "before_request") {
        Ok(HookEvent::BeforeRequest)
    } else if text_eq(name, "headersReceived") || text_eq(name, "headers_received") {
        Ok(HookEvent::HeadersReceived)
    } else if text_eq(name, "completed") {
        Ok(HookEvent::Completed)
    } else if text_eq(name, "errorOccurred") || text_eq(name, "error_occurred") || text_eq(
        name,
        "error",
    ) {
        Ok(HookEvent::ErrorOccurred)
    } else if text_eq(name, "progress") {
        Ok(HookEvent::Progress)
    } else {
        let mut s = "Invalid event: ".to_owned();
        s.append(name);
        s.append(
            ". Valid events: beforeRequest, headersReceived, completed, errorOccurred, progress",
        );
        Err(s)
    }
}

// ---------------------------------------------------------------------------
// What the commands do
// ---------------------------------------------------------------------------

/// Waiting is over once a download is complete, has failed or is paused, and not before.
pub proof fn law_wait_on(status: DownloadStatus, r: Wait)
    requires
        call_ensures(wait_on, (status,), r),
    ensures
        r == Wait::Completed <==> status == DownloadStatus::Completed,
        r == Wait::Failed <==> status == DownloadStatus::Error,
        r == Wait::Paused <==> status == DownloadStatus::Paused,
        r == Wait::GoOn <==> status == DownloadStatus::Pending || status
            == DownloadStatus::Downloading || status == DownloadStatus::Deleted,
{
}

/// A list of statuses is read word by word; an empty one and one with a word that means
/// no status are refused.
pub proof fn law_parse_statuses(list: &str, r: Result<Vec<DownloadStatus>, String>, i: int)
    requires
        call_ensures(parse_statuses, (list,), r),
    ensures
        ({
            let ws = split(list@, ',').map_values(|p: Seq<char>| trimmed(p)).filter(
                |w: Seq<char>| w.len() > 0,
            );
            &&& ws.len() == 0 ==> r is Err
            &&& r is Ok ==> r->Ok_0@.len() == ws.len()
            &&& r is Ok && 0 <= i < ws.len() ==> {
                &&& ws[i] == "completed"@ ==> r->Ok_0@[i] == DownloadStatus::Completed
                &&& ws[i] == "error"@ ==> r->Ok_0@[i] == DownloadStatus::Error
                &&& ws[i] == "paused"@ ==> r->Ok_0@[i] == DownloadStatus::Paused
                &&& ws[i] == "pending"@ ==> r->Ok_0@[i] == DownloadStatus::Pending
            }
            &&& 0 <= i < ws.len() && ws[i] != "completed"@ && ws[i] != "error"@ && ws[i]
                != "paused"@ && ws[i] != "pending"@ ==> r is Err
            &&& ws.len() > 0 && (forall|k: int|
                0 <= k < ws.len() ==> #[trigger] ws[k] == "completed"@ || ws[k] == "error"@ || ws[k]
                    == "paused"@ || ws[k] == "pending"@) ==> r is Ok
        }),
{
    let parts = split(list@, ',');
    law_words_of_a_list(parts);
    let ws = words(parts);
    if 0 <= i < ws.len() {
        law_words_for_statuses(ws[i]);
    }
    lemma_unknown_or_not(ws);
    if first_unknown(ws) is None && 0 <= i < ws.len() {
        assert(status_meant(ws[i]) is Some);
    }
    if ws.len() > 0 && (forall|k: int|
        0 <= k < ws.len() ==> #[trigger] ws[k] == "completed"@ || ws[k] == "error"@ || ws[k]
            == "paused"@ || ws[k] == "pending"@) {
        assert forall|k: int| 0 <= k < ws.len() implies status_meant(#[trigger] ws[k]) is Some by {
            law_words_for_statuses(ws[k]);
        }
        law_first_unknown_word(ws, ws.len() as int);
    }
}

/// Every word means a status, or one of them is named that does not.
proof fn lemma_unknown_or_not(ws: Seq<Seq<char>>)
    ensures
        first_unknown(ws) is None ==> forall|k: int|
            0 <= k < ws.len() ==> status_meant(#[trigger] ws[k]) is Some,
    decreases ws.len(),
{
    if ws.len() > 0 {
        let before = ws.drop_last();
        lemma_unknown_or_not(before);
        if first_unknown(ws) is None {
            assert forall|k: int| 0 <= k < ws.len() implies status_meant(
                #[trigger] ws[k],
            ) is Some by {
                if k < before.len() {
                    assert(before[k] == ws[k]);
                }
            }
        }
    }
}

/// The front comes before the back, that before another download, and that before a
/// folder; without any of them, and with one that cannot be read, nothing is moved.
pub proof fn law_read_target(
    config: &Config,
    to_top: bool,
    to_bottom: bool,
    before: Option<&str>,
    folder: Option<&str>,
    r: Result<MoveTarget, String>,
)
    requires
        call_ensures(read_target, (config, to_top, to_bottom, before, folder), r),
    ensures
        to_top ==> r is Ok && r->Ok_0@ is Top,
        !to_top && to_bottom ==> r is Ok && r->Ok_0@ is Bottom,
        !to_top && !to_bottom && before is Some && uuid_bits(before->0@) is Some ==> r is Ok
            && r->Ok_0@ == TargetView::Before(uuid_bits(before->0@)->0),
        !to_top && !to_bottom && before is Some && uuid_bits(before->0@) is None ==> r is Err,
        !to_top && !to_bottom && before is None && folder is Some && config.folders@.contains_key(
            folder->0@,
        ) ==> r is Ok && r->Ok_0@ == TargetView::Folder(folder->0@),
        !to_top && !to_bottom && before is None && folder is None ==> r is Err,
{
}

/// A script can be tried out with five events, each by its name in either form.
pub proof fn law_trial_event(name: &str, r: Result<HookEvent, String>)
    requires
        call_ensures(trial_event, (name,), r),
    ensures
        r is Ok <==> name@ == "beforeRequest"@ || name@ == "before_request"@ || name@
            == "headersReceived"@ || name@ == "headers_received"@ || name@ == "completed"@ || name@
            == "errorOccurred"@ || name@ == "error_occurred"@ || name@ == "error"@ || name@
            == "progress"@,
        r == Ok::<HookEvent, String>(HookEvent::BeforeRequest) ==> name@ == "beforeRequest"@ || name@
            == "before_request"@,
        r == Ok::<HookEvent, String>(HookEvent::HeadersReceived) ==> name@ == "headersReceived"@
            || name@ == "headers_received"@,
        r == Ok::<HookEvent, String>(HookEvent::Completed) ==> name@ == "completed"@,
        r == Ok::<HookEvent, String>(HookEvent::ErrorOccurred) ==> name@ == "errorOccurred"@ || name@
            == "error_occurred"@ || name@ == "error"@,
        r == Ok::<HookEvent, String>(HookEvent::Progress) ==> name@ == "progress"@,
        r != Ok::<HookEvent, String>(HookEvent::AuthRequired),
{
}

/// Pausing what runs, in a folder if one is named, pauses that and nothing else.
pub proof fn law_pause_running(
    m: &mut DownloadManager,
    folder: Option<&str>,
    r: usize,
    i: int,
    k: int,
)
    requires
        well_filed(old(m)@.folders),
        0 <= i < old(m)@.folders.len(),
        0 <= k < old(m)@.folders[i].1.tasks.len(),
        call_ensures(pause_running, (m, folder), r),
    ensures
        ({
            let t = old(m)@.folders[i].1.tasks[k];
            let meant = t.status == DownloadStatus::Downloading && (folder is None || t.folder_id
                == folder->0@);
            &&& meant ==> final(m)@.folders[i].1.tasks[k] == (TaskView {
                status: DownloadStatus::Paused,
                ..t
            })
            &&& !meant ==> final(m)@.folders[i].1.tasks[k] == t
        }),
{
    let fs = old(m)@.folders;
    let all = all_tasks(fs);
    let t = fs[i].1.tasks[k];
    let statuses = seq![DownloadStatus::Downloading];
    let ids = picked(all, statuses, opt_str(folder));
    law_pausing_each_is_exact(old(m)@, ids, i, k);
    lemma_picked_ids(all, statuses, opt_str(folder), t.id);
    law_all_tasks_are_there(fs, t);
    assert(fs[i].1.tasks[k] == t);
    assert(statuses[0] == DownloadStatus::Downloading);
    assert(statuses.contains(t.status) <==> t.status == DownloadStatus::Downloading);
    if ids.contains(t.id) {
        let x = choose|x: TaskView| #[trigger]
            all.contains(x) && x.id == t.id && statuses.contains(x.status) && (opt_str(
                folder,
            ) is None || x.folder_id == opt_str(folder)->0);
        law_all_tasks_are_there(fs, x);
        let (j, l) = choose|j: int, l: int|
            0 <= j < fs.len() && 0 <= l < fs[j].1.tasks.len() && #[trigger] fs[j].1.tasks[l] == x;
        assert(fs[j].1.tasks[l].id == fs[i].1.tasks[k].id);
    }
}

/// An id is picked exactly if a download with it has one of the statuses and is in the
/// folder.
proof fn lemma_picked_ids(
    ts: Seq<TaskView>,
    statuses: Seq<DownloadStatus>,
    folder: Option<Seq<char>>,
    id: u128,
)
    ensures
        picked(ts, statuses, folder).contains(id) <==> exists|x: TaskView| #[trigger]
            ts.contains(x) && x.id == id && statuses.contains(x.status) && (folder is None
                || x.folder_id == folder->0),
    decreases ts.len(),
{
    if ts.len() > 0 {
        let before = ts.drop_last();
        let last = ts.len() - 1;
        lemma_picked_ids(before, statuses, folder, id);
        let old_ids = picked(before, statuses, folder);
        let ids = picked(ts, statuses, folder);
        assert(ts[last] == ts.last());
        assert(ts.contains(ts.last()));
        if ids.contains(id) {
            let n = choose|n: int| 0 <= n < ids.len() && ids[n] == id;
            if n < old_ids.len() {
                assert(old_ids[n] == id);
                assert(old_ids.contains(id));
                let x = choose|x: TaskView| #[trigger]
                    before.contains(x) && x.id == id && statuses.contains(x.status) && (
                    folder is None || x.folder_id == folder->0);
                let k = choose|k: int| 0 <= k < before.len() && before[k] == x;
                assert(ts[k] == x);
                assert(ts.contains(x));
            }
        }
        if exists|x: TaskView| #[trigger]
            ts.contains(x) && x.id == id && statuses.contains(x.status) && (folder is None
                || x.folder_id == folder->0) {
            let x = choose|x: TaskView| #[trigger]
                ts.contains(x) && x.id == id && statuses.contains(x.status) && (folder is None
                    || x.folder_id == folder->0);
            let k = choose|k: int| 0 <= k < ts.len() && ts[k] == x;
            if k < last {
                assert(before[k] == x);
                assert(before.contains(x));
                let n = choose|n: int| 0 <= n < old_ids.len() && old_ids[n] == id;
                assert(ids[n] == id);
            } else {
                assert(ids[old_ids.len() as int] == id);
            }
        }
    }
}

/// Clearing takes out the downloads with one of the statuses, in a folder if one is
/// named, and no other.
pub proof fn law_clear(
    m: &mut DownloadManager,
    list: &str,
    folder: Option<&str>,
    r: Result<usize, String>,
    t: TaskView,
)
    requires
        ids_distinct(all_tasks(old(m)@.folders)),
        call_ensures(clear, (m, list, folder), r),
    ensures
        r is Err ==> final(m)@ == old(m)@,
        r is Ok ==> (all_tasks(final(m)@.folders).contains(t) <==> all_tasks(
            old(m)@.folders,
        ).contains(t) && !(statuses_meant(words(split(list@, ','))).contains(t.status) && (
        folder is None || t.folder_id == folder->0@))),
{
    let all = all_tasks(old(m)@.folders);
    let statuses = statuses_meant(words(split(list@, ',')));
    let ids = picked(all, statuses, opt_str(folder));
    law_removing_each_is_exact(old(m)@, ids);
    lemma_picked_ids(all, statuses, opt_str(folder), t.id);
    if all.contains(t) && ids.contains(t.id) {
        let x = choose|x: TaskView| #[trigger]
            all.contains(x) && x.id == t.id && statuses.contains(x.status) && (opt_str(
                folder,
            ) is None || x.folder_id == opt_str(folder)->0);
        let a = choose|a: int| 0 <= a < all.len() && all[a] == x;
        let b = choose|b: int| 0 <= b < all.len() && all[b] == t;
        if a < b {
            assert(all[a].id != all[b].id);
        } else if b < a {
            assert(all[b].id != all[a].id);
        }
    }
}

} // verus!

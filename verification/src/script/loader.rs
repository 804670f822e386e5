//! Which files of a directory are scripts, and in what order they are loaded.

use vstd::prelude::*;
use vstd::string::*;
use super::error::{ScriptError, ScriptErrorView};
use crate::file::naming::{
    file_extension, keeps_wanted, lemma_keeps_none, lemma_keeps_wanted, name_parts,
    same_extension,
};
use crate::file::path::{PathView, SavePath};
use crate::text::{sort_texts, text_eq, texts, texts_sorted};

verus! {

/// The scripts of a directory.
pub struct ScriptLoader {
    directory: SavePath,
}

impl View for ScriptLoader {
    type V = PathView;

    closed spec fn view(&self) -> PathView {
        self.directory@
    }
}

/// One entry of a directory.
pub struct DirectoryEntry {
    pub name: String,
    pub is_directory: bool,
}

/// What stands at the place of the directory of the scripts.
pub enum DirectoryState {
    /// Nothing stood there; whether the directory could be created.
    Missing { created: bool },
    /// Something else than a directory.
    NotADirectory,
    /// A directory that could not be read.
    Unreadable,
    /// A directory with these entries.
    Entries(Vec<DirectoryEntry>),
}

/// Whether an entry of the given name is a script.
pub open spec fn is_script(name: Seq<char>, is_directory: bool) -> bool {
    !is_directory && match name_parts(name) {
        Some((_, extension)) => extension == "js"@,
        None => false,
    }
}

/// The names of the scripts among the entries, in the order of the entries.
pub open spec fn script_names(es: Seq<DirectoryEntry>) -> Seq<Seq<char>>
    decreases es.len(),
{
    if es.len() == 0 {
        Seq::empty()
    } else if is_script(es.last().name@, es.last().is_directory) {
        script_names(es.drop_last()).push(es.last().name@)
    } else {
        script_names(es.drop_last())
    }
}

/// The names of the entries that are no directories, in the order of the entries.
pub open spec fn file_names(es: Seq<DirectoryEntry>) -> Seq<Seq<char>>
    decreases es.len(),
{
    if es.len() == 0 {
        Seq::empty()
    } else if es.last().is_directory {
        file_names(es.drop_last())
    } else {
        file_names(es.drop_last()).push(es.last().name@)
    }
}

/// The names of directory entries have the same extension on every platform.
pub open spec fn known_names(es: Seq<DirectoryEntry>) -> bool {
    forall|i: int| 0 <= i < es.len() ==> same_extension((#[trigger] es[i]).name@)
}

/// A script is a file whose name ends in a dot and `js`, with something before the
/// dot; a directory is none, whatever its name. Every script among the entries is
/// listed, in their order, and nothing else.
pub proof fn law_scripts_by_extension(es: Seq<DirectoryEntry>, name: Seq<char>, directory: bool)
    ensures
        script_names(es) == es.filter(
            |e: DirectoryEntry| !e.is_directory && is_script(e.name@, false),
        ).map_values(|e: DirectoryEntry| e.name@),
        is_script(name, directory) ==> !directory && name_parts(name) is Some,
        is_script(name, directory) <==> !directory && exists|stem: Seq<char>|
            name_parts(name) == Some((stem, "js"@)),
    decreases es.len(),
{
    reveal(Seq::filter);
    let wanted = |e: DirectoryEntry| !e.is_directory && is_script(e.name@, false);
    let named = |e: DirectoryEntry| e.name@;
    if es.len() > 0 {
        law_scripts_by_extension(es.drop_last(), name, directory);
        let before = es.drop_last().filter(wanted);
        if wanted(es.last()) {
            assert(before.push(es.last()).map_values(named) =~= before.map_values(named).push(
                named(es.last()),
            ));
        }
    } else {
        assert(es.filter(wanted).map_values(named) =~= Seq::empty());
    }
    if let Some((stem, extension)) = name_parts(name) {
        if extension == "js"@ {
            assert(name_parts(name) == Some((stem, "js"@)));
        }
    }
}

/// The names of the scripts among the entries, in the order of code points.
pub fn select_scripts(entries: &Vec<DirectoryEntry>) -> (r: Vec<String>)
    ensures
        texts_sorted(texts(r@)),
        keeps_wanted(texts(r@), file_names(entries@), |n: Seq<char>| is_script(n, false)),
        known_names(entries@) ==> texts(r@).to_multiset() == script_names(entries@).to_multiset(),
{
    let mut names: Vec<String> = Vec::new();
    assert(texts(names@) =~= Seq::<Seq<char>>::empty());
    let ghost wanted = |n: Seq<char>| is_script(n, false);
    proof {
        lemma_keeps_none(wanted);
    }
    for i in 0..entries.len()
        invariant
            wanted == (|n: Seq<char>| is_script(n, false)),
            keeps_wanted(texts(names@), file_names(entries@.take(i as int)), wanted),
            known_names(entries@) ==> texts(names@) == script_names(entries@.take(i as int)),
    {
        let ghost taken = entries@.take(i + 1);
        assert(taken.drop_last() =~= entries@.take(i as int));
        assert(taken.last() == entries@[i as int]);
        if !entries[i].is_directory {
            let is_js = match file_extension(entries[i].name.as_str()) {
                Some(e) => text_eq(e.as_str(), "js"),
                None => false,
            };
            proof {
                lemma_keeps_wanted(
                    texts(names@),
                    file_names(entries@.take(i as int)),
                    wanted,
                    entries@[i as int].name@,
                    is_js,
                );
            }
            if is_js {
                let name = entries[i].name.clone();
                assert(texts(names@.push(name)) =~= texts(names@).push(name@));
                names.push(name);
            }
        }
    }
    assert(entries@.take(entries@.len() as int) =~= entries@);
    sort_texts(names)
}

impl ScriptLoader {
    /// The scripts of the given directory.
    pub fn new(directory: SavePath) -> (r: ScriptLoader)
        ensures
            r@ == directory@,
    {
        ScriptLoader { directory }
    }

    /// The directory.
    pub fn directory(&self) -> (r: &SavePath)
        ensures
            r@ == self@,
    {
        &self.directory
    }

    /// The names of the scripts to load, in order, given what stands at the
    /// place of the directory, which is shown as `shown`.
    pub fn list_scripts(&self, shown: &str, found: DirectoryState) -> (r: Result<
        Vec<String>,
        ScriptError,
    >)
        ensures
            match found {
                DirectoryState::Missing { created } => if created {
                    r is Ok && r->Ok_0@.len() == 0
                } else {
                    r is Err
                },
                DirectoryState::NotADirectory => r is Err,
                DirectoryState::Unreadable => r is Err,
                DirectoryState::Entries(es) => r is Ok && texts_sorted(texts(r->Ok_0@))
                    && keeps_wanted(
                    texts(r->Ok_0@),
                    file_names(es@),
                    |n: Seq<char>| is_script(n, false),
                ) && (known_names(es@) ==> texts(r->Ok_0@).to_multiset() == script_names(
                    es@,
                ).to_multiset()),
            },
            r is Err ==> r->Err_0@ == ScriptErrorView::InvalidScriptDirectory(shown@),
    {
        match found {
            DirectoryState::Missing { created } => if created {
                Ok(Vec::new())
            } else {
                Err(ScriptError::InvalidScriptDirectory(shown.to_owned()))
            },
            DirectoryState::NotADirectory => Err(
                ScriptError::InvalidScriptDirectory(shown.to_owned()),
            ),
            DirectoryState::Unreadable => Err(
                ScriptError::InvalidScriptDirectory(shown.to_owned()),
            ),
            DirectoryState::Entries(es) => Ok(select_scripts(&es)),
        }
    }
}

} // verus!

//! Paths as lists of components.

use vstd::prelude::*;
use crate::text::{clone_opt, clone_texts, opt_text, text_eq, texts};

verus! {

/// A path as the list of its components, a root or a drive prefix being a
/// component of its own, and as it was written, where it was written whole and
/// not put together.
#[derive(Debug)]
pub struct SavePath {
    pub components: Vec<String>,
    pub spelling: Option<String>,
}

/// A path as texts.
#[verifier::ext_equal]
pub struct PathView {
    pub components: Seq<Seq<char>>,
    pub spelling: Option<Seq<char>>,
}

impl View for SavePath {
    type V = PathView;

    open spec fn view(&self) -> PathView {
        PathView { components: texts(self.components@), spelling: opt_text(self.spelling) }
    }
}

/// The path without components.
pub open spec fn no_path() -> PathView {
    PathView { components: Seq::empty(), spelling: None }
}

/// The path with one more component behind the others.
pub open spec fn path_child(p: PathView, name: Seq<char>) -> PathView {
    PathView { components: p.components.push(name), spelling: None }
}

impl Clone for SavePath {
    fn clone(&self) -> (r: SavePath)
        ensures
            r@ == self@,
    {
        SavePath { components: clone_texts(&self.components), spelling: clone_opt(&self.spelling) }
    }
}

impl vstd::std_specs::cmp::PartialEqSpecImpl for SavePath {
    open spec fn obeys_eq_spec() -> bool {
        true
    }

    open spec fn eq_spec(&self, other: &SavePath) -> bool {
        self@.components == other@.components
    }
}

/// Two spellings of one path are the same path.
impl PartialEq for SavePath {
    fn eq(&self, other: &SavePath) -> (r: bool) {
        self.same_as(other)
    }
}

impl Eq for SavePath {

}

impl SavePath {
    /// The path with the given components.
    pub fn new(components: Vec<String>) -> (r: SavePath)
        ensures
            r@ == (PathView { components: texts(components@), spelling: None }),
    {
        SavePath { components, spelling: None }
    }

    /// The path that is written as the given text and has the given components.
    pub fn written(spelling: &str, components: Vec<String>) -> (r: SavePath)
        ensures
            r@ == (PathView { components: texts(components@), spelling: Some(spelling@) }),
    {
        SavePath { components, spelling: Some(spelling.to_owned()) }
    }

    /// Whether two paths have the same components.
    pub fn same_as(&self, other: &SavePath) -> (r: bool)
        ensures
            r == (self@.components == other@.components),
    {
        let ghost a = self@.components;
        let ghost b = other@.components;
        if self.components.len() != other.components.len() {
            assert(a.len() != b.len());
            return false;
        }
        for i in 0..self.components.len()
            invariant
                a == self@.components,
                b == other@.components,
                self.components@.len() == other.components@.len(),
                forall|j: int|
                    0 <= j < i ==> #[trigger] self.components@[j]@ == other.components@[j]@,
        {
            if !text_eq(self.components[i].as_str(), other.components[i].as_str()) {
                assert(a[i as int] != b[i as int]);
                return false;
            }
        }
        assert(a =~= b);
        true
    }

    /// The path with one more component behind the others.
    pub fn child(&self, name: String) -> (r: SavePath)
        ensures
            r@ == path_child(self@, name@),
    {
        let mut components = clone_texts(&self.components);
        components.push(name);
        let r = SavePath { components, spelling: None };
        assert(r@ =~= path_child(self@, name@));
        r
    }
}

} // verus!

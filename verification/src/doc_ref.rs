//! Handles on items: an item together with the document that owns it and the
//! context in which a walk met it.

use vstd::prelude::*;
use vstd::std_specs::cmp::PartialEqSpecImpl;
use vstd::string::*;
use crate::crate_name::{eq_ignoring_dash_underscore, same_ignoring_separators};
use crate::item::{
    discriminator, kind_discriminator, kind_of, opt_view, Id, Item, ItemEnum, ItemKind,
    ItemSummary, Use,
};
use crate::navigator::Navigator;
use crate::rustdoc_data::{qualified_segment, RustdocData};
use crate::text::{join, join_path, separator, views_of, lemma_separator_literal};

verus! {

/// The item one step above a handle, recorded when a walk goes from it to
/// one of its children. It lets an item without a path summary, such as a
/// method, still be given a path.
#[derive(Copy, Clone, Debug)]
pub struct ParentRef<'a> {
    pub crate_docs: &'a RustdocData,
    pub item: &'a Item,
    /// The name under which the parent itself was met, if not its own.
    pub name: Option<&'a str>,
}

/// A handle on a part `T` of a package document.
///
/// It owns nothing: it refers to the part, to the document that holds it
/// and to the registry.
#[derive(Debug)]
pub struct DocRef<'a, T> {
    pub crate_docs: &'a RustdocData,
    pub item: &'a T,
    pub navigator: &'a Navigator,
    /// The name under which the item was met, when not its own.
    pub name: Option<&'a str>,
    /// The item from which a walk came to this one.
    pub parent: Option<ParentRef<'a>>,
}

impl<'a, T> Clone for DocRef<'a, T> {
    fn clone(&self) -> (r: Self)
        ensures
            r == *self,
    {
        *self
    }
}

impl<'a, T> Copy for DocRef<'a, T> {

}

impl<'a> PartialEq for DocRef<'a, Item> {
    /// Two handles are equal when they denote the same item of the same
    /// document, however each of them was reached.
    fn eq(&self, other: &Self) -> (r: bool) {
        self.item.id == other.item.id && eq_ignoring_dash_underscore(
            self.crate_docs.name.as_str(),
            other.crate_docs.name.as_str(),
        )
    }
}

impl<'a> Eq for DocRef<'a, Item> {

}

impl<'a> PartialEqSpecImpl for DocRef<'a, Item> {
    open spec fn obeys_eq_spec() -> bool {
        true
    }

    open spec fn eq_spec(&self, other: &DocRef<'a, Item>) -> bool {
        self.item.id == other.item.id && same_ignoring_separators(
            self.crate_docs.name@,
            other.crate_docs.name@,
        )
    }
}

/// What a handle's parent context says, as plain values.
pub struct ParentView {
    pub doc: RustdocData,
    pub item: Item,
    pub name: Option<Seq<char>>,
}

/// What a handle on an item says, as plain values: the document, the item,
/// the name under which it was met, and the item from which the walk came.
pub struct Handle {
    pub doc: RustdocData,
    pub item: Item,
    pub name: Option<Seq<char>>,
    pub parent: Option<ParentView>,
}

/// What an optional string slice holds.
pub open spec fn opt_str_view(s: Option<&str>) -> Option<Seq<char>> {
    match s {
        Some(s) => Some(s@),
        None => None,
    }
}

impl<'a> View for DocRef<'a, Item> {
    type V = Handle;

    open spec fn view(&self) -> Handle {
        Handle {
            doc: *self.crate_docs,
            item: *self.item,
            name: opt_str_view(self.name),
            parent: match self.parent {
                Some(p) => Some(
                    ParentView { doc: *p.crate_docs, item: *p.item, name: opt_str_view(p.name) },
                ),
                None => None,
            },
        }
    }
}

/// The handle on `item` of `doc` as a lookup by id gives it: no name but
/// its own, no parent.
pub open spec fn plain_handle(doc: RustdocData, item: Item) -> Handle {
    Handle { doc, item, name: None, parent: None }
}

/// The name of an item met under `over`: the name it was met under, else its
/// own, else the last segment of its path summary.
pub open spec fn shown_name(doc: RustdocData, item: Item, over: Option<Seq<char>>) -> Option<
    Seq<char>,
> {
    match over {
        Some(n) => Some(n),
        None => match item.name {
            Some(n) => Some(n@),
            None => match doc.summary_of(item.id) {
                Some(s) => if s.path.len() > 0 {
                    Some(s.path@.last()@)
                } else {
                    None
                },
                None => None,
            },
        },
    }
}

/// The views of a list of handles.
pub open spec fn handle_views<'a>(list: Seq<DocRef<'a, Item>>) -> Seq<Handle> {
    Seq::new(list.len(), |i: int| list[i]@)
}

/// The path that a summary gives an item of kind discriminator `disc`:
/// the registry's name of the package, the summary's segments after the
/// package name, and the discriminator on the last segment. A summary of
/// the package name alone gives `name::kind@segment`; an empty one gives
/// nothing.
pub open spec fn summary_path(name: Seq<char>, path: Seq<Seq<char>>, disc: Seq<char>) -> Option<
    Seq<char>,
> {
    if path.len() == 0 {
        None
    } else if path.len() == 1 {
        Some(name + separator() + qualified_segment(disc, path[0]))
    } else {
        let tail = path.subrange(1, path.len() as int);
        let prefix = join_path(tail.drop_last());
        if prefix.len() == 0 {
            Some(name + separator() + qualified_segment(disc, tail.last()))
        } else {
            Some(name + separator() + prefix + separator() + qualified_segment(disc, tail.last()))
        }
    }
}

/// The path of a parent written without a discriminator, where the reverse
/// index shows that nothing else shares it.
pub open spec fn simple_parent_path(doc: RustdocData, parent: Item) -> Option<Seq<char>> {
    match doc.summary_of(parent.id) {
        Some(s) => if s.path.len() >= 1 {
            let key = join_path(views_of(s.path@).subrange(1, s.path.len() as int));
            if doc.indexed_id(key) is Some {
                if key.len() == 0 {
                    Some(doc.name@)
                } else {
                    Some(doc.name@ + separator() + key)
                }
            } else {
                None
            }
        } else {
            None
        },
        None => None,
    }
}

/// The path of `item` given by its own summary, if it has one.
pub open spec fn path_by_summary(doc: RustdocData, item: Item) -> Option<Seq<char>> {
    match doc.summary_of(item.id) {
        Some(s) => summary_path(doc.name@, views_of(s.path@), discriminator(kind_of(item.inner))),
        None => None,
    }
}

/// The canonical discriminated path of a handle.
///
/// An item with a path summary has the path that the summary gives. An item
/// without one needs a parent and a name of its own: its path is the
/// parent's path, then `kind@name`. The parent's path is written without a
/// discriminator where the reverse index of the parent's document holds it
/// so, and else is the path that the parent's own summary gives.
pub open spec fn discriminated(h: Handle) -> Option<Seq<char>> {
    if h.doc.summary_of(h.item.id) is Some {
        path_by_summary(h.doc, h.item)
    } else {
        match (h.parent, h.item.name) {
            (Some(p), Some(name)) => {
                let last = qualified_segment(discriminator(kind_of(h.item.inner)), name@);
                match simple_parent_path(p.doc, p.item) {
                    Some(parent_path) => Some(parent_path + separator() + last),
                    None => match path_by_summary(p.doc, p.item) {
                        Some(parent_path) => Some(parent_path + separator() + last),
                        None => None,
                    },
                }
            },
            _ => None,
        }
    }
}

/// The segments of a summary path.
pub struct Path<'a>(pub &'a [String]);

impl<'a> Path<'a> {
    /// The segments, in order.
    pub fn segments(&self) -> (r: &'a [String])
        ensures
            r@ == self.0@,
    {
        self.0
    }

    /// The path as text, its segments joined by `::`.
    pub fn to_string(&self) -> (s: String)
        ensures
            s@ == join_path(views_of(self.0@)),
    {
        let mut s = String::new();
        let mut i: usize = 0;
        while i < self.0.len()
            invariant
                i <= self.0.len(),
                s@ == join_path(views_of(self.0@).take(i as int)),
            decreases self.0.len() - i,
        {
            if i > 0 {
                proof {
                    lemma_separator_literal();
                }
                s.append("::");
            }
            s.append(self.0[i].as_str());
            proof {
                let all = views_of(self.0@);
                let before = all.take(i as int);
                let after = all.take(i + 1);
                assert(after.drop_last() =~= before);
                assert(after.last() == self.0@[i as int]@);
                if i == 0 {
                    assert(s@ =~= after[0]);
                }
            }
            i += 1;
        }
        assert(views_of(self.0@).take(self.0.len() as int) =~= views_of(self.0@));
        s
    }
}

impl<'a, T> DocRef<'a, T> {
    /// A handle on `item` of `crate_docs`, met under its own name and with
    /// no parent.
    pub fn new(navigator: &'a Navigator, crate_docs: &'a RustdocData, item: &'a T) -> (r: Self)
        ensures
            r.navigator == navigator,
            r.crate_docs == crate_docs,
            r.item == item,
            r.name is None,
            r.parent is None,
    {
        DocRef { crate_docs, item, navigator, name: None, parent: None }
    }

    /// A handle on another part of the same document.
    pub fn build_ref<U>(&self, inner: &'a U) -> (r: DocRef<'a, U>)
        ensures
            r.navigator == self.navigator,
            r.crate_docs == self.crate_docs,
            r.item == inner,
            r.name is None,
            r.parent is None,
    {
        DocRef::new(self.navigator, self.crate_docs, inner)
    }

    /// The document that owns the part.
    pub fn crate_docs(&self) -> (r: &'a RustdocData)
        ensures
            r == self.crate_docs,
    {
        self.crate_docs
    }

    /// The part itself.
    pub fn item(&self) -> (r: &'a T)
        ensures
            r == self.item,
    {
        self.item
    }

    /// The registry.
    pub fn navigator(&self) -> (r: &'a Navigator)
        ensures
            r == self.navigator,
    {
        self.navigator
    }

    /// The same handle, met under `name`.
    pub fn with_name(self, name: &'a str) -> (r: Self)
        ensures
            r.navigator == self.navigator,
            r.crate_docs == self.crate_docs,
            r.item == self.item,
            r.name == Some(name),
            r.parent == self.parent,
    {
        DocRef {
            crate_docs: self.crate_docs,
            item: self.item,
            navigator: self.navigator,
            name: Some(name),
            parent: self.parent,
        }
    }

    /// The item with this id in the same document, as a lookup gives it.
    pub fn get(&self, id: &Id) -> (r: Option<DocRef<'a, Item>>)
        ensures
            match r {
                Some(h) => self.crate_docs.item_at(*id) == Some(*h.item) && h@ == plain_handle(
                    *self.crate_docs,
                    *h.item,
                ) && h.crate_docs == self.crate_docs && h.navigator == self.navigator,
                None => self.crate_docs.item_at(*id) is None,
            },
    {
        self.crate_docs.get(self.navigator, id)
    }
}

impl RustdocData {
    /// The item with this id, as a handle with no name but its own and no
    /// parent.
    pub fn get<'a>(&'a self, navigator: &'a Navigator, id: &Id) -> (r: Option<DocRef<'a, Item>>)
        ensures
            match r {
                Some(h) => self.item_at(*id) == Some(*h.item) && h@ == plain_handle(
                    *self,
                    *h.item,
                ) && h.crate_docs == self && h.navigator == navigator,
                None => self.item_at(*id) is None,
            },
    {
        match self.item(*id) {
            Some(item) => Some(DocRef::new(navigator, self, item)),
            None => None,
        }
    }

    /// The path summary of this id, as a path.
    pub fn path<'a>(&'a self, id: &Id) -> (r: Option<Path<'a>>)
        ensures
            match r {
                Some(p) => self.summary_of(*id) is Some && p.0@ == self.summary_of(*id).unwrap().path@,
                None => self.summary_of(*id) is None,
            },
    {
        match self.summary(*id) {
            Some(summary) => Some(Path(summary.path.as_slice())),
            None => None,
        }
    }

    /// The item at the top of the tree, if the document holds it.
    pub fn root_item<'a>(&'a self, navigator: &'a Navigator) -> (r: Option<DocRef<'a, Item>>)
        ensures
            match r {
                Some(h) => self.item_at(self.root) == Some(*h.item) && h@ == plain_handle(
                    *self,
                    *h.item,
                ) && h.crate_docs == self && h.navigator == navigator,
                None => self.item_at(self.root) is None,
            },
    {
        self.get(navigator, &self.root)
    }
}

impl<'a> DocRef<'a, Item> {
    /// The same handle, with `parent` as the item that the walk came from.
    pub fn with_parent(self, parent: DocRef<'a, Item>) -> (r: Self)
        ensures
            r.navigator == self.navigator,
            r.crate_docs == self.crate_docs,
            r.item == self.item,
            r.name == self.name,
            r.parent == Some(
                ParentRef { crate_docs: parent.crate_docs, item: parent.item, name: parent.name },
            ),
    {
        DocRef {
            crate_docs: self.crate_docs,
            item: self.item,
            navigator: self.navigator,
            name: self.name,
            parent: Some(
                ParentRef { crate_docs: parent.crate_docs, item: parent.item, name: parent.name },
            ),
        }
    }

    /// The name of the item: the name it was met under, else its own, else
    /// the last segment of its path summary.
    pub fn name(&self) -> (r: Option<&'a str>)
        ensures
            opt_str_view(r) == shown_name(*self.crate_docs, *self.item, opt_str_view(self.name)),
    {
        if let Some(n) = self.name {
            return Some(n);
        }
        if let Some(n) = &self.item.name {
            return Some(n.as_str());
        }
        match self.crate_docs.summary(self.item.id) {
            Some(summary) => {
                let n = summary.path.len();
                if n > 0 {
                    Some(summary.path[n - 1].as_str())
                } else {
                    None
                }
            },
            None => None,
        }
    }

    /// What the item is.
    pub fn inner(&self) -> (r: &'a ItemEnum)
        ensures
            *r == self.item.inner,
    {
        &self.item.inner
    }

    /// The kind of the item.
    pub fn kind(&self) -> (k: ItemKind)
        ensures
            k == kind_of(self.item.inner),
    {
        self.item.kind()
    }

    /// The path summary of the item, as a path.
    pub fn path(&self) -> (r: Option<Path<'a>>)
        ensures
            match r {
                Some(p) => self.crate_docs.summary_of(self.item.id) is Some && p.0@
                    == self.crate_docs.summary_of(self.item.id).unwrap().path@,
                None => self.crate_docs.summary_of(self.item.id) is None,
            },
    {
        self.crate_docs.path(&self.item.id)
    }

    /// The path summary of the item.
    pub fn summary(&self) -> (r: Option<&'a ItemSummary>)
        ensures
            match r {
                Some(summary) => self.crate_docs.summary_of(self.item.id) == Some(*summary),
                None => self.crate_docs.summary_of(self.item.id) is None,
            },
    {
        self.crate_docs.summary(self.item.id)
    }

    /// Returns the fully-qualified, kind-discriminated path of the item,
    /// which `Navigator::resolve_path` takes back.
    ///
    /// A struct `Vec` in `std::vec` has `std::vec::struct@Vec`, the module
    /// `vec` itself `std::mod@vec`. The first segment is the name under
    /// which the registry holds the document, not the name that the path
    /// summary starts with; the discriminator stands on the last segment
    /// only. An item without a path summary is written below its parent.
    ///
    /// Returns `None` for an item that has neither a path summary nor both
    /// a parent and a name of its own.
    pub fn discriminated_path(&self) -> (r: Option<String>)
        ensures
            opt_view(r) == discriminated(self@),
    {
        let disc = kind_discriminator(self.kind());
        if let Some(summary) = self.summary() {
            return summary_path_text(self.crate_docs.name.as_str(), &summary.path, disc);
        }
        let parent_ref = match self.parent {
            Some(p) => p,
            None => {
                return None;
            },
        };
        let name = match &self.item.name {
            Some(n) => n.as_str(),
            None => {
                return None;
            },
        };
        let parent_docs = parent_ref.crate_docs;
        let parent_summary = match parent_docs.summary(parent_ref.item.id) {
            Some(s) => s,
            None => {
                return None;
            },
        };
        let mut parent_path: Option<String> = None;
        if parent_summary.path.len() >= 1 {
            let parent_key = join(&parent_summary.path, 1, parent_summary.path.len());
            if parent_docs.lookup_path(parent_key.as_str()).is_some() {
                if parent_key.as_str().unicode_len() == 0 {
                    parent_path = Some(parent_docs.name.clone());
                } else {
                    let mut text = parent_docs.name.clone();
                    proof {
                        lemma_separator_literal();
                    }
                    text.append("::");
                    text.append(parent_key.as_str());
                    parent_path = Some(text);
                }
            }
        }
        assert(opt_view(parent_path) == simple_parent_path(*parent_docs, *parent_ref.item));
        if parent_path.is_none() {
            let parent_disc = kind_discriminator(parent_ref.item.kind());
            parent_path =
            summary_path_text(parent_docs.name.as_str(), &parent_summary.path, parent_disc);
        }
        match parent_path {
            Some(mut text) => {
                proof {
                    lemma_separator_literal();
                }
                text.append("::");
                append_qualified(&mut text, disc, name);
                Some(text)
            },
            None => None,
        }
    }
}

impl<'a> DocRef<'a, Use> {
    /// The name under which the re-export is met: the name given to the
    /// handle, else the name of the re-export itself.
    pub fn use_name(self) -> (r: &'a str)
        ensures
            r@ == match self.name {
                Some(n) => n@,
                None => self.item.name@,
            },
    {
        match self.name {
            Some(n) => n,
            None => self.item.name.as_str(),
        }
    }
}

/// Appends `disc@name` to `text`.
fn append_qualified(text: &mut String, disc: &str, name: &str)
    ensures
        final(text)@ == old(text)@ + qualified_segment(disc@, name@),
{
    proof {
        reveal_strlit("@");
        assert("@"@ =~= seq!['@']);
    }
    let ghost before = text@;
    text.append(disc);
    text.append("@");
    text.append(name);
    assert(text@ =~= before + qualified_segment(disc@, name@));
}

/// Writes the path that a summary gives: `name`, the segments of `path`
/// after the first, and `disc` on the last segment.
fn summary_path_text(name: &str, path: &Vec<String>, disc: &str) -> (r: Option<String>)
    ensures
        opt_view(r) == summary_path(name@, views_of(path@), disc@),
{
    let n = path.len();
    if n == 0 {
        return None;
    }
    proof {
        lemma_separator_literal();
    }
    let mut text = String::from_str(name);
    text.append("::");
    if n == 1 {
        append_qualified(&mut text, disc, path[0].as_str());
        return Some(text);
    }
    let prefix = join(path, 1, n - 1);
    proof {
        let tail = views_of(path@).subrange(1, n as int);
        assert(tail.drop_last() =~= views_of(path@).subrange(1, n - 1));
        assert(tail.last() == path@[n - 1]@);
    }
    if prefix.as_str().unicode_len() > 0 {
        text.append(prefix.as_str());
        text.append("::");
    }
    append_qualified(&mut text, disc, path[n - 1].as_str());
    Some(text)
}

} // verus!

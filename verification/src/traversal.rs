//! Walking the item tree: the children of an item, and the item at the end
//! of a path of names.

use vstd::prelude::*;
use vstd::string::*;
use crate::doc_ref::{
    handle_views, opt_str_view, plain_handle, shown_name, DocRef, Handle, ParentRef, ParentView,
};
use crate::external::crate_by_id;
use crate::item::{discriminator, kind_discriminator, kind_of, Id, Item, ItemEnum, Use};
use crate::navigator::Navigator;
use crate::rustdoc_data::{str_eq, RustdocData};
use crate::text::views_of;

verus! {

/// The members of the implementations among the first `n` of `impls`, one
/// implementation after another. An id that is not that of an
/// implementation in the document adds nothing.
pub open spec fn impl_member_ids(doc: RustdocData, impls: Seq<Id>, n: int) -> Seq<Id>
    decreases n,
{
    if n <= 0 || n > impls.len() {
        Seq::empty()
    } else {
        let before = impl_member_ids(doc, impls, n - 1);
        match doc.item_at(impls[n - 1]) {
            Some(item) => match item.inner {
                ItemEnum::Impl { items } => before + items@,
                _ => before,
            },
            None => before,
        }
    }
}

/// The ids of what stands directly below an item: the items of a module,
/// of a trait or of an implementation; the fields or variants of a type,
/// and then the members of its implementations; the fields of a variant;
/// the members of the implementations of a primitive type.
pub open spec fn member_ids(doc: RustdocData, item: Item) -> Seq<Id> {
    match item.inner {
        ItemEnum::Module { items } => items@,
        ItemEnum::Trait { items } => items@,
        ItemEnum::Impl { items } => items@,
        ItemEnum::Variant { fields } => fields@,
        ItemEnum::Struct { fields, impls } => fields@ + impl_member_ids(
            doc,
            impls@,
            impls@.len() as int,
        ),
        ItemEnum::Union { fields, impls } => fields@ + impl_member_ids(
            doc,
            impls@,
            impls@.len() as int,
        ),
        ItemEnum::Enum { variants, impls } => variants@ + impl_member_ids(
            doc,
            impls@,
            impls@.len() as int,
        ),
        ItemEnum::Primitive { impls } => impl_member_ids(doc, impls@, impls@.len() as int),
        _ => Seq::empty(),
    }
}

/// What is wrong with a document that does not hold together.
#[derive(Debug, Clone, Copy, PartialEq, Eq, Structural)]
pub enum Malformed {
    /// The document does not hold the item that it names as its root.
    MissingRoot,
    /// An item names this id, and the document has neither an item nor a
    /// path summary of that id.
    MissingItem(Id),
}

/// The ids that an item names: its members and implementations, or the
/// target of a re-export.
pub open spec fn references(item: Item) -> Seq<Id> {
    match item.inner {
        ItemEnum::Module { items } => items@,
        ItemEnum::Trait { items } => items@,
        ItemEnum::Impl { items } => items@,
        ItemEnum::Variant { fields } => fields@,
        ItemEnum::Struct { fields, impls } => fields@ + impls@,
        ItemEnum::Union { fields, impls } => fields@ + impls@,
        ItemEnum::Enum { variants, impls } => variants@ + impls@,
        ItemEnum::Primitive { impls } => impls@,
        ItemEnum::Use(Use { name, id, is_glob }) => match id {
            Some(target) => seq![target],
            None => Seq::empty(),
        },
        _ => Seq::empty(),
    }
}

/// The document knows nothing of the id: neither an item nor a path
/// summary.
pub open spec fn is_unknown(doc: RustdocData, id: Id) -> bool {
    doc.item_at(id) is None && doc.summary_of(id) is None
}

/// The first of `ids`, at or after `from`, of which the document knows
/// nothing.
pub open spec fn first_unknown(doc: RustdocData, ids: Seq<Id>, from: int) -> Option<Id>
    decreases ids.len() - from,
{
    if from < 0 || from >= ids.len() {
        None
    } else if is_unknown(doc, ids[from]) {
        Some(ids[from])
    } else {
        first_unknown(doc, ids, from + 1)
    }
}

/// The first id that an item at or after position `from` names and of
/// which the document knows nothing.
pub open spec fn first_dangling(doc: RustdocData, from: int) -> Option<Id>
    decreases doc.index.len() - from,
{
    if from < 0 || from >= doc.index.len() {
        None
    } else {
        match first_unknown(doc, references(doc.index@[from]), 0) {
            Some(id) => Some(id),
            None => first_dangling(doc, from + 1),
        }
    }
}

/// What is wrong with a document, if anything is: its root is missing, or
/// else an item names an id of which the document knows nothing.
pub open spec fn defect(doc: RustdocData) -> Option<Malformed> {
    if doc.item_at(doc.root) is None {
        Some(Malformed::MissingRoot)
    } else {
        match first_dangling(doc, 0) {
            Some(id) => Some(Malformed::MissingItem(id)),
            None => None,
        }
    }
}

/// The parent context that a child of `parent` carries.
pub open spec fn parent_of(parent: Handle) -> ParentView {
    ParentView { doc: parent.doc, item: parent.item, name: parent.name }
}

/// The handle on `item` of the parent's document, met below `parent` under
/// its own name.
pub open spec fn member(parent: Handle, item: Item) -> Handle {
    Handle { doc: parent.doc, item, name: None, parent: Some(parent_of(parent)) }
}

/// What one member of a module brings below `parent` when all members of
/// the module are re-exported: the item itself; for a re-export of one
/// item of the same document, that item under the name of the re-export.
/// Another re-export of all members is not followed.
pub open spec fn brought(parent: Handle, item: Item) -> Option<Handle> {
    match item.inner {
        ItemEnum::Use(Use { name, id: target, is_glob }) => match target {
            Some(t) => if is_glob {
                None
            } else {
                match parent.doc.item_at(t) {
                    Some(found) => Some(
                        Handle {
                            doc: parent.doc,
                            item: found,
                            name: Some(name@),
                            parent: Some(parent_of(parent)),
                        },
                    ),
                    None => None,
                }
            },
            None => None,
        },
        _ => Some(member(parent, item)),
    }
}

/// What a re-export of all members of a module brings below `parent`: what
/// the first `n` of the module's members bring, in order.
pub open spec fn globbed(parent: Handle, ids: Seq<Id>, n: int) -> Seq<Handle>
    decreases n,
{
    if n <= 0 || n > ids.len() {
        Seq::empty()
    } else {
        let before = globbed(parent, ids, n - 1);
        match parent.doc.item_at(ids[n - 1]) {
            Some(item) => match brought(parent, item) {
                Some(h) => before.push(h),
                None => before,
            },
            None => before,
        }
    }
}

/// 1 where re-exports are followed into other documents, else 0.
pub open spec fn level(follow: bool) -> nat {
    if follow {
        1
    } else {
        0
    }
}

/// The item that the path summary of `id` leads to: in the document of the
/// summary's package, the end of a walk from the root along the summary's
/// path that stays within that document.
pub open spec fn item_by_path(doc: RustdocData, nav: Navigator, id: Id) -> Option<Handle>
    decreases 0nat, 7nat, 0nat,
{
    match doc.summary_of(id) {
        Some(summary) => match crate_by_id(doc, nav, summary.crate_id) {
            Some(home) => match home.item_at(home.root) {
                Some(root) => walk(
                    nav,
                    plain_handle(home, root),
                    views_of(summary.path@).subrange(
                        if summary.path.len() >= 1 {
                            1
                        } else {
                            0
                        },
                        summary.path.len() as int,
                    ),
                    None,
                    false,
                ),
                None => None,
            },
            None => None,
        },
        None => None,
    }
}

/// The item that a re-export under `name` brings below `parent`: the item
/// of the id `target` in the parent's document; else, where `follow` is
/// set, the item that the path summary of `target` leads to.
pub open spec fn used(
    nav: Navigator,
    parent: Handle,
    target: Id,
    name: Seq<char>,
    follow: bool,
) -> Option<Handle>
    decreases level(follow), 1nat, 0nat,
{
    match parent.doc.item_at(target) {
        Some(item) => Some(
            Handle { doc: parent.doc, item, name: Some(name), parent: Some(parent_of(parent)) },
        ),
        None => if follow {
            match item_by_path(parent.doc, nav, target) {
                Some(h) => Some(
                    Handle {
                        doc: h.doc,
                        item: h.item,
                        name: Some(name),
                        parent: Some(parent_of(parent)),
                    },
                ),
                None => None,
            }
        } else {
            None
        },
    }
}

/// The children that the member `id` of `parent` gives: the item itself;
/// for a re-export of one item, that item under the name of the
/// re-export; for a re-export of all members of a module, those members.
/// An id that the document does not hold gives nothing.
pub open spec fn met(nav: Navigator, parent: Handle, id: Id, follow: bool) -> Seq<Handle>
    decreases level(follow), 2nat, 0nat,
{
    match parent.doc.item_at(id) {
        None => Seq::empty(),
        Some(item) => match item.inner {
            ItemEnum::Use(Use { name, id: target, is_glob }) => match target {
                None => Seq::empty(),
                Some(t) => if is_glob {
                    match parent.doc.item_at(t) {
                        Some(module) => globbed(
                            parent,
                            member_ids(parent.doc, module),
                            member_ids(parent.doc, module).len() as int,
                        ),
                        None => Seq::empty(),
                    }
                } else {
                    match used(nav, parent, t, name@, follow) {
                        Some(h) => seq![h],
                        None => Seq::empty(),
                    }
                },
            },
            _ => seq![member(parent, item)],
        },
    }
}

/// The children that the first `n` of the members `ids` give, in order.
pub open spec fn children_upto(
    nav: Navigator,
    parent: Handle,
    ids: Seq<Id>,
    n: int,
    follow: bool,
) -> Seq<Handle>
    decreases level(follow), 3nat, n,
{
    if n <= 0 || n > ids.len() {
        Seq::empty()
    } else {
        children_upto(nav, parent, ids, n - 1, follow) + met(nav, parent, ids[n - 1], follow)
    }
}

/// The children of an item, in the order in which a walk meets them, each
/// with the item as its parent.
pub open spec fn children_of(nav: Navigator, parent: Handle, follow: bool) -> Seq<Handle>
    decreases level(follow), 4nat, 0nat,
{
    children_upto(
        nav,
        parent,
        member_ids(parent.doc, parent.item),
        member_ids(parent.doc, parent.item).len() as int,
        follow,
    )
}

/// The handle is met under `name` and, where a discriminator is asked for,
/// has a kind with that discriminator.
pub open spec fn answers(h: Handle, name: Seq<char>, disc: Option<Seq<char>>) -> bool {
    &&& shown_name(h.doc, h.item, h.name) == Some(name)
    &&& match disc {
        Some(d) => discriminator(kind_of(h.item.inner)) == d,
        None => true,
    }
}

/// The first position at or after `from` of a handle that answers to
/// `name` and `disc`.
pub open spec fn find_answer(
    list: Seq<Handle>,
    name: Seq<char>,
    disc: Option<Seq<char>>,
    from: int,
) -> Option<int>
    decreases list.len() - from,
{
    if from < 0 || from >= list.len() {
        None
    } else if answers(list[from], name, disc) {
        Some(from)
    } else {
        find_answer(list, name, disc, from + 1)
    }
}

/// The first child of `parent` that is met under `name` (and has the
/// discriminator asked for).
pub open spec fn first_child(
    nav: Navigator,
    parent: Handle,
    name: Seq<char>,
    disc: Option<Seq<char>>,
    follow: bool,
) -> Option<Handle>
    decreases level(follow), 5nat, 0nat,
{
    let children = children_of(nav, parent, follow);
    match find_answer(children, name, disc, 0) {
        Some(i) => Some(children[i]),
        None => None,
    }
}

/// Where a walk from `start` along `names` ends: at each step it goes to the
/// first child met under the next name and does not come back; the
/// discriminator, if any, is asked of the last step only.
pub open spec fn walk(
    nav: Navigator,
    start: Handle,
    names: Seq<Seq<char>>,
    disc: Option<Seq<char>>,
    follow: bool,
) -> Option<Handle>
    decreases level(follow), 6nat, names.len(),
{
    if names.len() == 0 {
        Some(start)
    } else {
        let want = if names.len() == 1 {
            disc
        } else {
            None
        };
        match first_child(nav, start, names[0], want, follow) {
            Some(c) => walk(nav, c, names.drop_first(), disc, follow),
            None => None,
        }
    }
}

impl RustdocData {
    /// Tells whether the document holds together: it holds its root, and
    /// of every id that one of its items names it has the item or a path
    /// summary. What is wrong is reported, not mended.
    pub fn check(&self) -> (r: Result<(), Malformed>)
        ensures
            match r {
                Ok(_) => defect(*self) is None,
                Err(e) => defect(*self) == Some(e),
            },
    {
        if self.item(self.root).is_none() {
            return Err(Malformed::MissingRoot);
        }
        let mut i: usize = 0;
        while i < self.index.len()
            invariant
                i <= self.index.len(),
                self.item_at(self.root) is Some,
                first_dangling(*self, 0) == first_dangling(*self, i as int),
            decreases self.index.len() - i,
        {
            let ids = references_of(&self.index[i]);
            let mut k: usize = 0;
            while k < ids.len()
                invariant
                    i < self.index.len(),
                    k <= ids.len(),
                    self.item_at(self.root) is Some,
                    first_dangling(*self, 0) == first_dangling(*self, i as int),
                    ids@ == references(self.index@[i as int]),
                    first_unknown(*self, ids@, 0) == first_unknown(*self, ids@, k as int),
                decreases ids.len() - k,
            {
                if self.item(ids[k]).is_none() && self.summary(ids[k]).is_none() {
                    return Err(Malformed::MissingItem(ids[k]));
                }
                k += 1;
            }
            i += 1;
        }
        Ok(())
    }

    /// The ids of what stands directly below `item`.
    pub fn member_ids(&self, item: &Item) -> (r: Vec<Id>)
        ensures
            r@ == member_ids(*self, *item),
    {
        let mut r: Vec<Id> = Vec::new();
        match &item.inner {
            ItemEnum::Module { items } => {
                push_ids(&mut r, items);
            },
            ItemEnum::Trait { items } => {
                push_ids(&mut r, items);
            },
            ItemEnum::Impl { items } => {
                push_ids(&mut r, items);
            },
            ItemEnum::Variant { fields } => {
                push_ids(&mut r, fields);
            },
            ItemEnum::Struct { fields, impls } => {
                push_ids(&mut r, fields);
                self.push_impl_members(&mut r, impls);
            },
            ItemEnum::Union { fields, impls } => {
                push_ids(&mut r, fields);
                self.push_impl_members(&mut r, impls);
            },
            ItemEnum::Enum { variants, impls } => {
                push_ids(&mut r, variants);
                self.push_impl_members(&mut r, impls);
            },
            ItemEnum::Primitive { impls } => {
                self.push_impl_members(&mut r, impls);
            },
            _ => {},
        }
        assert(r@ =~= member_ids(*self, *item));
        r
    }

    /// Appends the members of the implementations `impls`.
    fn push_impl_members(&self, out: &mut Vec<Id>, impls: &Vec<Id>)
        ensures
            final(out)@ == old(out)@ + impl_member_ids(*self, impls@, impls@.len() as int),
    {
        let ghost start = out@;
        let mut i: usize = 0;
        assert(start + impl_member_ids(*self, impls@, 0) =~= start);
        while i < impls.len()
            invariant
                i <= impls.len(),
                out@ == start + impl_member_ids(*self, impls@, i as int),
            decreases impls.len() - i,
        {
            if let Some(item) = self.item(impls[i]) {
                if let ItemEnum::Impl { items } = &item.inner {
                    push_ids(out, items);
                }
            }
            i += 1;
            assert(out@ =~= start + impl_member_ids(*self, impls@, i as int));
        }
    }

    /// The item that the path summary of `id` leads to, looked for by that
    /// path in the document of the package that the summary names.
    pub fn get_path<'a>(&'a self, navigator: &'a Navigator, id: Id) -> (r: Option<
        DocRef<'a, Item>,
    >)
        ensures
            match r {
                Some(h) => item_by_path(*self, *navigator, id) == Some(h@) && h.navigator
                    == navigator,
                None => item_by_path(*self, *navigator, id) is None,
            },
        decreases 0nat, 7nat, 0nat,
    {
        let item_summary = match self.summary(id) {
            Some(s) => s,
            None => {
                return None;
            },
        };
        let home = match self.traverse_to_crate_by_id(navigator, item_summary.crate_id) {
            Some(doc) => doc,
            None => {
                return None;
            },
        };
        let root = match home.root_item(navigator) {
            Some(root) => root,
            None => {
                return None;
            },
        };
        let from: usize = if item_summary.path.len() >= 1 {
            1
        } else {
            0
        };
        root.find_by_query_with(&item_summary.path, from, None, false)
    }
}

/// The ids that an item names.
fn references_of(item: &Item) -> (r: Vec<Id>)
    ensures
        r@ == references(*item),
{
    let mut r: Vec<Id> = Vec::new();
    match &item.inner {
        ItemEnum::Module { items } => {
            push_ids(&mut r, items);
        },
        ItemEnum::Trait { items } => {
            push_ids(&mut r, items);
        },
        ItemEnum::Impl { items } => {
            push_ids(&mut r, items);
        },
        ItemEnum::Variant { fields } => {
            push_ids(&mut r, fields);
        },
        ItemEnum::Struct { fields, impls } => {
            push_ids(&mut r, fields);
            push_ids(&mut r, impls);
        },
        ItemEnum::Union { fields, impls } => {
            push_ids(&mut r, fields);
            push_ids(&mut r, impls);
        },
        ItemEnum::Enum { variants, impls } => {
            push_ids(&mut r, variants);
            push_ids(&mut r, impls);
        },
        ItemEnum::Primitive { impls } => {
            push_ids(&mut r, impls);
        },
        ItemEnum::Use(Use { id, .. }) => {
            if let Some(target) = id {
                r.push(*target);
            }
        },
        _ => {},
    }
    assert(r@ =~= references(*item));
    r
}

/// Appends `ids` to `out`.
fn push_ids(out: &mut Vec<Id>, ids: &Vec<Id>)
    ensures
        final(out)@ == old(out)@ + ids@,
{
    let ghost start = out@;
    let mut i: usize = 0;
    assert(start + ids@.take(0) =~= start);
    while i < ids.len()
        invariant
            i <= ids.len(),
            out@ == start + ids@.take(i as int),
        decreases ids.len() - i,
    {
        out.push(ids[i]);
        i += 1;
        assert(out@ =~= start + ids@.take(i as int));
    }
    assert(ids@.take(ids.len() as int) =~= ids@);
}

/// Every handle of the list refers to the registry `navigator`.
pub open spec fn all_of<'a>(list: Seq<DocRef<'a, Item>>, navigator: &Navigator) -> bool {
    forall|i: int| 0 <= i < list.len() ==> (#[trigger] list[i]).navigator == navigator
}

impl<'a, T> DocRef<'a, T> {
    /// The item that the path summary of `id` leads to.
    pub fn get_path(&self, id: Id) -> (r: Option<DocRef<'a, Item>>)
        ensures
            match r {
                Some(h) => item_by_path(*self.crate_docs, *self.navigator, id) == Some(h@)
                    && h.navigator == self.navigator,
                None => item_by_path(*self.crate_docs, *self.navigator, id) is None,
            },
    {
        self.crate_docs.get_path(self.navigator, id)
    }
}

impl<'a> DocRef<'a, Item> {
    /// The parent context that a child of this item carries.
    fn as_parent(&self) -> (r: ParentRef<'a>)
        ensures
            r.crate_docs == self.crate_docs,
            r.item == self.item,
            r.name == self.name,
    {
        ParentRef { crate_docs: self.crate_docs, item: self.item, name: self.name }
    }

    /// Appends what a re-export of all members of `module` brings below
    /// this item.
    fn push_globbed(&self, module: &'a Item, out: &mut Vec<DocRef<'a, Item>>)
        requires
            all_of(old(out)@, self.navigator),
        ensures
            all_of(final(out)@, self.navigator),
            handle_views(final(out)@) == handle_views(old(out)@) + globbed(
                self@,
                member_ids(*self.crate_docs, *module),
                member_ids(*self.crate_docs, *module).len() as int,
            ),
    {
        let ghost start = handle_views(out@);
        let ids = self.crate_docs.member_ids(module);
        let mut i: usize = 0;
        assert(start + globbed(self@, ids@, 0) =~= start);
        while i < ids.len()
            invariant
                i <= ids.len(),
                ids@ == member_ids(*self.crate_docs, *module),
                all_of(out@, self.navigator),
                handle_views(out@) == start + globbed(self@, ids@, i as int),
            decreases ids.len() - i,
        {
            let ghost before = handle_views(out@);
            if let Some(item) = self.crate_docs.item(ids[i]) {
                let child: Option<DocRef<'a, Item>> = match &item.inner {
                    ItemEnum::Use(Use { name, id: target, is_glob }) => match target {
                        Some(t) => if *is_glob {
                            None
                        } else {
                            match self.crate_docs.item(*t) {
                                Some(found) => Some(
                                    DocRef {
                                        crate_docs: self.crate_docs,
                                        item: found,
                                        navigator: self.navigator,
                                        name: Some(name.as_str()),
                                        parent: Some(self.as_parent()),
                                    },
                                ),
                                None => None,
                            }
                        },
                        None => None,
                    },
                    _ => Some(
                        DocRef {
                            crate_docs: self.crate_docs,
                            item,
                            navigator: self.navigator,
                            name: None,
                            parent: Some(self.as_parent()),
                        },
                    ),
                };
                assert(match child {
                    Some(h) => brought(self@, *item) == Some(h@),
                    None => brought(self@, *item) is None,
                });
                if let Some(h) = child {
                    out.push(h);
                    assert(handle_views(out@) =~= before.push(h@));
                }
            }
            i += 1;
            assert(handle_views(out@) =~= start + globbed(self@, ids@, i as int));
        }
    }

    /// Appends the children that the member `id` gives.
    fn push_met(&self, id: Id, follow: bool, out: &mut Vec<DocRef<'a, Item>>)
        requires
            all_of(old(out)@, self.navigator),
        ensures
            all_of(final(out)@, self.navigator),
            handle_views(final(out)@) == handle_views(old(out)@) + met(
                *self.navigator,
                self@,
                id,
                follow,
            ),
        decreases level(follow), 2nat, 0nat,
    {
        let ghost start = handle_views(out@);
        let ghost nav = *self.navigator;
        let item = match self.crate_docs.item(id) {
            Some(item) => item,
            None => {
                assert(start + Seq::<Handle>::empty() =~= start);
                return ;
            },
        };
        match &item.inner {
            ItemEnum::Use(Use { name, id: target, is_glob }) => {
                let t = match target {
                    Some(t) => *t,
                    None => {
                        assert(start + Seq::<Handle>::empty() =~= start);
                        return ;
                    },
                };
                if *is_glob {
                    match self.crate_docs.item(t) {
                        Some(module) => {
                            self.push_globbed(module, out);
                        },
                        None => {
                            assert(start + Seq::<Handle>::empty() =~= start);
                        },
                    }
                } else {
                    let found: Option<DocRef<'a, Item>> = match self.crate_docs.item(t) {
                        Some(own) => Some(
                            DocRef {
                                crate_docs: self.crate_docs,
                                item: own,
                                navigator: self.navigator,
                                name: Some(name.as_str()),
                                parent: Some(self.as_parent()),
                            },
                        ),
                        None => if follow {
                            match self.crate_docs.get_path(self.navigator, t) {
                                Some(h) => Some(
                                    DocRef {
                                        crate_docs: h.crate_docs,
                                        item: h.item,
                                        navigator: self.navigator,
                                        name: Some(name.as_str()),
                                        parent: Some(self.as_parent()),
                                    },
                                ),
                                None => None,
                            }
                        } else {
                            None
                        },
                    };
                    assert(match found {
                        Some(h) => used(nav, self@, t, name@, follow) == Some(h@),
                        None => used(nav, self@, t, name@, follow) is None,
                    });
                    match found {
                        Some(h) => {
                            out.push(h);
                            assert(handle_views(out@) =~= start + seq![h@]);
                        },
                        None => {
                            assert(start + Seq::<Handle>::empty() =~= start);
                        },
                    }
                }
            },
            _ => {
                let child = DocRef {
                    crate_docs: self.crate_docs,
                    item,
                    navigator: self.navigator,
                    name: None,
                    parent: Some(self.as_parent()),
                };
                out.push(child);
                assert(handle_views(out@) =~= start + seq![member(self@, *item)]);
            },
        }
    }

    /// The children of the item, following re-exports into other documents
    /// only where `follow` is set.
    pub fn child_items_with(&self, follow: bool) -> (r: Vec<DocRef<'a, Item>>)
        ensures
            handle_views(r@) == children_of(*self.navigator, self@, follow),
            all_of(r@, self.navigator),
        decreases level(follow), 4nat, 0nat,
    {
        let ghost nav = *self.navigator;
        let ids = self.crate_docs.member_ids(self.item);
        let mut r: Vec<DocRef<'a, Item>> = Vec::new();
        let mut i: usize = 0;
        assert(handle_views(r@) =~= children_upto(nav, self@, ids@, 0, follow));
        while i < ids.len()
            invariant
                i <= ids.len(),
                nav == *self.navigator,
                ids@ == member_ids(*self.crate_docs, *self.item),
                all_of(r@, self.navigator),
                handle_views(r@) == children_upto(nav, self@, ids@, i as int, follow),
            decreases ids.len() - i,
        {
            self.push_met(ids[i], follow, &mut r);
            i += 1;
        }
        r
    }

    /// The children of the item, in the order in which a walk meets them,
    /// each with this item as its parent.
    ///
    /// What stands directly below the item is met as it is; a re-export of
    /// one item gives that item under the name of the re-export, also
    /// where the item lives in another document that the registry holds; a
    /// re-export of all members of a module gives those members.
    pub fn child_items(&self) -> (r: Vec<DocRef<'a, Item>>)
        ensures
            handle_views(r@) == children_of(*self.navigator, self@, true),
            all_of(r@, self.navigator),
    {
        self.child_items_with(true)
    }

    /// Tells whether the handle is met under `name` and has the
    /// discriminator asked for.
    fn answers_to(&self, name: &str, disc: Option<&str>) -> (r: bool)
        ensures
            r == answers(self@, name@, opt_str_view(disc)),
    {
        let named = match self.name() {
            Some(n) => str_eq(n, name),
            None => false,
        };
        if !named {
            return false;
        }
        match disc {
            Some(d) => str_eq(kind_discriminator(self.kind()), d),
            None => true,
        }
    }

    /// The first child met under `child_name` whose kind has the
    /// discriminator `disc`, where one is asked for.
    pub fn find_child_with(&self, child_name: &str, disc: Option<&str>, follow: bool) -> (r: Option<
        DocRef<'a, Item>,
    >)
        ensures
            match r {
                Some(c) => first_child(
                    *self.navigator,
                    self@,
                    child_name@,
                    opt_str_view(disc),
                    follow,
                ) == Some(c@) && c.navigator == self.navigator,
                None => first_child(
                    *self.navigator,
                    self@,
                    child_name@,
                    opt_str_view(disc),
                    follow,
                ) is None,
            },
        decreases level(follow), 5nat, 0nat,
    {
        let ghost want = opt_str_view(disc);
        let children = self.child_items_with(follow);
        let ghost list = handle_views(children@);
        let mut i: usize = 0;
        while i < children.len()
            invariant
                i <= children.len(),
                want == opt_str_view(disc),
                list == handle_views(children@),
                list == children_of(*self.navigator, self@, follow),
                all_of(children@, self.navigator),
                find_answer(list, child_name@, want, 0) == find_answer(
                    list,
                    child_name@,
                    want,
                    i as int,
                ),
            decreases children.len() - i,
        {
            assert(list[i as int] == children@[i as int]@);
            if children[i].answers_to(child_name, disc) {
                return Some(children[i]);
            }
            i += 1;
        }
        None
    }

    /// The first child met under `child_name` whose kind has the
    /// discriminator `disc`, where one is asked for.
    pub fn find_child_of_kind(&self, child_name: &str, disc: Option<&str>) -> (r: Option<
        DocRef<'a, Item>,
    >)
        ensures
            match r {
                Some(c) => first_child(
                    *self.navigator,
                    self@,
                    child_name@,
                    opt_str_view(disc),
                    true,
                ) == Some(c@) && c.navigator == self.navigator,
                None => first_child(*self.navigator, self@, child_name@, opt_str_view(disc), true)
                    is None,
            },
    {
        self.find_child_with(child_name, disc, true)
    }

    /// The first child met under `child_name`.
    pub fn find_child(&self, child_name: &str) -> (r: Option<DocRef<'a, Item>>)
        ensures
            match r {
                Some(c) => first_child(*self.navigator, self@, child_name@, None, true) == Some(c@)
                    && c.navigator == self.navigator,
                None => first_child(*self.navigator, self@, child_name@, None, true) is None,
            },
    {
        self.find_child_with(child_name, None, true)
    }

    /// Walks down from this item along `names[from..]`, at each step to the
    /// first child met under the next name, asking the discriminator of the
    /// last step only.
    pub(crate) fn find_by_query_with(
        &self,
        names: &Vec<String>,
        from: usize,
        disc: Option<&str>,
        follow: bool,
    ) -> (r: Option<DocRef<'a, Item>>)
        requires
            from <= names.len(),
        ensures
            match r {
                Some(h) => walk(
                    *self.navigator,
                    self@,
                    views_of(names@).subrange(from as int, names.len() as int),
                    opt_str_view(disc),
                    follow,
                ) == Some(h@) && h.navigator == self.navigator,
                None => walk(
                    *self.navigator,
                    self@,
                    views_of(names@).subrange(from as int, names.len() as int),
                    opt_str_view(disc),
                    follow,
                ) is None,
            },
        decreases level(follow), 6nat, names.len() - from,
    {
        let ghost nav = *self.navigator;
        let ghost want = opt_str_view(disc);
        let ghost rest = views_of(names@).subrange(from as int, names.len() as int);
        if from == names.len() {
            assert(rest.len() == 0);
            return Some(*self);
        }
        assert(rest[0] == names@[from as int]@);
        assert(rest.drop_first() =~= views_of(names@).subrange(from + 1, names.len() as int));
        let asked = if from + 1 == names.len() {
            disc
        } else {
            None
        };
        match self.find_child_with(names[from].as_str(), asked, follow) {
            Some(c) => c.find_by_query_with(names, from + 1, disc, follow),
            None => None,
        }
    }

    /// Walks down from this item along `names[from..]`, at each step to the
    /// first child met under the next name, asking the discriminator of the
    /// last step only.
    pub(crate) fn find_by_query(&self, names: &Vec<String>, from: usize, disc: Option<&str>) -> (r:
        Option<DocRef<'a, Item>>)
        requires
            from <= names.len(),
        ensures
            match r {
                Some(h) => walk(
                    *self.navigator,
                    self@,
                    views_of(names@).subrange(from as int, names.len() as int),
                    opt_str_view(disc),
                    true,
                ) == Some(h@) && h.navigator == self.navigator,
                None => walk(
                    *self.navigator,
                    self@,
                    views_of(names@).subrange(from as int, names.len() as int),
                    opt_str_view(disc),
                    true,
                ) is None,
            },
    {
        self.find_by_query_with(names, from, disc, true)
    }

    /// Walks down from this item along `names`, at each step to the first
    /// child met under the next name.
    pub fn find_by_path(&self, names: &Vec<String>) -> (r: Option<DocRef<'a, Item>>)
        ensures
            match r {
                Some(h) => walk(*self.navigator, self@, views_of(names@), None, true) == Some(h@)
                    && h.navigator == self.navigator,
                None => walk(*self.navigator, self@, views_of(names@), None, true) is None,
            },
    {
        assert(views_of(names@).subrange(0, names.len() as int) =~= views_of(names@));
        self.find_by_query_with(names, 0, None, true)
    }
}

} // verus!

//! What holds between the canonical path of an item and the resolution of
//! paths.

use vstd::prelude::*;
use crate::doc_ref::{
    discriminated, path_by_summary, plain_handle, simple_parent_path, summary_path, Handle,
};
use crate::traversal::{first_child, walk};
use crate::item::{discriminator, kind_of, lemma_discriminator_is_bare, Item};
use crate::navigator::{names_of, resolve_by_index, resolve_in, Navigator};
use crate::rustdoc_data::{
    find_summary, is_local, lemma_find_summary_at, qualified_key, qualified_key_at,
    qualified_segment, tail_of, unqualified_key, RustdocData,
};
use crate::text::{
    discriminator_part, has_no_colon, join_path, lemma_join_path_last, lemma_join_split,
    lemma_qualified_segment_parts, lemma_split_from_nonempty, lemma_split_leading_segment,
    lemma_split_trailing_segment, name_part, separator, split_path, views_of,
};

verus! {

/// The item that a walk from the root of `doc` reaches along the path
/// `key`, written without the package name.
pub open spec fn walked(nav: Navigator, doc: RustdocData, key: Seq<char>) -> Option<Handle> {
    match doc.item_at(doc.root) {
        Some(root) => {
            let query = split_path(key);
            walk(
                nav,
                plain_handle(doc, root),
                names_of(query),
                discriminator_part(query.last()),
                true,
            )
        },
        None => None,
    }
}

/// The tree of a document and its reverse index agree: a path that leads
/// down the tree to an item, and that the index knows, is known to the
/// index as the path of that item, which is an item of the document.
pub open spec fn tree_agrees_with_index(nav: Navigator, doc: RustdocData) -> bool {
    forall|key: Seq<char>|
        match (#[trigger] walked(nav, doc, key), doc.indexed_id(key)) {
            (Some(h), Some(id)) => h.item.id == id && h.doc == doc,
            _ => true,
        }
}

/// The item of `h` has a path summary of the package's own that goes below
/// the package name, that has no empty beginning, and whose kind has the
/// discriminator of the item's kind.
pub open spec fn has_own_summary(h: Handle) -> bool {
    match h.doc.summary_of(h.item.id) {
        Some(s) => {
            let tail = views_of(s.path@).subrange(1, s.path.len() as int);
            &&& s.crate_id == 0
            &&& s.path.len() >= 2
            &&& discriminator(s.kind) == discriminator(kind_of(h.item.inner))
            &&& s.path.len() == 2 || join_path(tail.drop_last()).len() > 0
        },
        None => false,
    }
}

/// The canonical path of an item with a summary of its own is the name of
/// its document, `::`, and the key under which the reverse index holds the
/// item with its kind.
pub proof fn lemma_discriminated_path_is_name_and_key(h: Handle)
    requires
        has_own_summary(h),
    ensures
        find_summary(h.doc.paths@, h.item.id, 0) is Some,
        discriminated(h) == Some(
            h.doc.name@ + separator() + qualified_key_at(
                h.doc.paths@,
                find_summary(h.doc.paths@, h.item.id, 0).unwrap(),
            ),
        ),
{
    let doc = h.doc;
    lemma_find_summary_at(doc.paths@, h.item.id, 0);
    let i = find_summary(doc.paths@, h.item.id, 0).unwrap();
    let s = doc.paths@[i].summary;
    let path = views_of(s.path@);
    let tail = path.subrange(1, s.path.len() as int);
    let disc = discriminator(kind_of(h.item.inner));
    let last = qualified_segment(disc, tail.last());
    let segments = tail.drop_last().push(last);
    assert(tail_of(doc.paths@[i]) == tail);
    assert(qualified_key_at(doc.paths@, i) == join_path(segments));
    assert(segments.drop_last() =~= tail.drop_last());
    assert(segments.last() == last);
    assert(discriminated(h) == summary_path(doc.name@, path, disc));
    if tail.len() == 1 {
        assert(segments.len() == 1);
        assert(join_path(segments) == last);
        assert(join_path(tail.drop_last()).len() == 0);
    } else {
        assert(join_path(segments) == join_path(tail.drop_last()) + separator() + last);
        assert(doc.name@ + separator() + join_path(tail.drop_last()) + separator() + last
            =~= doc.name@ + separator() + (join_path(tail.drop_last()) + separator() + last));
    }
}

/// A path that the reverse index knows resolves to the item that the
/// index gives for it, whether or not a walk down the tree can follow the
/// path: so an item behind a module that the tree does not show is found
/// by the path through that module.
///
/// This holds in a loaded document whose name holds no colon and that
/// holds its root and the item, provided that a walk along the path
/// reaches that item if it reaches anything.
pub proof fn lemma_indexed_path_resolves(nav: Navigator, d: int, key: Seq<char>)
    requires
        nav.wf(),
        0 <= d < nav.docs.len(),
        has_no_colon(nav.docs@[d].name@),
        nav.docs@[d].item_at(nav.docs@[d].root) is Some,
        nav.docs@[d].indexed_id(key) is Some,
        nav.docs@[d].item_at(nav.docs@[d].indexed_id(key).unwrap()) is Some,
        match walked(nav, nav.docs@[d], key) {
            Some(h) => h.item.id == nav.docs@[d].indexed_id(key).unwrap() && h.doc == nav.docs@[d],
            None => true,
        },
    ensures
        nav.resolve(nav.docs@[d].name@ + separator() + key) is Some,
        nav.resolve(nav.docs@[d].name@ + separator() + key).unwrap().0 == d,
        nav.resolve(nav.docs@[d].name@ + separator() + key).unwrap().1.item.id
            == nav.docs@[d].indexed_id(key).unwrap(),
        nav.resolve(nav.docs@[d].name@ + separator() + key).unwrap().1.doc == nav.docs@[d],
{
    let doc = nav.docs@[d];
    let id = doc.indexed_id(key).unwrap();
    let item = doc.item_at(id).unwrap();
    crate::rustdoc_data::lemma_find_item_at(doc.index@, id, 0);
    let path = doc.name@ + separator() + key;
    lemma_split_leading_segment(doc.name@, key);
    lemma_split_from_nonempty(key, 0);
    let segments = split_path(path);
    let query = segments.drop_first();
    assert(segments[0] == doc.name@);
    assert(query =~= split_path(key));
    assert(nav.loaded(doc.name@) == Some(d));
    let names = names_of(query);
    let disc = discriminator_part(query.last());
    let root = doc.item_at(doc.root).unwrap();
    assert(walked(nav, doc, key) == walk(nav, plain_handle(doc, root), names, disc, true));
    if walked(nav, doc, key) is None {
        lemma_join_split(key);
        assert(query.take(query.len() as int) =~= query);
        assert(names.skip(query.len() as int).len() == 0);
        assert(walk(nav, plain_handle(doc, item), names.skip(query.len() as int), disc, true)
            == Some(plain_handle(doc, item)));
        assert(resolve_by_index(nav, doc, query, names, disc, query.len() as int) == Some(
            plain_handle(doc, item),
        ));
    }
    assert(resolve_in(nav, doc, segments) is Some);
    assert(resolve_in(nav, doc, segments).unwrap().item.id == id);
}

/// An item that a path through a re-export resolves to is also what the
/// path of its definition resolves to, even where that path leads through
/// a module that the tree does not show.
///
/// This holds where the item has a path summary of its own whose plain
/// path holds no `@` and is known to the reverse index, in a loaded
/// document whose name holds no colon, provided that a walk along the
/// path of the definition reaches the item if it reaches anything.
pub proof fn lemma_definition_path_resolves_to_re_exported_item(
    nav: Navigator,
    d: int,
    through_re_export: Seq<char>,
)
    requires
        nav.wf(),
        0 <= d < nav.docs.len(),
        has_no_colon(nav.docs@[d].name@),
        nav.resolve(through_re_export) is Some,
        nav.resolve(through_re_export).unwrap().1.doc == nav.docs@[d],
        has_own_summary(nav.resolve(through_re_export).unwrap().1),
        nav.docs@[d].item_at(nav.resolve(through_re_export).unwrap().1.item.id) is Some,
        nav.docs@[d].item_at(nav.docs@[d].root) is Some,
        nav.docs@[d].indexed_id(definition_key(nav.resolve(through_re_export).unwrap().1))
            is Some,
        forall|k: int|
            0 <= k < definition_key(nav.resolve(through_re_export).unwrap().1).len()
                ==> definition_key(nav.resolve(through_re_export).unwrap().1)[k] != '@',
        match walked(
            nav,
            nav.docs@[d],
            definition_key(nav.resolve(through_re_export).unwrap().1),
        ) {
            Some(r) => r.item.id == nav.resolve(through_re_export).unwrap().1.item.id && r.doc
                == nav.docs@[d],
            None => true,
        },
    ensures
        nav.resolve(
            nav.docs@[d].name@ + separator() + definition_key(
                nav.resolve(through_re_export).unwrap().1,
            ),
        ) is Some,
        nav.resolve(
            nav.docs@[d].name@ + separator() + definition_key(
                nav.resolve(through_re_export).unwrap().1,
            ),
        ).unwrap().1.item.id == nav.resolve(through_re_export).unwrap().1.item.id,
        nav.resolve(
            nav.docs@[d].name@ + separator() + definition_key(
                nav.resolve(through_re_export).unwrap().1,
            ),
        ).unwrap().1.doc == nav.resolve(through_re_export).unwrap().1.doc,
{
    let doc = nav.docs@[d];
    let h = nav.resolve(through_re_export).unwrap().1;
    lemma_find_summary_at(doc.paths@, h.item.id, 0);
    let i = find_summary(doc.paths@, h.item.id, 0).unwrap();
    assert(is_local(doc.paths@[i]));
    assert(definition_key(h) == unqualified_key(tail_of(doc.paths@[i])));
    doc.lemma_plain_key_is_indexed(i);
    lemma_indexed_path_resolves(nav, d, definition_key(h));
}

/// The path of the definition of an item, below the package name: the
/// segments of its path summary after the first, joined.
pub open spec fn definition_key(h: Handle) -> Seq<char>
    recommends
        h.doc.summary_of(h.item.id) is Some,
{
    let s = h.doc.summary_of(h.item.id).unwrap();
    join_path(views_of(s.path@).subrange(1, s.path.len() as int))
}

/// Round trip: the canonical discriminated path of an item resolves to
/// that item.
///
/// This holds of every item of a loaded document that has a path summary
/// of its own, provided that the document's name holds no colon, that the
/// document holds its root, that no two of its summaries have one
/// kind-qualified key, and that its tree and its reverse index agree.
/// However the handle was reached, the path resolves to its item.
pub proof fn lemma_discriminated_path_round_trips(nav: Navigator, d: int, h: Handle)
    requires
        nav.wf(),
        0 <= d < nav.docs.len(),
        h.doc == nav.docs@[d],
        has_no_colon(h.doc.name@),
        h.doc.item_at(h.doc.root) is Some,
        h.doc.item_at(h.item.id) == Some(h.item),
        h.doc.has_distinct_keys(),
        tree_agrees_with_index(nav, h.doc),
        has_own_summary(h),
    ensures
        discriminated(h) is Some,
        nav.resolve(discriminated(h).unwrap()) is Some,
        nav.resolve(discriminated(h).unwrap()).unwrap().0 == d,
        nav.resolve(discriminated(h).unwrap()).unwrap().1.item.id == h.item.id,
        nav.resolve(discriminated(h).unwrap()).unwrap().1.doc == h.doc,
{
    let doc = nav.docs@[d];
    lemma_discriminated_path_is_name_and_key(h);
    lemma_find_summary_at(doc.paths@, h.item.id, 0);
    let i = find_summary(doc.paths@, h.item.id, 0).unwrap();
    let key = qualified_key_at(doc.paths@, i);
    assert(is_local(doc.paths@[i]));
    doc.lemma_qualified_key_is_indexed(i);
    assert(walked(nav, doc, key) is Some ==> walked(nav, doc, key).unwrap().item.id == h.item.id);
    lemma_indexed_path_resolves(nav, d, key);
}

/// The path of a parent, below the package name, as the canonical path of
/// one of its children writes it: the plain path where the reverse index
/// knows it, the kind-qualified path where it does not.
pub open spec fn parent_key(doc: RustdocData, parent: Item) -> Seq<char>
    recommends
        find_summary(doc.paths@, parent.id, 0) is Some,
{
    let i = find_summary(doc.paths@, parent.id, 0).unwrap();
    let plain = unqualified_key(tail_of(doc.paths@[i]));
    if doc.indexed_id(plain) is Some {
        plain
    } else {
        qualified_key_at(doc.paths@, i)
    }
}

/// The canonical path, below the package name, of an item without a path
/// summary that is named `name` and stands below `parent`.
pub open spec fn nested_key(doc: RustdocData, parent: Item, item: Item, name: Seq<char>) -> Seq<
    char,
> {
    parent_key(doc, parent) + separator() + qualified_segment(
        discriminator(kind_of(item.inner)),
        name,
    )
}

/// The item of `h` has no path summary, but a name of its own and a parent
/// in the same document, below which a walk finds it first under that name
/// and kind. The parent has a path summary of its own, whose last segment
/// neither is empty nor ends in a colon and whose path holds no `@`.
pub open spec fn is_nested(nav: Navigator, h: Handle) -> bool {
    &&& h.doc.summary_of(h.item.id) is None
    &&& match (h.parent, h.item.name) {
        (Some(p), Some(name)) => {
            &&& p.doc == h.doc
            &&& h.doc.item_at(p.item.id) == Some(p.item)
            &&& has_own_summary(plain_handle(h.doc, p.item))
            &&& has_no_colon(name@)
            &&& match h.doc.summary_of(p.item.id) {
                Some(s) => {
                    let tail = views_of(s.path@).subrange(1, s.path.len() as int);
                    &&& tail.last().len() > 0
                    &&& tail.last().last() != ':'
                    &&& forall|k: int| 0 <= k < join_path(tail).len() ==> join_path(tail)[k] != '@'
                },
                None => false,
            }
            &&& match first_child(
                nav,
                plain_handle(h.doc, p.item),
                name@,
                Some(discriminator(kind_of(h.item.inner))),
                true,
            ) {
                Some(c) => c.item.id == h.item.id && c.doc == h.doc,
                None => false,
            }
        },
        _ => false,
    }
}

/// An item that has neither a path summary nor a parent has no canonical
/// path: only a walk, which records the parent, gives it one.
pub proof fn lemma_no_path_without_summary_or_parent(h: Handle)
    requires
        h.doc.summary_of(h.item.id) is None,
        h.parent is None,
    ensures
        discriminated(h) is None,
{
}

/// The canonical path of an item without a path summary is the name of its
/// document, the path of its parent, and the item's kind and name: directly
/// below the parent's plain path where the reverse index knows that path,
/// and below the parent's own discriminated path where the parent's path
/// collides with another item's.
pub proof fn lemma_nested_path_is_below_parent(nav: Navigator, h: Handle)
    requires
        is_nested(nav, h),
    ensures
        find_summary(h.doc.paths@, h.parent.unwrap().item.id, 0) is Some,
        discriminated(h) == Some(
            h.doc.name@ + separator() + nested_key(
                h.doc,
                h.parent.unwrap().item,
                h.item,
                h.item.name.unwrap()@,
            ),
        ),
        h.doc.indexed_id(
            unqualified_key(
                tail_of(
                    h.doc.paths@[find_summary(
                        h.doc.paths@,
                        h.parent.unwrap().item.id,
                        0,
                    ).unwrap()],
                ),
            ),
        ) is None ==> discriminated(h) == Some(
            discriminated(plain_handle(h.doc, h.parent.unwrap().item)).unwrap() + separator()
                + qualified_segment(
                discriminator(kind_of(h.item.inner)),
                h.item.name.unwrap()@,
            ),
        ),
{
    let doc = h.doc;
    let p = h.parent.unwrap();
    let name = h.item.name.unwrap()@;
    let last = qualified_segment(discriminator(kind_of(h.item.inner)), name);
    lemma_find_summary_at(doc.paths@, p.item.id, 0);
    let i = find_summary(doc.paths@, p.item.id, 0).unwrap();
    let s = doc.paths@[i].summary;
    let tail = views_of(s.path@).subrange(1, s.path.len() as int);
    assert(tail_of(doc.paths@[i]) == tail);
    let plain = unqualified_key(tail);
    lemma_join_path_last(tail);
    lemma_discriminated_path_is_name_and_key(plain_handle(doc, p.item));
    if doc.indexed_id(plain) is Some {
        assert(simple_parent_path(doc, p.item) == Some(doc.name@ + separator() + plain));
        assert(doc.name@ + separator() + plain + separator() + last =~= doc.name@ + separator()
            + (plain + separator() + last));
    } else {
        let key = qualified_key_at(doc.paths@, i);
        assert(simple_parent_path(doc, p.item) is None);
        assert(path_by_summary(doc, p.item) == Some(doc.name@ + separator() + key));
        assert(doc.name@ + separator() + key + separator() + last =~= doc.name@ + separator() + (
            key + separator() + last));
    }
}

/// Round trip for an item without a path summary: its canonical
/// discriminated path resolves to it.
///
/// This holds of an item that is nested below a parent as `is_nested`
/// says, in a loaded document whose name holds no colon, that holds its
/// root and has distinct keys, provided that a walk down the tree along
/// the item's path reaches the item if it reaches anything, and that the
/// reverse index does not know the item's path.
pub proof fn lemma_nested_path_round_trips(nav: Navigator, d: int, h: Handle)
    requires
        nav.wf(),
        0 <= d < nav.docs.len(),
        h.doc == nav.docs@[d],
        has_no_colon(h.doc.name@),
        h.doc.item_at(h.doc.root) is Some,
        h.doc.has_distinct_keys(),
        is_nested(nav, h),
        match walked(
            nav,
            h.doc,
            nested_key(h.doc, h.parent.unwrap().item, h.item, h.item.name.unwrap()@),
        ) {
            Some(r) => r.item.id == h.item.id && r.doc == h.doc,
            None => true,
        },
        h.doc.indexed_id(nested_key(h.doc, h.parent.unwrap().item, h.item, h.item.name.unwrap()@))
            is None,
    ensures
        discriminated(h) is Some,
        nav.resolve(discriminated(h).unwrap()) is Some,
        nav.resolve(discriminated(h).unwrap()).unwrap().0 == d,
        nav.resolve(discriminated(h).unwrap()).unwrap().1.item.id == h.item.id,
        nav.resolve(discriminated(h).unwrap()).unwrap().1.doc == h.doc,
{
    let doc = nav.docs@[d];
    let p = h.parent.unwrap();
    let name = h.item.name.unwrap()@;
    let disc = discriminator(kind_of(h.item.inner));
    let last = qualified_segment(disc, name);
    lemma_nested_path_is_below_parent(nav, h);
    lemma_find_summary_at(doc.paths@, p.item.id, 0);
    let i = find_summary(doc.paths@, p.item.id, 0).unwrap();
    let s = doc.paths@[i].summary;
    let tail = views_of(s.path@).subrange(1, s.path.len() as int);
    assert(tail_of(doc.paths@[i]) == tail);
    assert(is_local(doc.paths@[i]));
    let front = parent_key(doc, p.item);
    let below = front + separator() + last;
    let path = doc.name@ + separator() + below;
    // The parent's key is not empty, does not end in a colon, and is known
    // to the index as the parent's.
    lemma_join_path_last(tail);
    if doc.indexed_id(unqualified_key(tail)) is Some {
        doc.lemma_plain_key_is_indexed(i);
    } else {
        let segments = tail.drop_last().push(
            qualified_segment(discriminator(s.kind), tail.last()),
        );
        assert(segments.last().last() == tail.last().last());
        lemma_join_path_last(segments);
        doc.lemma_qualified_key_is_indexed(i);
    }
    assert(front.len() > 0 && front.last() != ':');
    assert(doc.indexed_id(front) == Some(p.item.id));
    // The last segment holds no colon, and is read as kind and name.
    lemma_discriminator_is_bare(kind_of(h.item.inner));
    assert(has_no_colon(last));
    lemma_qualified_segment_parts(disc, name);
    // The segments of the path.
    lemma_split_trailing_segment(front, last);
    lemma_split_leading_segment(doc.name@, below);
    lemma_split_from_nonempty(front, 0);
    let segments = split_path(path);
    let query = segments.drop_first();
    assert(segments[0] == doc.name@);
    assert(query =~= split_path(front).push(last));
    assert(query =~= split_path(below));
    assert(nav.loaded(doc.name@) == Some(d));
    let names = names_of(query);
    let want = discriminator_part(query.last());
    assert(query.last() == last);
    assert(want == Some(disc));
    assert(names =~= split_path(front).push(name));
    let root = doc.item_at(doc.root).unwrap();
    assert(walked(nav, doc, below) == walk(nav, plain_handle(doc, root), names, want, true));
    if walked(nav, doc, below) is None {
        let n = query.len() as int;
        lemma_join_split(below);
        lemma_join_split(front);
        assert(query.take(n) =~= query);
        assert(query.take(n - 1) =~= split_path(front));
        let rest = names.skip(n - 1);
        assert(rest =~= seq![name]);
        let c = first_child(nav, plain_handle(doc, p.item), name, Some(disc), true).unwrap();
        assert(rest.drop_first().len() == 0);
        assert(walk(nav, c, rest.drop_first(), want, true) == Some(c));
        assert(walk(nav, plain_handle(doc, p.item), rest, want, true) == Some(c));
        assert(resolve_by_index(nav, doc, query, names, want, n - 1) == Some(c));
        assert(resolve_by_index(nav, doc, query, names, want, n) == Some(c));
    }
    assert(resolve_in(nav, doc, segments) is Some);
    assert(resolve_in(nav, doc, segments).unwrap().item.id == h.item.id);
}

} // verus!

//! The registry of loaded package documents, and the resolution of path
//! strings to items.

use vstd::prelude::*;
use vstd::string::*;
use crate::crate_name::{eq_ignoring_dash_underscore, same_ignoring_separators, CrateName};
use crate::doc_ref::{handle_views, opt_str_view, plain_handle, shown_name, DocRef, Handle};
use crate::traversal::{all_of, children_of, first_child, walk};
use crate::item::{opt_view, Id, Item};
use crate::rustdoc_data::RustdocData;
use crate::search::SearchIndexes;
use crate::sources::Source;
use crate::text::{
    discriminator_part, join, join_path, lemma_separator_literal, name_part, separator, split,
    split_discriminator, split_path, views_of,
};

verus! {

/// Another name for a package: `crate` for the package of a workspace with
/// a single member, or a fixed name of a part of the standard library.
#[derive(Debug)]
pub struct Alias {
    pub from: String,
    pub to: String,
}

/// A path that might have been meant, offered when a path is not found.
#[derive(Debug)]
pub struct Suggestion {
    /// The path of the item that is offered.
    pub path: String,
    /// The name of that item: the segment that would replace the one that
    /// was not found.
    pub name: String,
    /// The segment that was not found.
    pub wanted: String,
    /// How like `wanted` the name is; the greater, the more alike. Set by
    /// the caller before ranking.
    pub score: u32,
}

/// What a suggestion holds, as plain values.
pub struct SuggestionView {
    pub path: Seq<char>,
    pub name: Seq<char>,
    pub wanted: Seq<char>,
    pub score: u32,
}

impl View for Suggestion {
    type V = SuggestionView;

    open spec fn view(&self) -> SuggestionView {
        SuggestionView {
            path: self.path@,
            name: self.name@,
            wanted: self.wanted@,
            score: self.score,
        }
    }
}

/// The views of a list of suggestions.
pub open spec fn suggestion_views(list: Seq<Suggestion>) -> Seq<SuggestionView> {
    Seq::new(list.len(), |i: int| list[i]@)
}

/// The registry: the documents loaded so far, each under its name, and the
/// other names by which packages may be asked for.
#[derive(Debug)]
pub struct Navigator {
    pub docs: Vec<RustdocData>,
    pub aliases: Vec<Alias>,
    /// For each package whose search index was asked for, whether building
    /// it succeeded.
    pub search_indexes: SearchIndexes,
}

/// The first alias at or after `from` that stands for `name`.
pub open spec fn find_alias(aliases: Seq<Alias>, name: Seq<char>, from: int) -> Option<int>
    decreases aliases.len() - from,
{
    if from < 0 || from >= aliases.len() {
        None
    } else if same_ignoring_separators(aliases[from].from@, name) {
        Some(from)
    } else {
        find_alias(aliases, name, from + 1)
    }
}

/// The name that the registry uses for the package asked for as `name`:
/// what the first alias for it stands for, or the name itself.
pub open spec fn canonical(aliases: Seq<Alias>, name: Seq<char>) -> Seq<char> {
    match find_alias(aliases, name, 0) {
        Some(i) => aliases[i].to@,
        None => name,
    }
}

/// The first document at or after `from` that is held under `name`.
pub open spec fn find_doc(docs: Seq<RustdocData>, name: Seq<char>, from: int) -> Option<int>
    decreases docs.len() - from,
{
    if from < 0 || from >= docs.len() {
        None
    } else if same_ignoring_separators(docs[from].name@, name) {
        Some(from)
    } else {
        find_doc(docs, name, from + 1)
    }
}

/// The names that a walk follows for the segments below the package name:
/// the segments themselves, the last one without its discriminator.
pub open spec fn names_of(query: Seq<Seq<char>>) -> Seq<Seq<char>>
    recommends
        query.len() >= 1,
{
    query.drop_last().push(name_part(query.last()))
}

/// Resolution through the reverse index. The longest beginning of the
/// query, of at most `k` segments, that the index knows gives an item; the
/// rest of the query is walked from there. With all of the query known, the
/// item is the answer.
pub open spec fn resolve_by_index(
    nav: Navigator,
    doc: RustdocData,
    query: Seq<Seq<char>>,
    names: Seq<Seq<char>>,
    disc: Option<Seq<char>>,
    k: int,
) -> Option<Handle>
    decreases k,
{
    if k <= 0 || k > query.len() {
        None
    } else {
        let found = match doc.indexed_id(join_path(query.take(k))) {
            Some(id) => match doc.item_at(id) {
                Some(item) => walk(nav, plain_handle(doc, item), names.skip(k), disc, true),
                None => None,
            },
            None => None,
        };
        match found {
            Some(h) => Some(h),
            None => resolve_by_index(nav, doc, query, names, disc, k - 1),
        }
    }
}

/// The item that the segments of a path name within `doc`, the first
/// segment being the package. A walk down the tree from the root is tried
/// first, the reverse index after it.
pub open spec fn resolve_in(nav: Navigator, doc: RustdocData, segments: Seq<Seq<char>>) -> Option<
    Handle,
> {
    match doc.item_at(doc.root) {
        None => None,
        Some(root) => if segments.len() <= 1 {
            Some(plain_handle(doc, root))
        } else {
            let query = segments.drop_first();
            let names = names_of(query);
            let disc = discriminator_part(query.last());
            match walk(nav, plain_handle(doc, root), names, disc, true) {
                Some(h) => Some(h),
                None => resolve_by_index(nav, doc, query, names, disc, query.len() as int),
            }
        },
    }
}

/// How far a walk from `at` along `names[depth..]` gets: the last item
/// reached, and the number of names followed when it was reached.
pub open spec fn deepest(
    nav: Navigator,
    at: Handle,
    names: Seq<Seq<char>>,
    disc: Option<Seq<char>>,
    depth: int,
) -> (Handle, int)
    decreases names.len() - depth,
{
    if depth < 0 || depth >= names.len() {
        (at, depth)
    } else {
        let want = if depth + 1 == names.len() {
            disc
        } else {
            None
        };
        match first_child(nav, at, names[depth], want, true) {
            Some(c) => deepest(nav, c, names, disc, depth + 1),
            None => (at, depth),
        }
    }
}

/// The suggestions that the first `n` of the handles `children` give: one
/// for each that has a name, written below `prefix`.
pub open spec fn candidates(
    children: Seq<Handle>,
    prefix: Seq<char>,
    wanted: Seq<char>,
    n: int,
) -> Seq<SuggestionView>
    decreases n,
{
    if n <= 0 || n > children.len() {
        Seq::empty()
    } else {
        let before = candidates(children, prefix, wanted, n - 1);
        let c = children[n - 1];
        match shown_name(c.doc, c.item, c.name) {
            Some(name) => before.push(
                SuggestionView { path: prefix + separator() + name, name, wanted, score: 0 },
            ),
            None => before,
        }
    }
}

/// The suggestions for a path that was not found in `doc`: the named
/// children of the last item that the walk from the root reached, each
/// written below the segments that led there.
pub open spec fn suggested(nav: Navigator, doc: RustdocData, segments: Seq<Seq<char>>) -> Seq<
    SuggestionView,
> {
    match doc.item_at(doc.root) {
        None => Seq::empty(),
        Some(root) => if segments.len() <= 1 {
            Seq::empty()
        } else {
            let query = segments.drop_first();
            let names = names_of(query);
            let disc = discriminator_part(query.last());
            let (at, depth) = deepest(nav, plain_handle(doc, root), names, disc, 0);
            if 0 <= depth < names.len() {
                candidates(
                    children_of(nav, at, true),
                    join_path(segments.take(depth + 1)),
                    names[depth],
                    children_of(nav, at, true).len() as int,
                )
            } else {
                Seq::empty()
            }
        },
    }
}

impl Navigator {
    /// The document held for the package asked for as `name`, by position.
    pub open spec fn loaded(&self, name: Seq<char>) -> Option<int> {
        find_doc(self.docs@, canonical(self.aliases@, name), 0)
    }

    /// The item that a path names: the document of its first segment, and
    /// the item within it.
    pub open spec fn resolve(&self, path: Seq<char>) -> Option<(int, Handle)> {
        let segments = split_path(path);
        match self.loaded(segments[0]) {
            None => None,
            Some(d) => match resolve_in(*self, self.docs@[d], segments) {
                Some(h) => Some((d, h)),
                None => None,
            },
        }
    }

    /// The suggestions for a path that names nothing.
    pub open spec fn suggestions_for(&self, path: Seq<char>) -> Seq<SuggestionView> {
        let segments = split_path(path);
        match self.loaded(segments[0]) {
            None => Seq::empty(),
            Some(d) => suggested(*self, self.docs@[d], segments),
        }
    }

    /// Every document is found under its own name, and has its reverse
    /// index built.
    pub open spec fn wf(&self) -> bool {
        forall|i: int|
            0 <= i < self.docs.len() ==> {
                &&& self.loaded((#[trigger] self.docs@[i]).name@) == Some(i)
                &&& self.docs@[i].is_indexed()
            }
    }

    /// A registry without documents, with the given other names of
    /// packages.
    pub fn new(aliases: Vec<Alias>) -> (r: Navigator)
        ensures
            r.docs@.len() == 0,
            r.aliases == aliases,
            r.search_indexes.slots@.len() == 0,
            r.wf(),
    {
        Navigator { docs: Vec::new(), aliases, search_indexes: SearchIndexes::new() }
    }

    /// The name that the registry uses for the package asked for as `name`.
    pub fn canonicalize(&self, name: &str) -> (r: CrateName)
        ensures
            r@ == canonical(self.aliases@, name@),
    {
        let mut i: usize = 0;
        while i < self.aliases.len()
            invariant
                i <= self.aliases.len(),
                find_alias(self.aliases@, name@, 0) == find_alias(self.aliases@, name@, i as int),
            decreases self.aliases.len() - i,
        {
            if eq_ignoring_dash_underscore(self.aliases[i].from.as_str(), name) {
                return CrateName::new(self.aliases[i].to.as_str());
            }
            i += 1;
        }
        CrateName::new(name)
    }

    /// The position of the document held for the package asked for as
    /// `name`.
    pub fn position(&self, name: &str) -> (r: Option<usize>)
        ensures
            match r {
                Some(d) => d < self.docs.len() && self.loaded(name@) == Some(d as int),
                None => self.loaded(name@) is None,
            },
    {
        let wanted = self.canonicalize(name);
        let mut i: usize = 0;
        while i < self.docs.len()
            invariant
                i <= self.docs.len(),
                wanted@ == canonical(self.aliases@, name@),
                find_doc(self.docs@, wanted@, 0) == find_doc(self.docs@, wanted@, i as int),
            decreases self.docs.len() - i,
        {
            if eq_ignoring_dash_underscore(self.docs[i].name.as_str(), wanted.as_str()) {
                return Some(i);
            }
            i += 1;
        }
        None
    }

    /// The document held for the package asked for as `name`, if it has
    /// been loaded.
    pub fn load_crate(&self, name: &str) -> (r: Option<&RustdocData>)
        ensures
            match r {
                Some(doc) => self.loaded(name@) is Some && 0 <= self.loaded(name@).unwrap()
                    < self.docs.len() && *doc == self.docs@[self.loaded(name@).unwrap()],
                None => self.loaded(name@) is None,
            },
    {
        match self.position(name) {
            Some(d) => Some(&self.docs[d]),
            None => None,
        }
    }

    /// Takes a loaded document into the registry, building its reverse
    /// index. The first document under a name stays: where the registry
    /// already holds one under the document's name, or knows that name as
    /// another name of a different package, nothing changes and the result
    /// is `false`.
    pub fn insert(&mut self, doc: RustdocData) -> (r: bool)
        ensures
            old(self).wf() ==> final(self).wf(),
            final(self).aliases == old(self).aliases,
            final(self).search_indexes == old(self).search_indexes,
            r == (old(self).loaded(doc.name@) is None && same_ignoring_separators(
                canonical(old(self).aliases@, doc.name@),
                doc.name@,
            )),
            !r ==> final(self).docs == old(self).docs,
            r ==> final(self).docs@.len() == old(self).docs@.len() + 1,
            r ==> final(self).docs@.drop_last() == old(self).docs@,
            r ==> final(self).docs@.last().name == doc.name,
            r ==> final(self).loaded(doc.name@) == Some(old(self).docs@.len() as int),
            r ==> final(self).docs@.last().root == doc.root,
            r ==> final(self).docs@.last().index == doc.index,
            r ==> final(self).docs@.last().paths == doc.paths,
    {
        let own = self.canonicalize(doc.name.as_str());
        if !eq_ignoring_dash_underscore(own.as_str(), doc.name.as_str()) {
            return false;
        }
        if self.position(doc.name.as_str()).is_some() {
            return false;
        }
        let mut doc = doc;
        doc.build_path_index();
        let ghost before = self.docs@;
        let ghost name = doc.name@;
        self.docs.push(doc);
        proof {
            let after = self.docs@;
            assert(after.drop_last() =~= before);
            let found = canonical(self.aliases@, name);
            lemma_find_doc_push(before, after.last(), found, 0);
            crate::crate_name::lemma_same_ignoring_separators_is_equivalence(found, name, name);
            assert forall|i: int| old(self).wf() && 0 <= i < after.len() implies {
                &&& self.loaded((#[trigger] after[i]).name@) == Some(i)
                &&& after[i].is_indexed()
            } by {
                let wanted = canonical(self.aliases@, after[i].name@);
                if i < before.len() {
                    assert(after[i] == before[i]);
                    lemma_find_doc_push(before, after.last(), wanted, 0);
                } else {
                    lemma_find_doc_push(before, after.last(), wanted, 0);
                    crate::crate_name::lemma_same_ignoring_separators_is_equivalence(
                        wanted,
                        name,
                        name,
                    );
                    lemma_find_doc_same(before, wanted, name, 0);
                }
            }
        }
        true
    }

    /// Records that `from` is another name of the package `to`. Nothing is
    /// recorded, and the result is `false`, where a held document is named
    /// `from`: a document stays under its own name.
    pub fn add_alias(&mut self, from: &str, to: &str) -> (r: bool)
        ensures
            old(self).wf() ==> final(self).wf(),
            final(self).docs == old(self).docs,
            final(self).search_indexes == old(self).search_indexes,
            r == (find_doc(old(self).docs@, from@, 0) is None),
            !r ==> final(self).aliases == old(self).aliases,
            r ==> final(self).aliases@.len() == old(self).aliases@.len() + 1,
            r ==> final(self).aliases@.drop_last() == old(self).aliases@,
            r ==> final(self).aliases@.last().from@ == from@,
            r ==> final(self).aliases@.last().to@ == to@,
            r && find_alias(old(self).aliases@, from@, 0) is None ==> canonical(
                final(self).aliases@,
                from@,
            ) == to@,
    {
        let mut i: usize = 0;
        while i < self.docs.len()
            invariant
                i <= self.docs.len(),
                *self == *old(self),
                find_doc(self.docs@, from@, 0) == find_doc(self.docs@, from@, i as int),
            decreases self.docs.len() - i,
        {
            if eq_ignoring_dash_underscore(self.docs[i].name.as_str(), from) {
                return false;
            }
            i += 1;
        }
        let ghost before = self.aliases@;
        let alias = Alias { from: String::from_str(from), to: String::from_str(to) };
        self.aliases.push(alias);
        proof {
            let after = self.aliases@;
            assert(after.drop_last() =~= before);
            crate::crate_name::lemma_same_ignoring_separators_is_equivalence(from@, from@, from@);
            lemma_find_alias_push(before, alias, from@, 0);
            assert forall|k: int| old(self).wf() && 0 <= k < self.docs.len() implies {
                &&& self.loaded((#[trigger] self.docs@[k]).name@) == Some(k)
                &&& self.docs@[k].is_indexed()
            } by {
                let name = self.docs@[k].name@;
                lemma_find_alias_push(before, alias, name, 0);
                lemma_find_doc_none(self.docs@, from@, 0, k);
                crate::crate_name::lemma_same_ignoring_separators_is_equivalence(
                    name,
                    from@,
                    from@,
                );
                crate::crate_name::lemma_same_ignoring_separators_is_equivalence(
                    from@,
                    name,
                    name,
                );
                assert(canonical(after, name) == canonical(before, name));
            }
        }
        true
    }

    /// Asks the sources, in their order, for the name under which the
    /// package asked for as `name` is known, and remembers the first answer
    /// as another name of that package. Returns the name that the registry
    /// now uses for it.
    pub fn learn_name<S: Source>(&mut self, sources: &Vec<S>, name: &str) -> (r: CrateName)
        ensures
            old(self).wf() ==> final(self).wf(),
            final(self).docs == old(self).docs,
            final(self).search_indexes == old(self).search_indexes,
            r@ == canonical(final(self).aliases@, name@),
            find_alias(old(self).aliases@, name@, 0) is Some ==> final(self).aliases == old(
                self,
            ).aliases,
    {
        let known = self.alias_position(name);
        if known.is_some() {
            return self.canonicalize(name);
        }
        let mut i: usize = 0;
        while i < sources.len()
            invariant
                i <= sources.len(),
                *self == *old(self),
                find_alias(self.aliases@, name@, 0) is None,
            decreases sources.len() - i,
        {
            if let Some(answer) = sources[i].canonicalize(name) {
                if self.add_alias(name, answer.as_str()) {
                    return answer;
                }
                return self.canonicalize(name);
            }
            i += 1;
        }
        self.canonicalize(name)
    }

    /// The position of the first alias that stands for `name`.
    pub fn alias_position(&self, name: &str) -> (r: Option<usize>)
        ensures
            match r {
                Some(i) => find_alias(self.aliases@, name@, 0) == Some(i as int),
                None => find_alias(self.aliases@, name@, 0) is None,
            },
    {
        let mut i: usize = 0;
        while i < self.aliases.len()
            invariant
                i <= self.aliases.len(),
                find_alias(self.aliases@, name@, 0) == find_alias(self.aliases@, name@, i as int),
            decreases self.aliases.len() - i,
        {
            if eq_ignoring_dash_underscore(self.aliases[i].from.as_str(), name) {
                return Some(i);
            }
            i += 1;
        }
        None
    }

    /// Makes sure that the document of the package asked for as `name` is
    /// held, and returns its position.
    ///
    /// A document that is held already is the answer, and no source is
    /// asked. Otherwise the sources are asked for the name under which the
    /// package is known, and then, in their order, each first to look the
    /// package up and then to load what it found; the first document that
    /// a source loads is taken in under the name that the registry uses
    /// for the package, and is the answer. Where no source has the
    /// package, the answer is `None` and the registry holds the documents
    /// that it held.
    pub fn load_package<S: Source>(&mut self, sources: &Vec<S>, name: &str, version_req: &str) -> (r:
        Option<usize>)
        ensures
            old(self).wf() ==> final(self).wf(),
            final(self).search_indexes == old(self).search_indexes,
            old(self).loaded(name@) is Some ==> r == Some(
                old(self).loaded(name@).unwrap() as usize,
            ) && *final(self) == *old(self),
            final(self).docs == old(self).docs || (final(self).docs@.drop_last() == old(self).docs@
                && r == Some(old(self).docs.len())),
            match r {
                Some(d) => d < final(self).docs.len() && final(self).loaded(name@) == Some(
                    d as int,
                ),
                None => final(self).docs == old(self).docs,
            },
    {
        if let Some(d) = self.position(name) {
            return Some(d);
        }
        let wanted = self.learn_name(sources, name);
        if let Some(d) = self.position(name) {
            return Some(d);
        }
        let ghost aliases = self.aliases@;
        let mut i: usize = 0;
        while i < sources.len()
            invariant
                i <= sources.len(),
                self.docs == old(self).docs,
                self.aliases@ == aliases,
                wanted@ == canonical(aliases, name@),
                self.search_indexes == old(self).search_indexes,
                old(self).wf() ==> self.wf(),
                old(self).loaded(name@) is None,
            decreases sources.len() - i,
        {
            if let Some(info) = sources[i].lookup(wanted.as_str(), version_req) {
                let version: Option<&str> = match &info.version {
                    Some(v) => Some(v.as_str()),
                    None => None,
                };
                if let Some(loaded) = sources[i].load(info.name.as_str(), version) {
                    let mut doc = loaded;
                    doc.name = wanted.to_string();
                    let at = self.docs.len();
                    let ghost held = doc.name@;
                    if self.insert(doc) {
                        proof {
                            lemma_find_doc_same(
                                self.docs@,
                                canonical(aliases, held),
                                held,
                                0,
                            );
                        }
                        return Some(at);
                    }
                }
            }
            i += 1;
        }
        None
    }

    /// The items that a result of a search names: for each id of its path
    /// the item of that id in the document of the package, as a lookup by
    /// id gives it. There is no answer where the package is not held or
    /// its document lacks one of the items.
    pub fn get_item_from_id_path<'a>(&'a self, crate_name: &str, id_path: &Vec<u32>) -> (r: Option<
        Vec<DocRef<'a, Item>>,
    >)
        ensures
            match r {
                Some(handles) => {
                    &&& self.loaded(crate_name@) is Some
                    &&& handles@.len() == id_path@.len()
                    &&& forall|i: int|
                        0 <= i < handles@.len() ==> {
                            &&& self.docs@[self.loaded(crate_name@).unwrap()].item_at(
                                Id(id_path@[i]),
                            ) == Some(*(#[trigger] handles@[i]).item)
                            &&& handles@[i]@ == plain_handle(
                                *handles@[i].crate_docs,
                                *handles@[i].item,
                            )
                            &&& *handles@[i].crate_docs == self.docs@[self.loaded(
                                crate_name@,
                            ).unwrap()]
                            &&& handles@[i].navigator == self
                        }
                },
                None => self.loaded(crate_name@) is None || exists|i: int|
                    0 <= i < id_path@.len() && self.docs@[self.loaded(crate_name@).unwrap()].item_at(
                        Id(#[trigger] id_path@[i]),
                    ) is None,
            },
    {
        let crate_docs = match self.load_crate(crate_name) {
            Some(doc) => doc,
            None => {
                return None;
            },
        };
        let mut handles: Vec<DocRef<'a, Item>> = Vec::new();
        let mut i: usize = 0;
        while i < id_path.len()
            invariant
                i <= id_path.len(),
                self.loaded(crate_name@) is Some,
                *crate_docs == self.docs@[self.loaded(crate_name@).unwrap()],
                handles@.len() == i,
                forall|k: int|
                    0 <= k < i ==> {
                        &&& crate_docs.item_at(Id(id_path@[k])) == Some(
                            *(#[trigger] handles@[k]).item,
                        )
                        &&& handles@[k]@ == plain_handle(*crate_docs, *handles@[k].item)
                        &&& handles@[k].crate_docs == crate_docs
                        &&& handles@[k].navigator == self
                    },
            decreases id_path.len() - i,
        {
            match crate_docs.get(self, &Id(id_path[i])) {
                Some(h) => {
                    handles.push(h);
                },
                None => {
                    return None;
                },
            }
            i += 1;
        }
        Some(handles)
    }

    /// Resolves a path of the form `pkg::seg1::seg2::[kind@]last` to an
    /// item.
    ///
    /// The first segment names the package, by its name or by another name
    /// that the registry knows for it. The rest is followed down the tree
    /// from the package's root; where that fails, the reverse path index is
    /// asked. When nothing is found, the named children of the last item
    /// that the walk reached are added to `suggestions`, each with score 0.
    pub fn resolve_path<'a>(&'a self, path: &str, suggestions: &mut Vec<Suggestion>) -> (r: Option<
        DocRef<'a, Item>,
    >)
        ensures
            match r {
                Some(h) => self.resolve(path@) is Some && self.resolve(path@).unwrap().1 == h@
                    && h.navigator == self,
                None => self.resolve(path@) is None,
            },
            r is Some ==> final(suggestions)@ == old(suggestions)@,
            r is None ==> suggestion_views(final(suggestions)@) == suggestion_views(
                old(suggestions)@,
            ) + self.suggestions_for(path@),
    {
        let segments = split(path);
        let n = segments.len();
        let ghost parts = views_of(segments@);
        assert(parts[0] == segments@[0]@);
        let crate_docs = match self.load_crate(segments[0].as_str()) {
            Some(doc) => doc,
            None => {
                assert(suggestion_views(suggestions@) + Seq::<SuggestionView>::empty()
                    =~= suggestion_views(suggestions@));
                return None;
            },
        };
        let ghost doc = *crate_docs;
        let root = match crate_docs.root_item(self) {
            Some(root) => root,
            None => {
                assert(suggestion_views(suggestions@) + Seq::<SuggestionView>::empty()
                    =~= suggestion_views(suggestions@));
                return None;
            },
        };
        if n == 1 {
            return Some(root);
        }
        let ghost query = parts.drop_first();
        let (disc_text, last_name) = split_discriminator(segments[n - 1].as_str());
        let mut names: Vec<String> = Vec::new();
        let mut i: usize = 1;
        while i < n - 1
            invariant
                n == segments.len(),
                n >= 2,
                1 <= i <= n - 1,
                parts == views_of(segments@),
                views_of(names@) == parts.subrange(1, i as int),
            decreases n - i,
        {
            let ghost before = views_of(names@);
            names.push(segments[i].clone());
            assert(views_of(names@) =~= before.push(segments@[i as int]@));
            assert(parts.subrange(1, i + 1) =~= parts.subrange(1, i as int).push(parts[i as int]));
            i += 1;
        }
        let ghost before = views_of(names@);
        names.push(last_name);
        assert(query.last() == segments@[n - 1]@);
        assert(query.drop_last() =~= parts.subrange(1, n - 1));
        assert(views_of(names@) =~= names_of(query));
        let disc: Option<&str> = match &disc_text {
            Some(d) => Some(d.as_str()),
            None => None,
        };
        let ghost want = discriminator_part(query.last());
        assert(opt_str_view(disc) == want);
        assert(views_of(names@).subrange(0, names.len() as int) =~= views_of(names@));
        if let Some(h) = root.find_by_query(&names, 0, disc) {
            return Some(h);
        }
        let mut k: usize = n - 1;
        while k >= 1
            invariant
                n == segments.len(),
                n >= 2,
                k <= n - 1,
                names.len() == n - 1,
                parts == views_of(segments@),
                query == parts.drop_first(),
                views_of(names@) == names_of(query),
                want == opt_str_view(disc),
                want == discriminator_part(query.last()),
                doc == *crate_docs,
                parts == split_path(path@),
                self.loaded(parts[0]) is Some,
                0 <= self.loaded(parts[0]).unwrap() < self.docs.len(),
                doc == self.docs@[self.loaded(parts[0]).unwrap()],
                doc.item_at(doc.root) == Some(*root.item),
                walk(*self, plain_handle(doc, *root.item), names_of(query), want, true) is None,
                resolve_by_index(*self, doc, query, names_of(query), want, query.len() as int)
                    == resolve_by_index(*self, doc, query, names_of(query), want, k as int),
            decreases k,
        {
            let key = join(&segments, 1, 1 + k);
            assert(parts.subrange(1, 1 + k) =~= query.take(k as int));
            assert(views_of(names@).subrange(k as int, names.len() as int) =~= names_of(query).skip(
                k as int,
            ));
            if let Some(id) = crate_docs.lookup_path(key.as_str()) {
                if let Some(start) = crate_docs.get(self, &id) {
                    if let Some(h) = start.find_by_query(&names, k, disc) {
                        assert(doc.indexed_id(join_path(query.take(k as int))) == Some(id));
                        assert(doc.item_at(id) == Some(*start.item));
                        assert(walk(
                            *self,
                            plain_handle(doc, *start.item),
                            names_of(query).skip(k as int),
                            want,
                            true,
                        ) == Some(h@));
                        assert(resolve_by_index(*self, doc, query, names_of(query), want, k as int)
                            == Some(h@));
                        assert(resolve_in(*self, doc, parts) == Some(h@));
                        return Some(h);
                    }
                }
            }
            k -= 1;
        }
        let (at, depth) = root.descend(&names, disc);
        if depth < names.len() {
            let prefix = join(&segments, 0, depth + 1);
            assert(parts.subrange(0, depth + 1) =~= parts.take(depth + 1));
            at.suggest_children(prefix.as_str(), names[depth].as_str(), suggestions);
        } else {
            assert(suggestion_views(suggestions@) + Seq::<SuggestionView>::empty()
                =~= suggestion_views(suggestions@));
        }
        None
    }
}

impl<'a> DocRef<'a, Item> {
    /// Walks down from this item along `names` as far as the walk gets, and
    /// returns the last item reached with the number of names followed.
    pub fn descend(&self, names: &Vec<String>, disc: Option<&str>) -> (r: (DocRef<'a, Item>, usize))
        ensures
            (r.0@, r.1 as int) == deepest(
                *self.navigator,
                self@,
                views_of(names@),
                opt_str_view(disc),
                0,
            ),
            r.1 <= names.len(),
            r.0.navigator == self.navigator,
    {
        let ghost nav = *self.navigator;
        let ghost want = opt_str_view(disc);
        let ghost all = views_of(names@);
        let n = names.len();
        let mut at: DocRef<'a, Item> = *self;
        let mut i: usize = 0;
        while i < n
            invariant
                i <= n,
                n == names.len(),
                nav == *self.navigator,
                want == opt_str_view(disc),
                all == views_of(names@),
                at.navigator == self.navigator,
                deepest(nav, self@, all, want, 0) == deepest(nav, at@, all, want, i as int),
            decreases n - i,
        {
            let asked = if i + 1 == n {
                disc
            } else {
                None
            };
            assert(all[i as int] == names@[i as int]@);
            match at.find_child_of_kind(names[i].as_str(), asked) {
                Some(c) => {
                    at = c;
                },
                None => {
                    return (at, i);
                },
            }
            i += 1;
        }
        (at, n)
    }

    /// Adds a suggestion for each named child of this item, written below
    /// `prefix`.
    pub fn suggest_children(&self, prefix: &str, wanted: &str, suggestions: &mut Vec<Suggestion>)
        ensures
            suggestion_views(final(suggestions)@) == suggestion_views(old(suggestions)@)
                + candidates(
                children_of(*self.navigator, self@, true),
                prefix@,
                wanted@,
                children_of(*self.navigator, self@, true).len() as int,
            ),
    {
        let ghost start = suggestion_views(suggestions@);
        let children = self.child_items();
        let ghost list = handle_views(children@);
        let n = children.len();
        let mut i: usize = 0;
        assert(start + candidates(list, prefix@, wanted@, 0) =~= start);
        while i < n
            invariant
                i <= n,
                n == children.len(),
                list == handle_views(children@),
                suggestion_views(suggestions@) == start + candidates(
                    list,
                    prefix@,
                    wanted@,
                    i as int,
                ),
            decreases n - i,
        {
            let ghost before = suggestion_views(suggestions@);
            let ghost so_far = candidates(list, prefix@, wanted@, i as int);
            assert(list[i as int] == children@[i as int]@);
            if let Some(name) = children[i].name() {
                let mut path = String::from_str(prefix);
                proof {
                    lemma_separator_literal();
                }
                path.append("::");
                path.append(name);
                let suggestion = Suggestion {
                    path,
                    name: String::from_str(name),
                    wanted: String::from_str(wanted),
                    score: 0,
                };
                suggestions.push(suggestion);
                assert(suggestion_views(suggestions@) =~= before.push(suggestion@));
                assert(start + so_far.push(suggestion@) =~= (start + so_far).push(suggestion@));
            }
            i += 1;
        }
    }
}

/// A document added at the end is found only where no earlier one is.
pub proof fn lemma_find_doc_push(
    docs: Seq<RustdocData>,
    doc: RustdocData,
    name: Seq<char>,
    from: int,
)
    requires
        0 <= from <= docs.len(),
    ensures
        find_doc(docs.push(doc), name, from) == match find_doc(docs, name, from) {
            Some(i) => Some(i),
            None => if same_ignoring_separators(doc.name@, name) {
                Some(docs.len() as int)
            } else {
                None
            },
        },
    decreases docs.len() - from,
{
    let after = docs.push(doc);
    if from < docs.len() {
        assert(after[from] == docs[from]);
        if !same_ignoring_separators(docs[from].name@, name) {
            lemma_find_doc_push(docs, doc, name, from + 1);
        }
    } else {
        assert(after[from] == doc);
        assert(find_doc(after, name, from + 1) is None);
    }
}

/// Names that are the same ignoring separators find the same document.
pub proof fn lemma_find_doc_same(docs: Seq<RustdocData>, a: Seq<char>, b: Seq<char>, from: int)
    requires
        same_ignoring_separators(a, b),
        0 <= from <= docs.len(),
    ensures
        find_doc(docs, a, from) == find_doc(docs, b, from),
    decreases docs.len() - from,
{
    if from < docs.len() {
        crate::crate_name::lemma_same_ignoring_separators_is_equivalence(docs[from].name@, a, b);
        crate::crate_name::lemma_same_ignoring_separators_is_equivalence(docs[from].name@, b, a);
        crate::crate_name::lemma_same_ignoring_separators_is_equivalence(a, b, a);
        lemma_find_doc_same(docs, a, b, from + 1);
    }
}

/// An alias added at the end is found only where no earlier one is.
pub proof fn lemma_find_alias_push(aliases: Seq<Alias>, alias: Alias, name: Seq<char>, from: int)
    requires
        0 <= from <= aliases.len(),
    ensures
        find_alias(aliases.push(alias), name, from) == match find_alias(aliases, name, from) {
            Some(i) => Some(i),
            None => if same_ignoring_separators(alias.from@, name) {
                Some(aliases.len() as int)
            } else {
                None
            },
        },
        match find_alias(aliases, name, from) {
            Some(i) => from <= i < aliases.len(),
            None => true,
        },
    decreases aliases.len() - from,
{
    let after = aliases.push(alias);
    if from < aliases.len() {
        assert(after[from] == aliases[from]);
        if !same_ignoring_separators(aliases[from].from@, name) {
            lemma_find_alias_push(aliases, alias, name, from + 1);
        }
    } else {
        assert(after[from] == alias);
        assert(find_alias(after, name, from + 1) is None);
    }
}

/// Where no document is held under a name, no document has that name.
pub proof fn lemma_find_doc_none(docs: Seq<RustdocData>, name: Seq<char>, from: int, k: int)
    requires
        0 <= from <= k < docs.len(),
        find_doc(docs, name, from) is None,
    ensures
        !same_ignoring_separators(docs[k].name@, name),
    decreases docs.len() - from,
{
    if from < k {
        lemma_find_doc_none(docs, name, from + 1, k);
    }
}

} // verus!

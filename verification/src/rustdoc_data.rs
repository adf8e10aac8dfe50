//! One loaded package document: its item graph, its path summaries, and the
//! reverse index from path strings to items.

use vstd::prelude::*;
use vstd::string::*;
use crate::item::{
    discriminator, kind_discriminator, ExternalCrate, Id, Item, ItemKind, ItemSummary,
};
use crate::sources::CrateProvenance;
use crate::text::{join, join_path, views_of};

verus! {

/// The path summary recorded for one item.
#[derive(Debug)]
pub struct SummaryEntry {
    pub id: Id,
    pub summary: ItemSummary,
}

/// A package that the document refers to, under the number by which path
/// summaries name it.
#[derive(Debug)]
pub struct ExternalEntry {
    pub crate_id: u32,
    pub krate: ExternalCrate,
}

/// One entry of the reverse path index.
#[derive(Debug)]
pub struct PathEntry {
    pub key: String,
    pub id: Id,
}

/// A package document with its metadata.
#[derive(Debug)]
pub struct RustdocData {
    /// The name under which the registry knows the package.
    pub name: String,
    pub provenance: CrateProvenance,
    pub fs_path: String,
    pub version: Option<String>,
    /// The item at the top of the tree.
    pub root: Id,
    /// The item graph. An id is looked up from the front, so of two items
    /// with one id the first is the item of that id.
    pub index: Vec<Item>,
    /// The path summaries, looked up from the front like the items.
    pub paths: Vec<SummaryEntry>,
    pub external_crates: Vec<ExternalEntry>,
    /// Reverse index from path string (without the package name) to item,
    /// for the package's own items. Filled by `build_path_index`.
    pub path_to_id: Vec<PathEntry>,
}

/// The first position at or after `from` that holds an item with this id.
pub open spec fn find_item(items: Seq<Item>, id: Id, from: int) -> Option<int>
    decreases items.len() - from,
{
    if from < 0 || from >= items.len() {
        None
    } else if items[from].id == id {
        Some(from)
    } else {
        find_item(items, id, from + 1)
    }
}

/// The first position at or after `from` that holds the summary of this id.
pub open spec fn find_summary(paths: Seq<SummaryEntry>, id: Id, from: int) -> Option<int>
    decreases paths.len() - from,
{
    if from < 0 || from >= paths.len() {
        None
    } else if paths[from].id == id {
        Some(from)
    } else {
        find_summary(paths, id, from + 1)
    }
}

/// The first position at or after `from` that holds the external package
/// numbered `crate_id`.
pub open spec fn find_external(externals: Seq<ExternalEntry>, crate_id: u32, from: int) -> Option<
    int,
>
    decreases externals.len() - from,
{
    if from < 0 || from >= externals.len() {
        None
    } else if externals[from].crate_id == crate_id {
        Some(from)
    } else {
        find_external(externals, crate_id, from + 1)
    }
}

/// The first position at or after `from` whose key is `key`.
pub open spec fn find_key(entries: Seq<PathEntry>, key: Seq<char>, from: int) -> Option<int>
    decreases entries.len() - from,
{
    if from < 0 || from >= entries.len() {
        None
    } else if entries[from].key@ == key {
        Some(from)
    } else {
        find_key(entries, key, from + 1)
    }
}

/// A summary is indexed when it belongs to the document's own package and
/// its path goes below the package name.
pub open spec fn is_local(entry: SummaryEntry) -> bool {
    entry.summary.crate_id == 0 && entry.summary.path.len() >= 2
}

/// The path of a summary without its leading package name.
pub open spec fn tail_of(entry: SummaryEntry) -> Seq<Seq<char>> {
    views_of(entry.summary.path@).subrange(1, entry.summary.path.len() as int)
}

/// The last segment of a kind-qualified path: `kind@name`.
pub open spec fn qualified_segment(disc: Seq<char>, name: Seq<char>) -> Seq<char> {
    disc + seq!['@'] + name
}

/// The unqualified key of a path below the package name: `a::b::name`.
pub open spec fn unqualified_key(tail: Seq<Seq<char>>) -> Seq<char> {
    join_path(tail)
}

/// The kind-qualified key of a path below the package name:
/// `a::b::kind@name`, the discriminator on the last segment only.
pub open spec fn qualified_key(tail: Seq<Seq<char>>, kind: ItemKind) -> Seq<char>
    recommends
        tail.len() >= 1,
{
    join_path(tail.drop_last().push(qualified_segment(discriminator(kind), tail.last())))
}

/// No other indexed summary has the unqualified key of summary `i`.
pub open spec fn sole_at_path(paths: Seq<SummaryEntry>, i: int) -> bool {
    forall|j: int|
        0 <= j < paths.len() && j != i && is_local(#[trigger] paths[j]) ==> unqualified_key(
            tail_of(paths[j]),
        ) != unqualified_key(tail_of(paths[i]))
}

/// The kind-qualified entries of the first `n` summaries: one for each
/// indexed summary, in order.
pub open spec fn qualified_entries(paths: Seq<SummaryEntry>, n: int) -> Seq<(Seq<char>, Id)>
    decreases n,
{
    if n <= 0 || n > paths.len() {
        Seq::empty()
    } else if is_local(paths[n - 1]) {
        qualified_entries(paths, n - 1).push(
            (qualified_key(tail_of(paths[n - 1]), paths[n - 1].summary.kind), paths[n - 1].id),
        )
    } else {
        qualified_entries(paths, n - 1)
    }
}

/// The unqualified entries of the first `n` summaries: one for each indexed
/// summary whose path no other indexed summary shares, in order.
pub open spec fn unqualified_entries(paths: Seq<SummaryEntry>, n: int) -> Seq<(Seq<char>, Id)>
    decreases n,
{
    if n <= 0 || n > paths.len() {
        Seq::empty()
    } else if is_local(paths[n - 1]) && sole_at_path(paths, n - 1) {
        unqualified_entries(paths, n - 1).push(
            (unqualified_key(tail_of(paths[n - 1])), paths[n - 1].id),
        )
    } else {
        unqualified_entries(paths, n - 1)
    }
}

/// The reverse path index of a list of summaries: every kind-qualified
/// entry, then every unambiguous unqualified entry.
pub open spec fn index_entries(paths: Seq<SummaryEntry>) -> Seq<(Seq<char>, Id)> {
    qualified_entries(paths, paths.len() as int) + unqualified_entries(paths, paths.len() as int)
}

/// The entries of a reverse index as pairs of key and id.
pub open spec fn entries_view(entries: Seq<PathEntry>) -> Seq<(Seq<char>, Id)> {
    Seq::new(entries.len(), |i: int| (entries[i].key@, entries[i].id))
}

impl RustdocData {
    /// The item with this id, if the document has one.
    pub open spec fn item_at(&self, id: Id) -> Option<Item> {
        match find_item(self.index@, id, 0) {
            Some(i) => Some(self.index@[i]),
            None => None,
        }
    }

    /// The path summary of this id, if the document has one.
    pub open spec fn summary_of(&self, id: Id) -> Option<ItemSummary> {
        match find_summary(self.paths@, id, 0) {
            Some(i) => Some(self.paths@[i].summary),
            None => None,
        }
    }

    /// The external package numbered `crate_id`, if the document names one.
    pub open spec fn external_of(&self, crate_id: u32) -> Option<ExternalCrate> {
        match find_external(self.external_crates@, crate_id, 0) {
            Some(i) => Some(self.external_crates@[i].krate),
            None => None,
        }
    }

    /// The id that the reverse index gives for `key`.
    pub open spec fn indexed_id(&self, key: Seq<char>) -> Option<Id> {
        match find_key(self.path_to_id@, key, 0) {
            Some(i) => Some(self.path_to_id@[i].id),
            None => None,
        }
    }

    /// The reverse index is the index of the document's summaries.
    pub open spec fn is_indexed(&self) -> bool {
        entries_view(self.path_to_id@) == index_entries(self.paths@)
    }

    /// A document made of its parts, with its reverse path index built.
    pub fn new(
        name: String,
        provenance: CrateProvenance,
        fs_path: String,
        version: Option<String>,
        root: Id,
        index: Vec<Item>,
        paths: Vec<SummaryEntry>,
        external_crates: Vec<ExternalEntry>,
    ) -> (r: RustdocData)
        ensures
            r.name == name,
            r.provenance == provenance,
            r.fs_path == fs_path,
            r.version == version,
            r.root == root,
            r.index == index,
            r.paths == paths,
            r.external_crates == external_crates,
            r.is_indexed(),
    {
        let mut r = RustdocData {
            name,
            provenance,
            fs_path,
            version,
            root,
            index,
            paths,
            external_crates,
            path_to_id: Vec::new(),
        };
        r.build_path_index();
        r
    }

    /// The position of the item with this id.
    pub fn position(&self, id: Id) -> (r: Option<usize>)
        ensures
            match r {
                Some(i) => i < self.index.len() && self.index@[i as int].id == id && find_item(
                    self.index@,
                    id,
                    0,
                ) == Some(i as int),
                None => find_item(self.index@, id, 0) is None,
            },
    {
        let mut i: usize = 0;
        while i < self.index.len()
            invariant
                i <= self.index.len(),
                find_item(self.index@, id, 0) == find_item(self.index@, id, i as int),
            decreases self.index.len() - i,
        {
            if self.index[i].id == id {
                return Some(i);
            }
            i += 1;
        }
        None
    }

    /// The item with this id.
    pub fn item(&self, id: Id) -> (r: Option<&Item>)
        ensures
            match r {
                Some(item) => self.item_at(id) == Some(*item),
                None => self.item_at(id) is None,
            },
    {
        match self.position(id) {
            Some(i) => Some(&self.index[i]),
            None => None,
        }
    }

    /// The path summary of this id.
    pub fn summary(&self, id: Id) -> (r: Option<&ItemSummary>)
        ensures
            match r {
                Some(summary) => self.summary_of(id) == Some(*summary),
                None => self.summary_of(id) is None,
            },
    {
        let mut i: usize = 0;
        while i < self.paths.len()
            invariant
                i <= self.paths.len(),
                find_summary(self.paths@, id, 0) == find_summary(self.paths@, id, i as int),
            decreases self.paths.len() - i,
        {
            if self.paths[i].id == id {
                return Some(&self.paths[i].summary);
            }
            i += 1;
        }
        None
    }

    /// The external package numbered `crate_id`.
    pub fn external_crate(&self, crate_id: u32) -> (r: Option<&ExternalCrate>)
        ensures
            match r {
                Some(krate) => self.external_of(crate_id) == Some(*krate),
                None => self.external_of(crate_id) is None,
            },
    {
        let mut i: usize = 0;
        while i < self.external_crates.len()
            invariant
                i <= self.external_crates.len(),
                find_external(self.external_crates@, crate_id, 0) == find_external(
                    self.external_crates@,
                    crate_id,
                    i as int,
                ),
            decreases self.external_crates.len() - i,
        {
            if self.external_crates[i].crate_id == crate_id {
                return Some(&self.external_crates[i].krate);
            }
            i += 1;
        }
        None
    }

    /// Looks `key` up in the reverse path index.
    pub fn lookup_path(&self, key: &str) -> (r: Option<Id>)
        ensures
            r == self.indexed_id(key@),
    {
        let mut i: usize = 0;
        while i < self.path_to_id.len()
            invariant
                i <= self.path_to_id.len(),
                find_key(self.path_to_id@, key@, 0) == find_key(self.path_to_id@, key@, i as int),
            decreases self.path_to_id.len() - i,
        {
            if str_eq(self.path_to_id[i].key.as_str(), key) {
                return Some(self.path_to_id[i].id);
            }
            i += 1;
        }
        None
    }

    /// Builds the reverse path index from the path summaries.
    ///
    /// Every summary of the package's own items whose path goes below the
    /// package name gets a kind-qualified entry, `a::b::kind@name`. It gets
    /// an unqualified entry, `a::b::name`, as well when no other such
    /// summary has the same path.
    pub fn build_path_index(&mut self)
        ensures
            final(self).is_indexed(),
            final(self).name == old(self).name,
            final(self).provenance == old(self).provenance,
            final(self).fs_path == old(self).fs_path,
            final(self).version == old(self).version,
            final(self).root == old(self).root,
            final(self).index == old(self).index,
            final(self).paths == old(self).paths,
            final(self).external_crates == old(self).external_crates,
    {
        let n = self.paths.len();
        // The unqualified key of every indexed summary.
        let mut plain: Vec<String> = Vec::new();
        let mut i: usize = 0;
        while i < n
            invariant
                n == self.paths.len(),
                i <= n,
                plain.len() == i,
                forall|j: int|
                    0 <= j < i && is_local(#[trigger] self.paths@[j]) ==> plain@[j]@
                        == unqualified_key(tail_of(self.paths@[j])),
            decreases n - i,
        {
            let summary = &self.paths[i].summary;
            if summary.crate_id == 0 && summary.path.len() >= 2 {
                let key = join(&summary.path, 1, summary.path.len());
                plain.push(key);
            } else {
                plain.push(String::new());
            }
            i += 1;
        }
        let mut map: Vec<PathEntry> = Vec::new();
        i = 0;
        while i < n
            invariant
                n == self.paths.len(),
                i <= n,
                entries_view(map@) == qualified_entries(self.paths@, i as int),
            decreases n - i,
        {
            let entry = &self.paths[i];
            if entry.summary.crate_id == 0 && entry.summary.path.len() >= 2 {
                let key = qualified(&entry.summary.path, entry.summary.kind);
                let ghost before = entries_view(map@);
                map.push(PathEntry { key, id: entry.id });
                assert(entries_view(map@) =~= before.push(
                    (qualified_key(tail_of(*entry), entry.summary.kind), entry.id),
                ));
            }
            i += 1;
        }
        let ghost first = entries_view(map@);
        i = 0;
        while i < n
            invariant
                n == self.paths.len(),
                i <= n,
                plain.len() == n,
                forall|j: int|
                    0 <= j < n && is_local(#[trigger] self.paths@[j]) ==> plain@[j]@
                        == unqualified_key(tail_of(self.paths@[j])),
                entries_view(map@) == first + unqualified_entries(self.paths@, i as int),
            decreases n - i,
        {
            let entry = &self.paths[i];
            if entry.summary.crate_id == 0 && entry.summary.path.len() >= 2 {
                let mut sole = true;
                let mut j: usize = 0;
                while j < n
                    invariant
                        n == self.paths.len(),
                        i < n,
                        j <= n,
                        plain.len() == n,
                        is_local(self.paths@[i as int]),
                        forall|k: int|
                            0 <= k < n && is_local(#[trigger] self.paths@[k]) ==> plain@[k]@
                                == unqualified_key(tail_of(self.paths@[k])),
                        sole == forall|k: int|
                            0 <= k < j && k != i && is_local(#[trigger] self.paths@[k])
                                ==> unqualified_key(tail_of(self.paths@[k])) != unqualified_key(
                                tail_of(self.paths@[i as int]),
                            ),
                    decreases n - j,
                {
                    let other = &self.paths[j].summary;
                    if j != i && other.crate_id == 0 && other.path.len() >= 2 && plain[j]
                        == plain[i] {
                        sole = false;
                    }
                    j += 1;
                }
                assert(sole == sole_at_path(self.paths@, i as int));
                if sole {
                    let ghost before = entries_view(map@);
                    map.push(PathEntry { key: plain[i].clone(), id: entry.id });
                    assert(entries_view(map@) =~= before.push(
                        (unqualified_key(tail_of(*entry)), entry.id),
                    ));
                }
            }
            i += 1;
        }
        self.path_to_id = map;
    }
}

/// Tells whether two strings hold the same characters.
pub fn str_eq(a: &str, b: &str) -> (r: bool)
    ensures
        r == (a@ == b@),
{
    let x = String::from_str(a);
    let y = String::from_str(b);
    x == y
}

/// Writes the kind-qualified key of a summary path: the segments after the
/// package name, with the discriminator of `kind` on the last one.
fn qualified(path: &Vec<String>, kind: ItemKind) -> (key: String)
    requires
        path.len() >= 2,
    ensures
        key@ == qualified_key(views_of(path@).subrange(1, path.len() as int), kind),
{
    let n = path.len();
    let mut key = join(path, 1, n - 1);
    if n > 2 {
        proof {
            crate::text::lemma_separator_literal();
        }
        key.append("::");
    }
    key.append(kind_discriminator(kind));
    proof {
        reveal_strlit("@");
        assert("@"@ =~= seq!['@']);
    }
    key.append("@");
    key.append(path[n - 1].as_str());
    proof {
        let tail = views_of(path@).subrange(1, n as int);
        let last = qualified_segment(discriminator(kind), tail.last());
        let segments = tail.drop_last().push(last);
        assert(segments.drop_last() =~= tail.drop_last());
        assert(tail.drop_last() =~= views_of(path@).subrange(1, n - 1));
        assert(segments.last() == last);
        if n == 2 {
            assert(join_path(tail.drop_last()) =~= Seq::<char>::empty());
            assert(key@ =~= last);
            assert(segments.len() == 1);
            assert(segments[0] == last);
        } else {
            assert(key@ =~= join_path(segments.drop_last()) + crate::text::separator() + last);
        }
    }
    key
}

/// The key under which summary `i` is indexed with its kind.
pub open spec fn qualified_key_at(paths: Seq<SummaryEntry>, i: int) -> Seq<char> {
    qualified_key(tail_of(paths[i]), paths[i].summary.kind)
}

/// Every kind-qualified entry comes from an indexed summary.
pub proof fn lemma_qualified_entries_origin(paths: Seq<SummaryEntry>, n: int, p: int)
    requires
        0 <= n <= paths.len(),
        0 <= p < qualified_entries(paths, n).len(),
    ensures
        exists|j: int|
            0 <= j < n && is_local(#[trigger] paths[j]) && qualified_entries(paths, n)[p] == (
                qualified_key_at(paths, j),
                paths[j].id,
            ),
    decreases n,
{
    if n > 0 {
        let before = qualified_entries(paths, n - 1);
        if p < before.len() {
            lemma_qualified_entries_origin(paths, n - 1, p);
            let j = choose|j: int|
                0 <= j < n - 1 && is_local(#[trigger] paths[j]) && before[p] == (
                    qualified_key_at(paths, j),
                    paths[j].id,
                );
            assert(qualified_entries(paths, n)[p] == before[p]);
            assert(0 <= j < n && is_local(paths[j]));
        } else {
            assert(is_local(paths[n - 1]));
        }
    }
}

/// Every indexed summary has its kind-qualified entry.
pub proof fn lemma_qualified_entries_hold(paths: Seq<SummaryEntry>, n: int, i: int)
    requires
        0 <= i < n <= paths.len(),
        is_local(paths[i]),
    ensures
        exists|p: int|
            0 <= p < qualified_entries(paths, n).len() && #[trigger] qualified_entries(paths, n)[p]
                == (qualified_key_at(paths, i), paths[i].id),
    decreases n,
{
    let all = qualified_entries(paths, n);
    if i == n - 1 {
        let p = all.len() - 1;
        assert(all[p] == (qualified_key_at(paths, i), paths[i].id));
    } else {
        lemma_qualified_entries_hold(paths, n - 1, i);
        let before = qualified_entries(paths, n - 1);
        let p = choose|p: int|
            0 <= p < before.len() && #[trigger] before[p] == (
                qualified_key_at(paths, i),
                paths[i].id,
            );
        assert(all[p] == before[p]);
    }
}

/// A search for a key finds the first entry that has it.
pub proof fn lemma_find_key_first(entries: Seq<PathEntry>, key: Seq<char>, from: int, p: int)
    requires
        0 <= from <= p < entries.len(),
        entries[p].key@ == key,
    ensures
        find_key(entries, key, from) is Some,
        from <= find_key(entries, key, from).unwrap() <= p,
        entries[find_key(entries, key, from).unwrap()].key@ == key,
    decreases entries.len() - from,
{
    if entries[from].key@ != key {
        lemma_find_key_first(entries, key, from + 1, p);
    }
}

impl RustdocData {
    /// No two indexed summaries of different items have the same
    /// kind-qualified key.
    pub open spec fn has_distinct_keys(&self) -> bool {
        forall|i: int, j: int|
            0 <= i < self.paths.len() && 0 <= j < self.paths.len() && is_local(
                #[trigger] self.paths@[i],
            ) && is_local(#[trigger] self.paths@[j]) && qualified_key_at(self.paths@, i)
                == qualified_key_at(self.paths@, j) ==> self.paths@[i].id == self.paths@[j].id
    }

    /// In a document whose kind-qualified keys are distinct, the reverse
    /// index gives for the key of an indexed summary the item of that
    /// summary.
    pub proof fn lemma_qualified_key_is_indexed(&self, i: int)
        requires
            self.is_indexed(),
            self.has_distinct_keys(),
            0 <= i < self.paths.len(),
            is_local(self.paths@[i]),
        ensures
            self.indexed_id(qualified_key_at(self.paths@, i)) == Some(self.paths@[i].id),
    {
        let paths = self.paths@;
        let n = paths.len() as int;
        let key = qualified_key_at(paths, i);
        let first = qualified_entries(paths, n);
        let entries = self.path_to_id@;
        assert(entries_view(entries).len() == entries.len());
        assert(index_entries(paths).len() == first.len() + unqualified_entries(paths, n).len());
        lemma_qualified_entries_hold(paths, n, i);
        let p = choose|p: int|
            0 <= p < first.len() && #[trigger] first[p] == (key, paths[i].id);
        assert(entries_view(entries)[p] == first[p]);
        assert(entries[p].key@ == key);
        lemma_find_key_first(entries, key, 0, p);
        let q = find_key(entries, key, 0).unwrap();
        assert(entries_view(entries)[q] == first[q]);
        lemma_qualified_entries_origin(paths, n, q);
        let j = choose|j: int|
            0 <= j < n && is_local(#[trigger] paths[j]) && first[q] == (
                qualified_key_at(paths, j),
                paths[j].id,
            );
        assert(entries[q].id == paths[j].id);
    }
}

/// The position that a search for an item finds holds that id.
pub proof fn lemma_find_item_at(items: Seq<Item>, id: Id, from: int)
    requires
        0 <= from <= items.len(),
    ensures
        match find_item(items, id, from) {
            Some(i) => from <= i < items.len() && items[i].id == id,
            None => true,
        },
    decreases items.len() - from,
{
    if from < items.len() && items[from].id != id {
        lemma_find_item_at(items, id, from + 1);
    }
}

/// The position that a search for a summary finds holds that id.
pub proof fn lemma_find_summary_at(paths: Seq<SummaryEntry>, id: Id, from: int)
    requires
        0 <= from <= paths.len(),
    ensures
        match find_summary(paths, id, from) {
            Some(i) => from <= i < paths.len() && paths[i].id == id,
            None => true,
        },
    decreases paths.len() - from,
{
    if from < paths.len() && paths[from].id != id {
        lemma_find_summary_at(paths, id, from + 1);
    }
}

/// Every unqualified entry comes from an indexed summary whose path no
/// other indexed summary shares.
pub proof fn lemma_unqualified_entries_origin(paths: Seq<SummaryEntry>, n: int, p: int)
    requires
        0 <= n <= paths.len(),
        0 <= p < unqualified_entries(paths, n).len(),
    ensures
        exists|j: int|
            0 <= j < n && is_local(#[trigger] paths[j]) && sole_at_path(paths, j)
                && unqualified_entries(paths, n)[p] == (
                unqualified_key(tail_of(paths[j])),
                paths[j].id,
            ),
    decreases n,
{
    if n > 0 {
        let before = unqualified_entries(paths, n - 1);
        if p < before.len() {
            lemma_unqualified_entries_origin(paths, n - 1, p);
            let j = choose|j: int|
                0 <= j < n - 1 && is_local(#[trigger] paths[j]) && sole_at_path(paths, j)
                    && before[p] == (unqualified_key(tail_of(paths[j])), paths[j].id);
            assert(unqualified_entries(paths, n)[p] == before[p]);
            assert(0 <= j < n && is_local(paths[j]));
        } else {
            assert(is_local(paths[n - 1]));
        }
    }
}

/// A search for a key finds an entry that has it, or none where no entry
/// has it.
pub proof fn lemma_find_key_at(entries: Seq<PathEntry>, key: Seq<char>, from: int)
    requires
        0 <= from <= entries.len(),
    ensures
        match find_key(entries, key, from) {
            Some(p) => from <= p < entries.len() && entries[p].key@ == key,
            None => true,
        },
    decreases entries.len() - from,
{
    if from < entries.len() && entries[from].key@ != key {
        lemma_find_key_at(entries, key, from + 1);
    }
}

/// A kind-qualified key holds an `@`.
pub proof fn lemma_qualified_key_has_at_sign(tail: Seq<Seq<char>>, kind: ItemKind)
    requires
        tail.len() >= 1,
    ensures
        exists|i: int|
            0 <= i < qualified_key(tail, kind).len() && #[trigger] qualified_key(tail, kind)[i]
                == '@',
{
    let disc = discriminator(kind);
    let last = qualified_segment(disc, tail.last());
    let segments = tail.drop_last().push(last);
    let key = join_path(segments);
    assert(segments.last() == last);
    assert(last[disc.len() as int] == '@');
    if segments.len() == 1 {
        assert(key == last);
        assert(qualified_key(tail, kind)[disc.len() as int] == '@');
    } else {
        let front = join_path(segments.drop_last()) + crate::text::separator();
        assert(key == front + last);
        assert(qualified_key(tail, kind)[front.len() as int + disc.len()] == '@');
    }
}

impl RustdocData {
    /// Where the reverse index knows the plain path of an indexed summary,
    /// and that path holds no `@`, the index gives the item of that
    /// summary for it.
    pub proof fn lemma_plain_key_is_indexed(&self, i: int)
        requires
            self.is_indexed(),
            0 <= i < self.paths.len(),
            is_local(self.paths@[i]),
            self.indexed_id(unqualified_key(tail_of(self.paths@[i]))) is Some,
            forall|k: int|
                0 <= k < unqualified_key(tail_of(self.paths@[i])).len() ==> unqualified_key(
                    tail_of(self.paths@[i]),
                )[k] != '@',
        ensures
            self.indexed_id(unqualified_key(tail_of(self.paths@[i]))) == Some(self.paths@[i].id),
    {
        let paths = self.paths@;
        let n = paths.len() as int;
        let key = unqualified_key(tail_of(paths[i]));
        let first = qualified_entries(paths, n);
        let second = unqualified_entries(paths, n);
        let entries = self.path_to_id@;
        assert(entries_view(entries).len() == entries.len());
        assert(index_entries(paths).len() == first.len() + second.len());
        lemma_find_key_at(entries, key, 0);
        let q = find_key(entries, key, 0).unwrap();
        assert(entries_view(entries)[q] == (entries[q].key@, entries[q].id));
        if q < first.len() {
            assert(entries_view(entries)[q] == first[q]);
            lemma_qualified_entries_origin(paths, n, q);
            let j = choose|j: int|
                0 <= j < n && is_local(#[trigger] paths[j]) && first[q] == (
                    qualified_key_at(paths, j),
                    paths[j].id,
                );
            lemma_qualified_key_has_at_sign(tail_of(paths[j]), paths[j].summary.kind);
            assert(false);
        } else {
            assert(entries_view(entries)[q] == second[q - first.len()]);
            lemma_unqualified_entries_origin(paths, n, q - first.len());
            let j = choose|j: int|
                0 <= j < n && is_local(#[trigger] paths[j]) && sole_at_path(paths, j) && second[q
                    - first.len()] == (unqualified_key(tail_of(paths[j])), paths[j].id);
            if j != i {
                assert(is_local(paths[i]));
                assert(false);
            }
        }
    }
}

} // verus!

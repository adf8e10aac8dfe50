//! The search index of one package: for each term, the items in whose name
//! or documentation it occurs, and how often.

use vstd::prelude::*;
use vstd::string::*;
use crate::doc_ref::{handle_views, opt_str_view, plain_handle, shown_name, DocRef};
use crate::item::{Id, Item};
use crate::navigator::Navigator;
use crate::rustdoc_data::{find_item, lemma_find_item_at, str_eq, RustdocData};
use crate::text::{chars_of, views_of};
use crate::traversal::{all_of, children_of};

verus! {

/// An upper-case letter of the basic alphabet.
pub open spec fn is_upper(c: char) -> bool {
    'A' <= c && c <= 'Z'
}

/// A lower-case letter of the basic alphabet, or a digit.
pub open spec fn is_lower_or_digit(c: char) -> bool {
    ('a' <= c && c <= 'z') || ('0' <= c && c <= '9')
}

/// A character that terms are made of. Every other character parts terms.
pub open spec fn is_word_char(c: char) -> bool {
    is_upper(c) || is_lower_or_digit(c)
}

/// The lower-case form of a letter of the basic alphabet; any other
/// character is its own.
pub open spec fn lowered(c: char) -> char {
    if c == 'A' {
        'a'
    } else if c == 'B' {
        'b'
    } else if c == 'C' {
        'c'
    } else if c == 'D' {
        'd'
    } else if c == 'E' {
        'e'
    } else if c == 'F' {
        'f'
    } else if c == 'G' {
        'g'
    } else if c == 'H' {
        'h'
    } else if c == 'I' {
        'i'
    } else if c == 'J' {
        'j'
    } else if c == 'K' {
        'k'
    } else if c == 'L' {
        'l'
    } else if c == 'M' {
        'm'
    } else if c == 'N' {
        'n'
    } else if c == 'O' {
        'o'
    } else if c == 'P' {
        'p'
    } else if c == 'Q' {
        'q'
    } else if c == 'R' {
        'r'
    } else if c == 'S' {
        's'
    } else if c == 'T' {
        't'
    } else if c == 'U' {
        'u'
    } else if c == 'V' {
        'v'
    } else if c == 'W' {
        'w'
    } else if c == 'X' {
        'x'
    } else if c == 'Y' {
        'y'
    } else if c == 'Z' {
        'z'
    } else {
        c
    }
}

/// `current` as a list of terms: itself where it is one, else nothing.
pub open spec fn closed(current: Seq<char>) -> Seq<Seq<char>> {
    if current.len() > 0 {
        seq![current]
    } else {
        Seq::empty()
    }
}

/// The terms of `text` from position `from` on, where `current` is the
/// beginning of the term that is being read and `after_lower` says that the
/// character before was a lower-case letter or a digit.
///
/// A term is a run of letters and digits, in lower case. A run is parted
/// before an upper-case letter that follows a lower-case letter or a
/// digit, so `TestStruct` gives `test` and `struct`.
pub open spec fn terms_from(text: Seq<char>, from: int, current: Seq<char>, after_lower: bool) -> Seq<
    Seq<char>,
>
    decreases text.len() - from,
{
    if from < 0 || from >= text.len() {
        closed(current)
    } else if !is_word_char(text[from]) {
        closed(current) + terms_from(text, from + 1, Seq::empty(), false)
    } else if is_upper(text[from]) && after_lower {
        closed(current) + terms_from(text, from + 1, seq![lowered(text[from])], false)
    } else {
        terms_from(
            text,
            from + 1,
            current.push(lowered(text[from])),
            is_lower_or_digit(text[from]),
        )
    }
}

/// The terms of a text.
pub open spec fn terms_of(text: Seq<char>) -> Seq<Seq<char>> {
    terms_from(text, 0, Seq::empty(), false)
}

/// How often `term` occurs among the first `n` of `terms`.
pub open spec fn occurrences(terms: Seq<Seq<char>>, term: Seq<char>, n: int) -> nat
    decreases n,
{
    if n <= 0 || n > terms.len() {
        0
    } else if terms[n - 1] == term {
        occurrences(terms, term, n - 1) + 1
    } else {
        occurrences(terms, term, n - 1)
    }
}

/// A term does not occur more often than there are terms.
pub proof fn lemma_occurrences_bound(terms: Seq<Seq<char>>, term: Seq<char>, n: int)
    requires
        0 <= n <= terms.len(),
    ensures
        occurrences(terms, term, n) <= n,
    decreases n,
{
    if n > 0 {
        lemma_occurrences_bound(terms, term, n - 1);
    }
}

/// The lower-case form of a character.
fn lower(c: char) -> (r: char)
    ensures
        r == lowered(c),
{
    match c {
        'A' => 'a',
        'B' => 'b',
        'C' => 'c',
        'D' => 'd',
        'E' => 'e',
        'F' => 'f',
        'G' => 'g',
        'H' => 'h',
        'I' => 'i',
        'J' => 'j',
        'K' => 'k',
        'L' => 'l',
        'M' => 'm',
        'N' => 'n',
        'O' => 'o',
        'P' => 'p',
        'Q' => 'q',
        'R' => 'r',
        'S' => 's',
        'T' => 't',
        'U' => 'u',
        'V' => 'v',
        'W' => 'w',
        'X' => 'x',
        'Y' => 'y',
        'Z' => 'z',
        _ => c,
    }
}

/// Splits a text into its terms.
pub fn tokenize(text: &str) -> (terms: Vec<String>)
    ensures
        views_of(terms@) == terms_of(text@),
{
    let chars = chars_of(text);
    let n = chars.len();
    let mut terms: Vec<String> = Vec::new();
    let mut current = String::new();
    let mut after_lower = false;
    let mut i: usize = 0;
    assert(views_of(terms@) + terms_from(text@, 0, Seq::empty(), false) =~= terms_of(text@));
    while i < n
        invariant
            n == chars.len(),
            chars@ == text@,
            i <= n,
            terms_of(text@) == views_of(terms@) + terms_from(
                text@,
                i as int,
                current@,
                after_lower,
            ),
        decreases n - i,
    {
        let c = chars[i];
        let ghost done = views_of(terms@);
        let ghost cur = current@;
        let upper = 'A' <= c && c <= 'Z';
        let lower_or_digit = ('a' <= c && c <= 'z') || ('0' <= c && c <= '9');
        if !(upper || lower_or_digit) || (upper && after_lower) {
            if !current.as_str().is_empty() {
                terms.push(current);
                current = String::new();
                assert(views_of(terms@) =~= done + closed(cur));
            } else {
                assert(done + closed(cur) =~= done);
            }
            if upper {
                current.push(lower(c));
                assert(current@ =~= seq![lowered(c)]);
            } else {
                assert(current@ =~= Seq::<char>::empty());
            }
            after_lower = false;
            assert(done + (closed(cur) + terms_from(text@, i + 1, current@, false)) =~= views_of(
                terms@,
            ) + terms_from(text@, i + 1, current@, false));
        } else {
            current.push(lower(c));
            after_lower = lower_or_digit;
        }
        i += 1;
    }
    let ghost done = views_of(terms@);
    let ghost cur = current@;
    if !current.as_str().is_empty() {
        terms.push(current);
        assert(views_of(terms@) =~= done + closed(cur));
    } else {
        assert(done + closed(cur) =~= done);
    }
    terms
}

/// One entry of the list of a term: an item in which the term occurs, by
/// its number in the index, and how often the term occurs in the item's
/// name and in its documentation.
#[derive(Debug, Clone, Copy, PartialEq, Eq, Structural)]
pub struct Posting {
    pub doc: u32,
    pub in_name: u64,
    pub in_docs: u64,
}

/// A term with the items in which it occurs.
#[derive(Debug)]
pub struct TermEntry {
    pub term: String,
    pub postings: Vec<Posting>,
}

/// An item of the index: the path of ids that leads to it, and the number
/// of terms in its name and documentation.
#[derive(Debug)]
pub struct IndexedItem {
    pub id_path: Vec<u32>,
    pub length: u128,
}

/// The search index of one package.
#[derive(Debug)]
pub struct SearchIndex {
    /// The items, each under its number.
    pub items: Vec<IndexedItem>,
    /// The terms, each with its list.
    pub terms: Vec<TermEntry>,
}

/// The first position at or after `from` of the entry of `term`.
pub open spec fn find_term(terms: Seq<TermEntry>, term: Seq<char>, from: int) -> Option<int>
    decreases terms.len() - from,
{
    if from < 0 || from >= terms.len() {
        None
    } else if terms[from].term@ == term {
        Some(from)
    } else {
        find_term(terms, term, from + 1)
    }
}

/// The first position at or after `from` of the entry of the item `doc`.
pub open spec fn find_posting(postings: Seq<Posting>, doc: u32, from: int) -> Option<int>
    decreases postings.len() - from,
{
    if from < 0 || from >= postings.len() {
        None
    } else if postings[from].doc == doc {
        Some(from)
    } else {
        find_posting(postings, doc, from + 1)
    }
}

/// The list of `term` in a list of term entries.
pub open spec fn postings_in(terms: Seq<TermEntry>, term: Seq<char>) -> Seq<Posting> {
    match find_term(terms, term, 0) {
        Some(i) => terms[i].postings@,
        None => Seq::empty(),
    }
}

/// How often a list says that its term occurs in the name and in the
/// documentation of the item `doc`.
pub open spec fn counted(postings: Seq<Posting>, doc: u32) -> (nat, nat) {
    match find_posting(postings, doc, 0) {
        Some(j) => (postings[j].in_name as nat, postings[j].in_docs as nat),
        None => (0, 0),
    }
}

/// What one occurrence adds: to the count for the name or to that for the
/// documentation.
pub open spec fn one_more(counts: (nat, nat), in_name: bool) -> (nat, nat) {
    if in_name {
        (counts.0 + 1, counts.1)
    } else {
        (counts.0, counts.1 + 1)
    }
}

/// A search finds an entry with the term, if it finds one.
pub proof fn lemma_find_term_at(terms: Seq<TermEntry>, term: Seq<char>, from: int)
    requires
        0 <= from <= terms.len(),
    ensures
        match find_term(terms, term, from) {
            Some(i) => from <= i < terms.len() && terms[i].term@ == term,
            None => true,
        },
    decreases terms.len() - from,
{
    if from < terms.len() && terms[from].term@ != term {
        lemma_find_term_at(terms, term, from + 1);
    }
}

/// A search finds an entry of the item, if it finds one.
pub proof fn lemma_find_posting_at(postings: Seq<Posting>, doc: u32, from: int)
    requires
        0 <= from <= postings.len(),
    ensures
        match find_posting(postings, doc, from) {
            Some(j) => from <= j < postings.len() && postings[j].doc == doc,
            None => true,
        },
    decreases postings.len() - from,
{
    if from < postings.len() && postings[from].doc != doc {
        lemma_find_posting_at(postings, doc, from + 1);
    }
}

/// An entry added at the end is found only where no earlier one is.
pub proof fn lemma_find_term_push(
    terms: Seq<TermEntry>,
    entry: TermEntry,
    term: Seq<char>,
    from: int,
)
    requires
        0 <= from <= terms.len(),
    ensures
        find_term(terms.push(entry), term, from) == match find_term(terms, term, from) {
            Some(i) => Some(i),
            None => if entry.term@ == term {
                Some(terms.len() as int)
            } else {
                None
            },
        },
    decreases terms.len() - from,
{
    let after = terms.push(entry);
    if from < terms.len() {
        assert(after[from] == terms[from]);
        if terms[from].term@ != term {
            lemma_find_term_push(terms, entry, term, from + 1);
        }
    } else {
        assert(after[from] == entry);
        assert(find_term(after, term, from + 1) is None);
    }
}

/// Lists of entries with the same terms at the same places are searched
/// alike.
pub proof fn lemma_find_term_same_terms(
    a: Seq<TermEntry>,
    b: Seq<TermEntry>,
    term: Seq<char>,
    from: int,
)
    requires
        a.len() == b.len(),
        forall|i: int| 0 <= i < a.len() ==> a[i].term@ == b[i].term@,
        0 <= from <= a.len(),
    ensures
        find_term(a, term, from) == find_term(b, term, from),
    decreases a.len() - from,
{
    if from < a.len() && a[from].term@ != term {
        lemma_find_term_same_terms(a, b, term, from + 1);
    }
}

/// An entry added at the end of a list is found only where no earlier one
/// is.
pub proof fn lemma_find_posting_push(postings: Seq<Posting>, p: Posting, doc: u32, from: int)
    requires
        0 <= from <= postings.len(),
    ensures
        find_posting(postings.push(p), doc, from) == match find_posting(postings, doc, from) {
            Some(j) => Some(j),
            None => if p.doc == doc {
                Some(postings.len() as int)
            } else {
                None
            },
        },
    decreases postings.len() - from,
{
    let after = postings.push(p);
    if from < postings.len() {
        assert(after[from] == postings[from]);
        if postings[from].doc != doc {
            lemma_find_posting_push(postings, p, doc, from + 1);
        }
    } else {
        assert(after[from] == p);
        assert(find_posting(after, doc, from + 1) is None);
    }
}

/// Lists with the same items at the same places are searched alike.
pub proof fn lemma_find_posting_same_docs(a: Seq<Posting>, b: Seq<Posting>, doc: u32, from: int)
    requires
        a.len() == b.len(),
        forall|j: int| 0 <= j < a.len() ==> a[j].doc == b[j].doc,
        0 <= from <= a.len(),
    ensures
        find_posting(a, doc, from) == find_posting(b, doc, from),
    decreases a.len() - from,
{
    if from < a.len() && a[from].doc != doc {
        lemma_find_posting_same_docs(a, b, doc, from + 1);
    }
}

impl SearchIndex {
    /// The list of `term`: empty where the index does not know the term.
    pub open spec fn postings_of(&self, term: Seq<char>) -> Seq<Posting> {
        postings_in(self.terms@, term)
    }

    /// How often `term` occurs in the name and in the documentation of the
    /// item numbered `doc`, as the index has it.
    pub open spec fn counts(&self, term: Seq<char>, doc: u32) -> (nat, nat) {
        counted(self.postings_of(term), doc)
    }

    /// Every entry of every list is about an item of the index.
    pub open spec fn wf(&self) -> bool {
        forall|i: int, j: int|
            0 <= i < self.terms.len() && 0 <= j < self.terms@[i].postings.len() ==> (
            #[trigger] self.terms@[i].postings@[j]).doc < self.items.len()
    }

    /// An index without items.
    pub fn new() -> (r: SearchIndex)
        ensures
            r.items@.len() == 0,
            r.terms@.len() == 0,
            r.wf(),
    {
        SearchIndex { items: Vec::new(), terms: Vec::new() }
    }

    /// The position of the entry of `term`.
    pub fn term_position(&self, term: &str) -> (r: Option<usize>)
        ensures
            match r {
                Some(i) => i < self.terms.len() && find_term(self.terms@, term@, 0) == Some(
                    i as int,
                ),
                None => find_term(self.terms@, term@, 0) is None,
            },
    {
        let mut i: usize = 0;
        while i < self.terms.len()
            invariant
                i <= self.terms.len(),
                find_term(self.terms@, term@, 0) == find_term(self.terms@, term@, i as int),
            decreases self.terms.len() - i,
        {
            if crate::rustdoc_data::str_eq(self.terms[i].term.as_str(), term) {
                return Some(i);
            }
            i += 1;
        }
        None
    }

    /// The list of `term`, where the index knows the term.
    pub fn postings(&self, term: &str) -> (r: Option<&Vec<Posting>>)
        ensures
            match r {
                Some(list) => find_term(self.terms@, term@, 0) is Some && list@
                    == self.postings_of(term@),
                None => find_term(self.terms@, term@, 0) is None,
            },
    {
        match self.term_position(term) {
            Some(i) => Some(&self.terms[i].postings),
            None => None,
        }
    }

    /// Counts one more occurrence of `term` in the item numbered `doc`.
    fn bump(&mut self, term: String, doc: u32, in_name: bool)
        ensures
            old(self).wf() && doc < old(self).items.len() ==> final(self).wf(),
            final(self).items == old(self).items,
            (if in_name {
                old(self).counts(term@, doc).0 < u64::MAX
            } else {
                old(self).counts(term@, doc).1 < u64::MAX
            }) ==> final(self).counts(term@, doc) == one_more(
                old(self).counts(term@, doc),
                in_name,
            ),
            forall|t: Seq<char>, d: u32|
                !(t == term@ && d == doc) ==> #[trigger] final(self).counts(t, d) == old(
                    self,
                ).counts(t, d),
    {
        let ghost before = self.terms@;
        let ghost name = term@;
        let fresh = Posting {
            doc,
            in_name: if in_name {
                1
            } else {
                0
            },
            in_docs: if in_name {
                0
            } else {
                1
            },
        };
        match self.term_position(term.as_str()) {
            None => {
                let mut postings: Vec<Posting> = Vec::new();
                postings.push(fresh);
                let entry = TermEntry { term, postings };
                self.terms.push(entry);
                proof {
                    assert(find_posting(entry.postings@, doc, 0) == Some(0int));
                    assert forall|t: Seq<char>, d: u32| #[trigger]
                        self.counts(t, d) == if t == name && d == doc {
                            one_more(old(self).counts(t, d), in_name)
                        } else {
                            old(self).counts(t, d)
                        } by {
                        lemma_find_term_push(before, entry, t, 0);
                        lemma_find_term_at(before, t, 0);
                        if t == name && d != doc {
                            assert(find_posting(entry.postings@, d, 1) is None);
                        }
                    }
                }
            },
            Some(i) => {
                let ghost list = before[i as int].postings@;
                let at = posting_position(&self.terms[i].postings, doc);
                let entry = &mut self.terms[i];
                match at {
                    None => {
                        entry.postings.push(fresh);
                    },
                    Some(j) => {
                        let p = &mut entry.postings[j];
                        if in_name {
                            if p.in_name < u64::MAX {
                                p.in_name = p.in_name + 1;
                            }
                        } else {
                            if p.in_docs < u64::MAX {
                                p.in_docs = p.in_docs + 1;
                            }
                        }
                    },
                }
                proof {
                    let after = self.terms@;
                    assert(after.len() == before.len());
                    assert forall|k: int| 0 <= k < before.len() implies after[k].term@
                        == before[k].term@ by {}
                    assert forall|k: int| 0 <= k < before.len() && k != i implies after[k]
                        == before[k] by {}
                    let now = after[i as int].postings@;
                    lemma_find_term_at(before, name, 0);
                    lemma_find_posting_at(list, doc, 0);
                    match at {
                        None => {
                            assert(now =~= list.push(fresh));
                        },
                        Some(j) => {
                            assert(now.len() == list.len());
                            assert(now[j as int].doc == doc);
                            assert forall|k: int| 0 <= k < list.len() && k != j implies now[k]
                                == list[k] by {}
                        },
                    }
                    assert forall|t: Seq<char>, d: u32|
                        (t == name && d == doc ==> ((if in_name {
                            old(self).counts(t, d).0 < u64::MAX
                        } else {
                            old(self).counts(t, d).1 < u64::MAX
                        }) ==> #[trigger] self.counts(t, d) == one_more(
                            old(self).counts(t, d),
                            in_name,
                        ))) && (!(t == name && d == doc) ==> self.counts(t, d) == old(
                            self,
                        ).counts(t, d)) by {
                        lemma_find_term_same_terms(before, after, t, 0);
                        lemma_find_term_at(before, t, 0);
                        if find_term(before, t, 0) == Some(i as int) {
                            match at {
                                None => {
                                    lemma_find_posting_push(list, fresh, d, 0);
                                    lemma_find_posting_at(list, d, 0);
                                },
                                Some(j) => {
                                    lemma_find_posting_same_docs(list, now, d, 0);
                                    lemma_find_posting_at(list, d, 0);
                                },
                            }
                        } else if find_term(before, t, 0) is Some {
                            let k = find_term(before, t, 0).unwrap();
                            assert(after[k] == before[k]);
                        }
                    }
                }
            },
        }
    }

    /// Takes an item into the index: the terms of its name and of its
    /// documentation are counted for it, and it gets the next number,
    /// which is returned. Where the numbers are used up, nothing changes
    /// and there is no answer.
    pub fn add(&mut self, id_path: Vec<u32>, name: &str, docs: &str) -> (r: Option<u32>)
        ensures
            old(self).wf() ==> final(self).wf(),
            match r {
                Some(doc) => {
                    &&& doc == old(self).items@.len()
                    &&& old(self).items@.len() < u32::MAX
                    &&& final(self).items@.len() == old(self).items@.len() + 1
                    &&& final(self).items@.drop_last() == old(self).items@
                    &&& final(self).items@.last().id_path == id_path
                    &&& final(self).items@.last().length == terms_of(name@).len() + terms_of(
                        docs@,
                    ).len()
                    &&& old(self).wf() ==> forall|t: Seq<char>| #[trigger]
                        final(self).counts(t, doc) == (
                            occurrences(terms_of(name@), t, terms_of(name@).len() as int),
                            occurrences(terms_of(docs@), t, terms_of(docs@).len() as int),
                        )
                    &&& forall|t: Seq<char>, d: u32|
                        d != doc ==> #[trigger] final(self).counts(t, d) == old(self).counts(t, d)
                },
                None => *final(self) == *old(self) && old(self).items@.len() >= u32::MAX,
            },
    {
        if self.items.len() >= u32::MAX as usize {
            return None;
        }
        let doc = self.items.len() as u32;
        let name_terms = tokenize(name);
        let docs_terms = tokenize(docs);
        let ghost names = terms_of(name@);
        let ghost texts = terms_of(docs@);
        assert(names.len() == name_terms@.len());
        assert(texts.len() == docs_terms@.len());
        let length: u128 = name_terms.len() as u128 + docs_terms.len() as u128;
        self.items.push(IndexedItem { id_path, length });
        proof {
            // No list is about the new item yet.
            assert(self.terms == old(self).terms);
            assert forall|t: Seq<char>| old(self).wf() implies #[trigger] self.counts(t, doc) == (
                0nat,
                0nat,
            ) by {
                lemma_find_term_at(self.terms@, t, 0);
                if find_term(self.terms@, t, 0) is Some {
                    lemma_find_posting_at(self.postings_of(t), doc, 0);
                }
            }
            assert forall|t: Seq<char>, d: u32| d != doc implies #[trigger] self.counts(t, d)
                == old(self).counts(t, d) by {}
        }
        for term in it: name_terms
            invariant
                old(self).wf() ==> self.wf(),
                doc < self.items.len(),
                names == views_of(it.seq()),
                names.len() <= usize::MAX,
                self.items@.len() == old(self).items@.len() + 1,
                self.items@.drop_last() == old(self).items@,
                self.items@.last().id_path == id_path,
                self.items@.last().length == length,
                old(self).wf() ==> forall|t: Seq<char>| #[trigger]
                    self.counts(t, doc) == (occurrences(names, t, it.index() as int), 0nat),
                forall|t: Seq<char>, d: u32|
                    d != doc ==> #[trigger] self.counts(t, d) == old(self).counts(t, d),
        {
            proof {
                lemma_occurrences_bound(names, term@, it.index() as int);
                assert(old(self).wf() ==> self.counts(term@, doc) == (
                    occurrences(names, term@, it.index() as int),
                    0nat,
                ));
            }
            assert(names[it.index() as int] == term@);
            self.bump(term, doc, true);
        }
        for term in it: docs_terms
            invariant
                old(self).wf() ==> self.wf(),
                doc < self.items.len(),
                texts == views_of(it.seq()),
                names.len() <= usize::MAX,
                texts.len() <= usize::MAX,
                self.items@.len() == old(self).items@.len() + 1,
                self.items@.drop_last() == old(self).items@,
                self.items@.last().id_path == id_path,
                self.items@.last().length == length,
                old(self).wf() ==> forall|t: Seq<char>| #[trigger]
                    self.counts(t, doc) == (
                        occurrences(names, t, names.len() as int),
                        occurrences(texts, t, it.index() as int),
                    ),
                forall|t: Seq<char>, d: u32|
                    d != doc ==> #[trigger] self.counts(t, d) == old(self).counts(t, d),
        {
            proof {
                lemma_occurrences_bound(texts, term@, it.index() as int);
                lemma_occurrences_bound(names, term@, names.len() as int);
                assert(old(self).wf() ==> self.counts(term@, doc) == (
                    occurrences(names, term@, names.len() as int),
                    occurrences(texts, term@, it.index() as int),
                ));
            }
            assert(texts[it.index() as int] == term@);
            self.bump(term, doc, false);
        }
        Some(doc)
    }
}

/// The position of the entry of the item `doc` in a list.
fn posting_position(postings: &Vec<Posting>, doc: u32) -> (r: Option<usize>)
    ensures
        match r {
            Some(j) => j < postings.len() && find_posting(postings@, doc, 0) == Some(j as int),
            None => find_posting(postings@, doc, 0) is None,
        },
{
    let mut j: usize = 0;
    while j < postings.len()
        invariant
            j <= postings.len(),
            find_posting(postings@, doc, 0) == find_posting(postings@, doc, j as int),
        decreases postings.len() - j,
    {
        if postings[j].doc == doc {
            return Some(j);
        }
        j += 1;
    }
    None
}

/// The name under which an item is indexed: the name of a handle that a
/// lookup by id gives, or nothing where it has none.
pub open spec fn indexed_name(doc: RustdocData, item: Item) -> Seq<char> {
    match shown_name(doc, item, None) {
        Some(name) => name,
        None => Seq::empty(),
    }
}

/// The documentation under which an item is indexed.
pub open spec fn indexed_docs(item: Item) -> Seq<char> {
    match item.docs {
        Some(docs) => docs@,
        None => Seq::empty(),
    }
}

/// The id of the item numbered `d`: the last of its path of ids.
pub open spec fn entry_id(index: SearchIndex, d: int) -> Id {
    Id(index.items@[d].id_path@.last())
}

/// The item numbered `d`, as the document has it.
pub open spec fn entry_item(index: SearchIndex, doc: RustdocData, d: int) -> Item {
    doc.item_at(entry_id(index, d)).unwrap()
}

/// The item numbered `d` is an item of the document, and the index counts
/// for it the terms of its name and of its documentation.
pub open spec fn entry_holds(index: SearchIndex, doc: RustdocData, d: int) -> bool {
    let path = index.items@[d].id_path@;
    &&& path.len() >= 1
    &&& match doc.item_at(Id(path.last())) {
        Some(item) => {
            let names = terms_of(indexed_name(doc, item));
            let texts = terms_of(indexed_docs(item));
            &&& index.items@[d].length == names.len() + texts.len()
            &&& forall|t: Seq<char>| #[trigger]
                index.counts(t, d as u32) == (
                    occurrences(names, t, names.len() as int),
                    occurrences(texts, t, texts.len() as int),
                )
        },
        None => false,
    }
}

/// `id` is that of a child of `parent` that lives in the document `doc`.
pub open spec fn is_own_child(nav: Navigator, doc: RustdocData, parent: Item, id: Id) -> bool {
    &&& doc.item_at(id) is Some
    &&& exists|k: int|
        0 <= k < children_of(nav, plain_handle(doc, parent), true).len() && (
        #[trigger] children_of(nav, plain_handle(doc, parent), true)[k]).item.id == id
            && children_of(nav, plain_handle(doc, parent), true)[k].doc.name@ == doc.name@
}

/// The index has an item of this id.
pub open spec fn holds_id(index: SearchIndex, id: Id) -> bool {
    exists|d: int| 0 <= d < index.items.len() && #[trigger] entry_id(index, d) == id
}

/// The item numbered `d` was met as a child of an item with a smaller
/// number, and its path of ids is that item's path and its own id.
pub open spec fn comes_from_earlier(
    index: SearchIndex,
    nav: Navigator,
    doc: RustdocData,
    d: int,
) -> bool {
    exists|d0: int|
        0 <= d0 < d && index.items@[d].id_path@ == (#[trigger] index.items@[d0]).id_path@.push(
            entry_id(index, d).0,
        ) && is_own_child(nav, doc, entry_item(index, doc, d0), entry_id(index, d))
}

/// `index` is the index of the document `doc`.
///
/// It holds the root of the document, where the document has it, as its
/// first item, and with every item the children of that item that live in
/// the document; so it holds whatever a walk from the root can reach
/// within the document. It holds no item twice. Every item but the first
/// was met as a child of an earlier one, and has the path of ids that led
/// to it. For every item the terms of its name and documentation are
/// counted.
pub open spec fn is_index_of(index: SearchIndex, nav: Navigator, doc: RustdocData) -> bool {
    &&& index.wf()
    &&& forall|d: int| 0 <= d < index.items.len() ==> #[trigger] entry_holds(index, doc, d)
    &&& forall|d1: int, d2: int|
        0 <= d1 < d2 < index.items.len() ==> #[trigger] entry_id(index, d1) != #[trigger] entry_id(
            index,
            d2,
        )
    &&& match doc.item_at(doc.root) {
        Some(_) => index.items.len() >= 1 && index.items@[0].id_path@ == seq![doc.root.0],
        None => index.items.len() == 0,
    }
    &&& forall|d: int, id: Id|
        0 <= d < index.items.len() && #[trigger] is_own_child(
            nav,
            doc,
            entry_item(index, doc, d),
            id,
        ) ==> holds_id(index, id)
    &&& forall|d: int| 1 <= d < index.items.len() ==> #[trigger] comes_from_earlier(index, nav, doc, d)
}

/// An item that waits to be taken into the index.
struct Pending {
    id: Id,
    id_path: Vec<u32>,
}

/// An item of this id is waiting.
spec fn is_waiting(pending: Seq<Pending>, id: Id) -> bool {
    exists|j: int| 0 <= j < pending.len() && (#[trigger] pending[j]).id == id
}

/// How many of the first `n` marks are not set.
spec fn unmarked(marks: Seq<bool>, n: int) -> nat
    decreases n,
{
    if n <= 0 || n > marks.len() {
        0
    } else if marks[n - 1] {
        unmarked(marks, n - 1)
    } else {
        unmarked(marks, n - 1) + 1
    }
}

/// Setting a mark that was not set leaves one fewer unset.
proof fn lemma_unmarked_set(marks: Seq<bool>, p: int, n: int)
    requires
        0 <= p < marks.len(),
        0 <= n <= marks.len(),
        !marks[p],
    ensures
        unmarked(marks.update(p, true), n) == if p < n {
            unmarked(marks, n) - 1
        } else {
            unmarked(marks, n) as int
        },
        p < n ==> unmarked(marks, n) >= 1,
    decreases n,
{
    if n > 0 {
        lemma_unmarked_set(marks, p, n - 1);
    }
}

/// A copy of a path of ids.
fn copied(path: &Vec<u32>) -> (r: Vec<u32>)
    ensures
        r@ == path@,
{
    let mut r: Vec<u32> = Vec::new();
    let mut i: usize = 0;
    while i < path.len()
        invariant
            i <= path.len(),
            r@ == path@.take(i as int),
        decreases path.len() - i,
    {
        r.push(path[i]);
        i += 1;
        assert(r@ =~= path@.take(i as int));
    }
    assert(path@.take(path.len() as int) =~= path@);
    r
}

/// What holds of the items that wait: each is an item of the document and
/// carries the path of ids that led to it; the root waits as the only one
/// while nothing is indexed, every other was met as a child of an indexed
/// item, which `origin` names.
spec fn waiting_well(
    index: SearchIndex,
    nav: Navigator,
    doc: RustdocData,
    pending: Seq<Pending>,
    origin: Seq<int>,
) -> bool {
    &&& origin.len() == pending.len()
    &&& forall|k: int|
        0 <= k < pending.len() ==> {
            let q = #[trigger] pending[k];
            &&& q.id_path@.len() >= 1
            &&& q.id_path@.last() == q.id.0
            &&& doc.item_at(q.id) is Some
            &&& if index.items.len() == 0 {
                q.id == doc.root && q.id_path@ == seq![doc.root.0] && pending.len() == 1
            } else {
                &&& 0 <= origin[k] < index.items.len()
                &&& q.id_path@ == index.items@[origin[k]].id_path@.push(q.id.0)
                &&& is_own_child(nav, doc, entry_item(index, doc, origin[k]), q.id)
            }
        }
}

/// What holds of the marks: the positions that are marked are those of the
/// indexed items, each of which `owner` names at its position.
spec fn marked_well(index: SearchIndex, doc: RustdocData, marks: Seq<bool>, owner: Seq<int>) -> bool {
    &&& marks.len() == doc.index.len()
    &&& owner.len() == doc.index.len()
    &&& index.items.len() <= u32::MAX
    &&& forall|p: int|
        0 <= p < marks.len() ==> (#[trigger] marks[p] <==> owner[p] >= 0) && (owner[p] >= 0
            ==> owner[p] < index.items.len() && find_item(
            doc.index@,
            entry_id(index, owner[p]),
            0,
        ) == Some(p))
    &&& forall|d: int|
        0 <= d < index.items.len() ==> #[trigger] entry_holds(index, doc, d) && match find_item(
            doc.index@,
            entry_id(index, d),
            0,
        ) {
            Some(p) => 0 <= p < owner.len() && owner[p] == d,
            None => false,
        }
}

/// Every child of an indexed item that lives in the document is indexed or
/// waits.
spec fn closed_so_far(
    index: SearchIndex,
    nav: Navigator,
    doc: RustdocData,
    pending: Seq<Pending>,
) -> bool {
    forall|d: int, id: Id|
        0 <= d < index.items.len() && #[trigger] is_own_child(
            nav,
            doc,
            entry_item(index, doc, d),
            id,
        ) ==> holds_id(index, id) || is_waiting(pending, id)
}

impl SearchIndex {
    /// Builds the index of a document: the root, and with every item its
    /// children that live in the document, each once, under the path of
    /// ids by which it was first met.
    ///
    /// There is no answer only where the document has more items than the
    /// index has numbers for.
    pub fn build(navigator: &Navigator, doc: &RustdocData) -> (r: Option<SearchIndex>)
        ensures
            match r {
                Some(index) => is_index_of(index, *navigator, *doc),
                None => doc.index.len() >= u32::MAX,
            },
    {
        let n = doc.index.len();
        let mut index = SearchIndex::new();
        let mut marks: Vec<bool> = Vec::new();
        let mut k: usize = 0;
        while k < n
            invariant
                k <= n,
                marks@.len() == k,
                forall|p: int| 0 <= p < k ==> !marks@[p],
                unmarked(marks@, k as int) == k,
            decreases n - k,
        {
            let ghost old_marks = marks@;
            marks.push(false);
            k += 1;
            proof {
                lemma_unmarked_prefix(marks@, old_marks, k - 1);
            }
        }
        let ghost nav = *navigator;
        let ghost mut owner: Seq<int> = Seq::new(n as nat, |p: int| -1);
        let ghost mut origin: Seq<int> = Seq::empty();
        let mut pending: Vec<Pending> = Vec::new();
        if doc.item(doc.root).is_some() {
            let mut path: Vec<u32> = Vec::new();
            path.push(doc.root.0);
            pending.push(Pending { id: doc.root, id_path: path });
            proof {
                origin = seq![-1int];
                assert(pending@[0].id_path@ =~= seq![doc.root.0]);
            }
        }
        let mut remaining: usize = n;
        while pending.len() > 0
            invariant
                n == doc.index.len(),
                nav == *navigator,
                index.wf(),
                marked_well(index, *doc, marks@, owner),
                waiting_well(index, nav, *doc, pending@, origin),
                closed_so_far(index, nav, *doc, pending@),
                remaining == unmarked(marks@, n as int),
                index.items.len() + remaining == n,
                forall|d1: int, d2: int|
                    0 <= d1 < d2 < index.items.len() ==> #[trigger] entry_id(index, d1)
                        != #[trigger] entry_id(index, d2),
                index.items.len() == 0 ==> (doc.item_at(doc.root) is Some <==> pending@.len() == 1),
                index.items.len() >= 1 ==> doc.item_at(doc.root) is Some && index.items@[0].id_path@
                    == seq![doc.root.0],
                forall|d: int|
                    1 <= d < index.items.len() ==> #[trigger] comes_from_earlier(
                        index,
                        nav,
                        *doc,
                        d,
                    ),
            decreases remaining, pending.len(),
        {
            let ghost before = index;
            let ghost waited = pending@;
            let ghost came = origin;
            let q = pending.pop().unwrap();
            proof {
                origin = origin.drop_last();
                lemma_find_item_at(doc.index@, q.id, 0);
                assert(q == waited[waited.len() - 1]);
            }
            let ghost from = came.last();
            let pos = match doc.position(q.id) {
                Some(pos) => pos,
                None => {
                    // An item that waits is an item of the document.
                    assert(false);
                    return None;
                },
            };
            if marks[pos] {
                proof {
                    // The item is indexed already: what waited for it is
                    // served.
                    let d = owner[pos as int];
                    lemma_find_item_at(doc.index@, entry_id(index, d), 0);
                    assert(entry_id(index, d) == q.id);
                    assert(index.items.len() >= 1);
                    assert forall|d2: int, id: Id|
                        0 <= d2 < index.items.len() && #[trigger] is_own_child(
                            nav,
                            *doc,
                            entry_item(index, *doc, d2),
                            id,
                        ) implies holds_id(index, id) || is_waiting(pending@, id) by {
                        if !holds_id(index, id) {
                            let j = choose|j: int|
                                0 <= j < waited.len() && (#[trigger] waited[j]).id == id;
                            assert(pending@[j] == waited[j]);
                        }
                    }
                    assert forall|k: int| 0 <= k < pending@.len() implies {
                        let w = #[trigger] pending@[k];
                        &&& w.id_path@.len() >= 1
                        &&& w.id_path@.last() == w.id.0
                        &&& doc.item_at(w.id) is Some
                        &&& 0 <= origin[k] < index.items.len()
                        &&& w.id_path@ == index.items@[origin[k]].id_path@.push(w.id.0)
                        &&& is_own_child(nav, *doc, entry_item(index, *doc, origin[k]), w.id)
                    } by {
                        assert(pending@[k] == waited[k]);
                    }
                }
            } else {
                let item = &doc.index[pos];
                let handle = DocRef::new(navigator, doc, item);
                assert(handle@ == plain_handle(*doc, *item));
                let name: &str = match handle.name() {
                    Some(name) => name,
                    None => "",
                };
                let docs: &str = match &item.docs {
                    Some(docs) => docs.as_str(),
                    None => "",
                };
                proof {
                    reveal_strlit("");
                    assert(""@ =~= Seq::<char>::empty());
                    assert(name@ == indexed_name(*doc, *item));
                    assert(docs@ == indexed_docs(*item));
                }
                let own = copied(&q.id_path);
                let ghost own_path = q.id_path@;
                let ghost old_marks = marks@;
                let number = match index.add(q.id_path, name, docs) {
                    Some(number) => number,
                    None => {
                        return None;
                    },
                };
                marks.set(pos, true);
                let ghost old_owner = owner;
                proof {
                    lemma_unmarked_set(old_marks, pos as int, n as int);
                    owner = owner.update(pos as int, number as int);
                }
                remaining = remaining - 1;
                let children = handle.child_items();
                let ghost list = handle_views(children@);
                let ghost dn = number as int;
                proof {
                    if before.items.len() == 0 {
                        assert(waited.len() == 1);
                    }
                    assert(index.items@.drop_last() == before.items@);
                    assert forall|d: int| 0 <= d < before.items.len() implies index.items@[d]
                        == before.items@[d] by {
                        assert(index.items@.drop_last()[d] == index.items@[d]);
                    }
                    assert(index.items@[dn].id_path@ == own_path);
                    assert(entry_id(index, dn) == q.id);
                    assert(doc.item_at(q.id) == Some(*item));
                    assert forall|d: int| 0 <= d < index.items.len() implies #[trigger] entry_holds(
                        index,
                        *doc,
                        d,
                    ) && match find_item(doc.index@, entry_id(index, d), 0) {
                        Some(p) => 0 <= p < owner.len() && owner[p] == d,
                        None => false,
                    } by {
                        if d < dn {
                            assert(entry_holds(before, *doc, d));
                            assert(d as u32 != number);
                            assert(entry_id(index, d) == entry_id(before, d));
                            let p = find_item(doc.index@, entry_id(before, d), 0).unwrap();
                            assert(p != pos);
                        }
                    }
                    assert forall|p: int| 0 <= p < marks@.len() implies (#[trigger] marks@[p]
                        <==> owner[p] >= 0) && (owner[p] >= 0 ==> owner[p] < index.items.len()
                        && find_item(doc.index@, entry_id(index, owner[p]), 0) == Some(p)) by {
                        if p != pos {
                            assert(owner[p] == old_owner[p]);
                            assert(marks@[p] == old_marks[p]);
                            if owner[p] >= 0 {
                                assert(old_owner[p] < before.items.len());
                                assert(index.items@[owner[p]] == before.items@[owner[p]]);
                            }
                        }
                    }
                    assert forall|d1: int, d2: int| 0 <= d1 < d2 < index.items.len() implies
                        #[trigger] entry_id(index, d1) != #[trigger] entry_id(index, d2) by {
                        assert(entry_id(index, d1) == entry_id(before, d1));
                        if d2 == dn {
                            assert(entry_holds(before, *doc, d1));
                            let p = find_item(doc.index@, entry_id(before, d1), 0).unwrap();
                            assert(p != pos);
                        } else {
                            assert(entry_id(index, d2) == entry_id(before, d2));
                        }
                    }
                    assert forall|d: int| 1 <= d < index.items.len() implies
                        #[trigger] comes_from_earlier(index, nav, *doc, d) by {
                        if d < dn {
                            assert(comes_from_earlier(before, nav, *doc, d));
                            let d0 = choose|d0: int|
                                0 <= d0 < d && before.items@[d].id_path@ == (
                                #[trigger] before.items@[d0]).id_path@.push(
                                    entry_id(before, d).0,
                                ) && is_own_child(
                                    nav,
                                    *doc,
                                    entry_item(before, *doc, d0),
                                    entry_id(before, d),
                                );
                            assert(index.items@[d0] == before.items@[d0]);
                            assert(entry_id(index, d0) == entry_id(before, d0));
                            assert(entry_id(index, d) == entry_id(before, d));
                        } else {
                            assert(index.items@[from] == before.items@[from]);
                            assert(entry_id(index, from) == entry_id(before, from));
                        }
                    }
                }
                let ghost base = pending@;
                let ghost base_origin = origin;
                let mut i: usize = 0;
                while i < children.len()
                    invariant
                        i <= children.len(),
                        n == doc.index.len(),
                        nav == *navigator,
                        list == handle_views(children@),
                        list == children_of(nav, plain_handle(*doc, *item), true),
                        own@ == own_path,
                        dn == number,
                        pending@.len() >= base.len(),
                        pending@.take(base.len() as int) == base,
                        origin.len() == pending@.len(),
                        origin.take(base.len() as int) == base_origin,
                        forall|k: int|
                            base.len() <= k < pending@.len() ==> {
                                let w = #[trigger] pending@[k];
                                &&& w.id_path@ == own_path.push(w.id.0)
                                &&& doc.item_at(w.id) is Some
                                &&& origin[k] == dn
                                &&& is_own_child(nav, *doc, *item, w.id)
                            },
                        forall|c: int|
                            0 <= c < i && list[c].doc.name@ == doc.name@ && doc.item_at(
                                list[c].item.id,
                            ) is Some ==> is_waiting(pending@, (#[trigger] list[c]).item.id),
                    decreases children.len() - i,
                {
                    let child = &children[i];
                    assert(list[i as int] == child@);
                    if str_eq(child.crate_docs.name.as_str(), doc.name.as_str()) && doc.item(
                        child.item.id,
                    ).is_some() {
                        let ghost so_far = pending@;
                        let mut id_path = copied(&own);
                        id_path.push(child.item.id.0);
                        pending.push(Pending { id: child.item.id, id_path });
                        proof {
                            origin = origin.push(dn);
                            assert(pending@.take(base.len() as int) =~= so_far.take(
                                base.len() as int,
                            ));
                            assert(origin.take(base.len() as int) =~= base_origin);
                            let last = pending@.len() - 1;
                            assert(pending@[last].id == child.item.id);
                            assert forall|k: int| base.len() <= k < pending@.len() implies {
                                let w = #[trigger] pending@[k];
                                &&& w.id_path@ == own_path.push(w.id.0)
                                &&& doc.item_at(w.id) is Some
                                &&& origin[k] == dn
                                &&& is_own_child(nav, *doc, *item, w.id)
                            } by {
                                if k < last {
                                    assert(pending@[k] == so_far[k]);
                                }
                            }
                            assert forall|c: int|
                                0 <= c <= i && list[c].doc.name@ == doc.name@ && doc.item_at(
                                    list[c].item.id,
                                ) is Some implies is_waiting(
                                pending@,
                                (#[trigger] list[c]).item.id,
                            ) by {
                                if c < i {
                                    let j = choose|j: int|
                                        0 <= j < so_far.len() && (#[trigger] so_far[j]).id
                                            == list[c].item.id;
                                    assert(pending@[j] == so_far[j]);
                                } else {
                                    assert(pending@[last].id == list[c].item.id);
                                }
                            }
                        }
                    }
                    i += 1;
                }
                proof {
                    // What waits is well, and the children of every
                    // indexed item are indexed or wait.
                    assert forall|k: int| 0 <= k < pending@.len() implies {
                        let w = #[trigger] pending@[k];
                        &&& w.id_path@.len() >= 1
                        &&& w.id_path@.last() == w.id.0
                        &&& doc.item_at(w.id) is Some
                        &&& 0 <= origin[k] < index.items.len()
                        &&& w.id_path@ == index.items@[origin[k]].id_path@.push(w.id.0)
                        &&& is_own_child(nav, *doc, entry_item(index, *doc, origin[k]), w.id)
                    } by {
                        if k < base.len() {
                            assert(pending@.take(base.len() as int)[k] == pending@[k]);
                            assert(origin.take(base.len() as int)[k] == origin[k]);
                            assert(base[k] == waited[k]);
                            assert(base_origin[k] == came[k]);
                            assert(index.items@[came[k]] == before.items@[came[k]]);
                            assert(entry_id(index, came[k]) == entry_id(before, came[k]));
                        }
                    }
                    assert forall|d: int, id: Id|
                        0 <= d < index.items.len() && #[trigger] is_own_child(
                            nav,
                            *doc,
                            entry_item(index, *doc, d),
                            id,
                        ) implies holds_id(index, id) || is_waiting(pending@, id) by {
                        if d < dn {
                            assert(entry_id(index, d) == entry_id(before, d));
                            assert(entry_item(index, *doc, d) == entry_item(before, *doc, d));
                            assert(holds_id(before, id) || is_waiting(waited, id));
                            if holds_id(before, id) {
                                let e = choose|e: int|
                                    0 <= e < before.items.len() && #[trigger] entry_id(before, e)
                                        == id;
                                assert(entry_id(index, e) == id);
                            } else {
                                let j = choose|j: int|
                                    0 <= j < waited.len() && (#[trigger] waited[j]).id == id;
                                if j < base.len() {
                                    assert(pending@.take(base.len() as int)[j] == pending@[j]);
                                    assert(base[j] == waited[j]);
                                } else {
                                    assert(waited[j].id == q.id);
                                    assert(entry_id(index, dn) == id);
                                }
                            }
                        } else {
                            let c = choose|c: int|
                                0 <= c < list.len() && (#[trigger] list[c]).item.id == id
                                    && list[c].doc.name@ == doc.name@;
                            assert(is_waiting(pending@, list[c].item.id));
                        }
                    }
                }
            }
        }
        proof {
            assert forall|d: int, id: Id|
                0 <= d < index.items.len() && #[trigger] is_own_child(
                    nav,
                    *doc,
                    entry_item(index, *doc, d),
                    id,
                ) implies holds_id(index, id) by {
                assert(holds_id(index, id) || is_waiting(pending@, id));
            }
        }
        Some(index)
    }
}

/// Marks that agree on their first `n` places have as many of them unset.
proof fn lemma_unmarked_prefix(a: Seq<bool>, b: Seq<bool>, n: int)
    requires
        0 <= n <= a.len(),
        n <= b.len(),
        forall|p: int| 0 <= p < n ==> a[p] == b[p],
    ensures
        unmarked(a, n) == unmarked(b, n),
    decreases n,
{
    if n > 0 {
        lemma_unmarked_prefix(a, b, n - 1);
    }
}

} // verus!

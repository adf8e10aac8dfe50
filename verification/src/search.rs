//! Search over several packages: the cache of per-package index states, the
//! merging of per-package results into one ranked list, and the cut-off
//! that decides how much of that list is shown.

use vstd::prelude::*;
use vstd::multiset::Multiset;
use vstd::string::*;
use crate::crate_name::{eq_ignoring_dash_underscore, same_ignoring_separators};
use crate::navigator::{canonical, Navigator, Suggestion};
use crate::ranking::{descending, rank, ranked, Scored};

pub mod indexer;

verus! {

/// One result of a search within one package: the path to the item as a
/// sequence of item ids, and its relevance.
#[derive(Debug)]
pub struct Hit {
    pub id_path: Vec<u32>,
    pub score: u32,
}

/// One result of a search over several packages.
#[derive(Debug)]
pub struct ScoredResult {
    pub crate_name: String,
    pub id_path: Vec<u32>,
    pub score: u32,
}

impl Scored for ScoredResult {
    open spec fn score_of(&self) -> u32 {
        self.score
    }

    fn score(&self) -> (s: u32) {
        self.score
    }
}

impl Scored for Hit {
    open spec fn score_of(&self) -> u32 {
        self.score
    }

    fn score(&self) -> (s: u32) {
        self.score
    }
}

impl Scored for Suggestion {
    open spec fn score_of(&self) -> u32 {
        self.score
    }

    fn score(&self) -> (s: u32) {
        self.score
    }
}

/// What searching one package gave: its results, or, where the package
/// could not be found or indexed, suggestions in their place.
#[derive(Debug)]
pub struct PackageSearch {
    pub crate_name: String,
    pub outcome: Result<Vec<Hit>, Vec<Suggestion>>,
}

/// The results of one package, each under the package's name.
pub open spec fn labelled(crate_name: String, hits: Seq<Hit>) -> Seq<ScoredResult> {
    Seq::new(
        hits.len(),
        |i: int| ScoredResult { crate_name, id_path: hits[i].id_path, score: hits[i].score },
    )
}

/// The results of the first `n` packages, in the order of the packages and,
/// within a package, of its results. A package that failed adds nothing.
pub open spec fn merged(searches: Seq<PackageSearch>, n: int) -> Seq<ScoredResult>
    decreases n,
{
    if n <= 0 || n > searches.len() {
        Seq::empty()
    } else {
        match searches[n - 1].outcome {
            Ok(hits) => merged(searches, n - 1) + labelled(searches[n - 1].crate_name, hits@),
            Err(_) => merged(searches, n - 1),
        }
    }
}

/// The first package at or after `from` that failed.
pub open spec fn first_failure(searches: Seq<PackageSearch>, from: int) -> Option<int>
    decreases searches.len() - from,
{
    if from < 0 || from >= searches.len() {
        None
    } else if searches[from].outcome is Err {
        Some(from)
    } else {
        first_failure(searches, from + 1)
    }
}

/// The first package at or after `from` that gave results.
pub open spec fn first_success(searches: Seq<PackageSearch>, from: int) -> Option<int>
    decreases searches.len() - from,
{
    if from < 0 || from >= searches.len() {
        None
    } else if searches[from].outcome is Ok {
        Some(from)
    } else {
        first_success(searches, from + 1)
    }
}

/// The state of the search index of one package, once building it has been
/// tried.
#[derive(Debug, Clone, Copy, PartialEq, Eq, Structural)]
pub enum IndexState {
    /// The index was built; the number tells the caller which one it is.
    Built(u64),
    /// The index could not be built, and will not be tried again.
    Failed,
}

/// The recorded state of the search index of one package.
#[derive(Debug)]
pub struct IndexSlot {
    pub crate_name: String,
    pub state: IndexState,
}

/// The cache of search index states: for each package for which an index
/// was asked, whether building it succeeded. The first state recorded for a
/// package stays.
#[derive(Debug)]
pub struct SearchIndexes {
    pub slots: Vec<IndexSlot>,
}

/// What to do about the search index of a package.
#[derive(Debug, Clone, Copy, PartialEq, Eq, Structural)]
pub enum IndexPlan {
    /// Use the index that was built.
    Use(u64),
    /// Report failure at once: an earlier attempt failed.
    Fail,
    /// Nothing was tried yet: build the index and record the outcome.
    Build,
}

/// The first slot at or after `from` that is kept for `name`.
pub open spec fn find_slot(slots: Seq<IndexSlot>, name: Seq<char>, from: int) -> Option<int>
    decreases slots.len() - from,
{
    if from < 0 || from >= slots.len() {
        None
    } else if same_ignoring_separators(slots[from].crate_name@, name) {
        Some(from)
    } else {
        find_slot(slots, name, from + 1)
    }
}

/// The state recorded for `name`, if any.
pub open spec fn state_of(slots: Seq<IndexSlot>, name: Seq<char>) -> Option<IndexState> {
    match find_slot(slots, name, 0) {
        Some(i) => Some(slots[i].state),
        None => None,
    }
}

/// What is to be done for a package with the recorded state `state`.
pub open spec fn plan_for(state: Option<IndexState>) -> IndexPlan {
    match state {
        Some(IndexState::Built(token)) => IndexPlan::Use(token),
        Some(IndexState::Failed) => IndexPlan::Fail,
        None => IndexPlan::Build,
    }
}

/// A slot added at the end is found only where no earlier one is.
pub proof fn lemma_find_slot_push(slots: Seq<IndexSlot>, slot: IndexSlot, name: Seq<char>, from: int)
    requires
        0 <= from <= slots.len(),
    ensures
        find_slot(slots.push(slot), name, from) == match find_slot(slots, name, from) {
            Some(i) => Some(i),
            None => if same_ignoring_separators(slot.crate_name@, name) {
                Some(slots.len() as int)
            } else {
                None
            },
        },
        match find_slot(slots, name, from) {
            Some(i) => from <= i < slots.len(),
            None => true,
        },
    decreases slots.len() - from,
{
    let after = slots.push(slot);
    if from < slots.len() {
        assert(after[from] == slots[from]);
        if !same_ignoring_separators(slots[from].crate_name@, name) {
            lemma_find_slot_push(slots, slot, name, from + 1);
        }
    } else {
        assert(after[from] == slot);
        assert(find_slot(after, name, from + 1) is None);
    }
}

impl SearchIndexes {
    /// The state recorded for the package named `name`.
    pub open spec fn state(&self, name: Seq<char>) -> Option<IndexState> {
        state_of(self.slots@, name)
    }

    /// A cache in which nothing has been tried.
    pub fn new() -> (r: SearchIndexes)
        ensures
            r.slots@.len() == 0,
            forall|name: Seq<char>| r.state(name) is None,
    {
        SearchIndexes { slots: Vec::new() }
    }

    /// Says what to do about the search index of the package named `name`:
    /// use the one that was built, fail because an earlier attempt failed,
    /// or build it now.
    pub fn plan(&self, name: &str) -> (r: IndexPlan)
        ensures
            r == plan_for(self.state(name@)),
    {
        let mut i: usize = 0;
        while i < self.slots.len()
            invariant
                i <= self.slots.len(),
                find_slot(self.slots@, name@, 0) == find_slot(self.slots@, name@, i as int),
            decreases self.slots.len() - i,
        {
            if eq_ignoring_dash_underscore(self.slots[i].crate_name.as_str(), name) {
                return match self.slots[i].state {
                    IndexState::Built(token) => IndexPlan::Use(token),
                    IndexState::Failed => IndexPlan::Fail,
                };
            }
            i += 1;
        }
        IndexPlan::Build
    }

    /// Records the outcome of building the search index of the package
    /// named `name`. A state that was recorded before stays: of two
    /// attempts on one package only the first counts, and a failure is
    /// never tried again. Returns the state that the cache now holds for
    /// the package.
    pub fn record(&mut self, name: &str, state: IndexState) -> (r: IndexState)
        ensures
            r == match old(self).state(name@) {
                Some(earlier) => earlier,
                None => state,
            },
            final(self).state(name@) == Some(r),
            forall|other: Seq<char>|
                old(self).state(other) is Some ==> final(self).state(other) == old(self).state(
                    other,
                ),
            forall|other: Seq<char>|
                !same_ignoring_separators(name@, other) ==> final(self).state(other) == old(
                    self,
                ).state(other),
    {
        let mut i: usize = 0;
        while i < self.slots.len()
            invariant
                i <= self.slots.len(),
                *self == *old(self),
                find_slot(self.slots@, name@, 0) == find_slot(self.slots@, name@, i as int),
            decreases self.slots.len() - i,
        {
            if eq_ignoring_dash_underscore(self.slots[i].crate_name.as_str(), name) {
                return self.slots[i].state;
            }
            i += 1;
        }
        let ghost before = self.slots@;
        let slot = IndexSlot { crate_name: String::from_str(name), state };
        self.slots.push(slot);
        proof {
            lemma_find_slot_push(before, slot, name@, 0);
            crate::crate_name::lemma_same_ignoring_separators_is_equivalence(name@, name@, name@);
            assert forall|other: Seq<char>| old(self).state(other) is Some implies self.state(other)
                == old(self).state(other) by {
                lemma_find_slot_push(before, slot, other, 0);
                let i = find_slot(before, other, 0).unwrap();
                assert(self.slots@[i] == before[i]);
            }
            assert forall|other: Seq<char>| !same_ignoring_separators(name@, other) implies self.state(
                other,
            ) == old(self).state(other) by {
                lemma_find_slot_push(before, slot, other, 0);
                crate::crate_name::lemma_same_ignoring_separators_is_equivalence(
                    name@,
                    other,
                    other,
                );
                if find_slot(before, other, 0) is Some {
                    let i = find_slot(before, other, 0).unwrap();
                    assert(self.slots@[i] == before[i]);
                }
            }
        }
        state
    }
}

/// Once building the index of a package has failed, every later question
/// about that package is answered with `Fail`, whatever is recorded in
/// between: the index is not built a second time.
pub proof fn lemma_failure_is_permanent(
    before: SearchIndexes,
    after: SearchIndexes,
    name: Seq<char>,
)
    requires
        before.state(name) == Some(IndexState::Failed),
        forall|other: Seq<char>|
            before.state(other) is Some ==> after.state(other) == before.state(other),
    ensures
        plan_for(after.state(name)) == IndexPlan::Fail,
{
}

/// The results of all packages, whatever their order, as a multiset.
pub open spec fn all_results(searches: Seq<PackageSearch>) -> Multiset<ScoredResult> {
    merged(searches, searches.len() as int).to_multiset()
}

/// The merged results of a list of packages with one more are those of the
/// list and those of the one.
proof fn lemma_merged_push(searches: Seq<PackageSearch>, one: PackageSearch)
    ensures
        all_results(searches.push(one)) == all_results(searches).add(all_results(seq![one])),
{
    let more = searches.push(one);
    let n = searches.len() as int;
    lemma_merged_prefix(more, searches, n);
    assert(merged(seq![one], 0) =~= Seq::<ScoredResult>::empty());
    match one.outcome {
        Ok(hits) => {
            let added = labelled(one.crate_name, hits@);
            assert(merged(more, n + 1) == merged(more, n) + added);
            assert(merged(seq![one], 1) =~= added);
            vstd::seq_lib::lemma_multiset_commutative(merged(searches, n), added);
        },
        Err(_) => {
            let none = Seq::<ScoredResult>::empty();
            assert(merged(seq![one], 1) =~= none);
            none.to_multiset_ensures();
            assert forall|x: ScoredResult| none.to_multiset().count(x) == 0 by {
                assert(!none.contains(x));
            }
            assert(all_results(seq![one]) =~= Multiset::<ScoredResult>::empty());
            assert(all_results(searches).add(Multiset::<ScoredResult>::empty()) =~= all_results(
                searches,
            ));
        },
    }
}

/// The merged results of the first `n` packages depend on those packages
/// only.
proof fn lemma_merged_prefix(a: Seq<PackageSearch>, b: Seq<PackageSearch>, n: int)
    requires
        0 <= n <= a.len(),
        n <= b.len(),
        forall|i: int| 0 <= i < n ==> a[i] == b[i],
    ensures
        merged(a, n) == merged(b, n),
    decreases n,
{
    if n > 0 {
        lemma_merged_prefix(a, b, n - 1);
    }
}

/// Taking one package out of a list takes its results out of the merged
/// results.
proof fn lemma_merged_remove(searches: Seq<PackageSearch>, at: int)
    requires
        0 <= at < searches.len(),
    ensures
        all_results(searches) == all_results(searches.remove(at)).add(
            all_results(seq![searches[at]]),
        ),
    decreases searches.len(),
{
    let n = searches.len() as int;
    if at == n - 1 {
        assert(searches.remove(at) =~= searches.drop_last());
        assert(searches.drop_last().push(searches[at]) =~= searches);
        lemma_merged_push(searches.drop_last(), searches[at]);
    } else {
        let front = searches.drop_last();
        let last = searches.last();
        lemma_merged_remove(front, at);
        assert(front.push(last) =~= searches);
        lemma_merged_push(front, last);
        assert(front.remove(at).push(last) =~= searches.remove(at));
        lemma_merged_push(front.remove(at), last);
        assert(front[at] == searches[at]);
        assert(all_results(front.remove(at)).add(all_results(seq![searches[at]])).add(
            all_results(seq![last]),
        ) =~= all_results(front.remove(at)).add(all_results(seq![last])).add(
            all_results(seq![searches[at]]),
        ));
    }
}

/// The merged results of the same packages are the same results, whatever
/// the order of the packages.
pub proof fn lemma_merged_ignores_package_order(a: Seq<PackageSearch>, b: Seq<PackageSearch>)
    requires
        a.to_multiset() == b.to_multiset(),
    ensures
        all_results(a) == all_results(b),
    decreases a.len(),
{
    a.to_multiset_ensures();
    b.to_multiset_ensures();
    if a.len() == 0 {
        assert(b.len() == 0);
        assert(a =~= b);
    } else {
        let last = a.last();
        assert(a.contains(last));
        assert(b.to_multiset().count(last) > 0);
        assert(b.contains(last));
        let at = choose|at: int| 0 <= at < b.len() && b[at] == last;
        vstd::seq_lib::to_multiset_remove(a, a.len() - 1);
        vstd::seq_lib::to_multiset_remove(b, at);
        assert(a.remove(a.len() - 1) =~= a.drop_last());
        lemma_merged_ignores_package_order(a.drop_last(), b.remove(at));
        lemma_merged_remove(a, a.len() - 1);
        lemma_merged_remove(b, at);
    }
}

/// Searching the same packages in any order gives lists that are both in
/// descending order of score and hold the same results.
pub proof fn lemma_search_ignores_package_order(a: Seq<PackageSearch>, b: Seq<PackageSearch>)
    requires
        a.to_multiset() == b.to_multiset(),
    ensures
        ranked(merged(a, a.len() as int)).to_multiset() == ranked(
            merged(b, b.len() as int),
        ).to_multiset(),
        descending(ranked(merged(a, a.len() as int))),
        descending(ranked(merged(b, b.len() as int))),
{
    lemma_merged_ignores_package_order(a, b);
    crate::ranking::lemma_ranking_ignores_arrival_order(
        merged(a, a.len() as int),
        merged(b, b.len() as int),
    );
}

/// The sum of the first `n` scores.
pub open spec fn score_sum(scores: Seq<u32>, n: int) -> int
    decreases n,
{
    if n <= 0 || n > scores.len() {
        0
    } else {
        score_sum(scores, n - 1) + scores[n - 1]
    }
}

/// Result `i` of a list in descending order of score is shown, given that
/// all before it are.
///
/// The first `min_results` are shown whatever their scores. A later one is
/// shown when fewer than `limit` were shown, its score is at least 5% of
/// the top score and at least 50% of the score before it, and the results
/// shown beyond the first `min_results` have not yet brought the sum of the
/// shown scores above 30% of the sum of all scores.
pub open spec fn is_shown(scores: Seq<u32>, min_results: int, limit: int, i: int) -> bool {
    &&& 0 <= i < scores.len()
    &&& i < min_results || {
        &&& i < limit
        &&& 20 * scores[i] >= scores[0]
        &&& i > 0 ==> 2 * scores[i] >= scores[i - 1]
        &&& i > min_results ==> 10 * score_sum(scores, i) <= 3 * score_sum(
            scores,
            scores.len() as int,
        )
    }
}

/// The number of results shown, counting from `i`: the results are shown in
/// order until one is not.
pub open spec fn shown_from(scores: Seq<u32>, min_results: int, limit: int, i: int) -> int
    decreases scores.len() - i,
{
    if is_shown(scores, min_results, limit, i) {
        shown_from(scores, min_results, limit, i + 1)
    } else {
        i
    }
}

/// The sum of the first `n` scores is at most `n` times the greatest score
/// there can be.
pub proof fn lemma_score_sum_bound(scores: Seq<u32>, n: int)
    requires
        0 <= n <= scores.len(),
    ensures
        0 <= score_sum(scores, n) <= n * 0xffff_ffff,
    decreases n,
{
    if n > 0 {
        lemma_score_sum_bound(scores, n - 1);
        assert((n - 1) * 0xffff_ffff + 0xffff_ffff == n * 0xffff_ffff) by (nonlinear_arith);
    }
}

/// Says how many of the results of a search to show: the length of the
/// beginning of the list that is displayed. `scores` are the scores of the
/// results in the order of the list, greatest first.
///
/// At least `min_results` are shown, if there are that many. After them the
/// list stops before the first result that is past `limit`, or whose score
/// is below 5% of the top score or below 50% of the score before it; and it
/// stops after a result, shown beyond the first `min_results`, with which
/// the scores shown come to more than 30% of all scores.
pub fn displayed_count(scores: &Vec<u32>, min_results: usize, limit: usize) -> (shown: usize)
    ensures
        shown == shown_from(scores@, min_results as int, limit as int, 0),
        shown <= scores.len(),
{
    let n = scores.len();
    let mut total: u128 = 0;
    let mut i: usize = 0;
    while i < n
        invariant
            n == scores.len(),
            i <= n,
            total == score_sum(scores@, i as int),
        decreases n - i,
    {
        proof {
            lemma_score_sum_bound(scores@, i as int);
            assert(i * 0xffff_ffff <= 0xffff_ffff_ffff_ffff * 0xffff_ffff) by (nonlinear_arith)
                requires
                    i <= 0xffff_ffff_ffff_ffff,
            ;
        }
        total = total + scores[i] as u128;
        i += 1;
    }
    let mut cumulative: u128 = 0;
    i = 0;
    while i < n
        invariant
            n == scores.len(),
            i <= n,
            total == score_sum(scores@, n as int),
            cumulative == score_sum(scores@, i as int),
            shown_from(scores@, min_results as int, limit as int, 0) == shown_from(
                scores@,
                min_results as int,
                limit as int,
                i as int,
            ),
        decreases n - i,
    {
        proof {
            lemma_score_sum_bound(scores@, i as int);
            lemma_score_sum_bound(scores@, n as int);
            assert(i * 0xffff_ffff <= 0xffff_ffff_ffff_ffff * 0xffff_ffff) by (nonlinear_arith)
                requires
                    i <= 0xffff_ffff_ffff_ffff,
            ;
            assert(n * 0xffff_ffff <= 0xffff_ffff_ffff_ffff * 0xffff_ffff) by (nonlinear_arith)
                requires
                    n <= 0xffff_ffff_ffff_ffff,
            ;
        }
        if i >= min_results {
            let score = scores[i] as u64;
            let top = scores[0] as u64;
            if i >= limit || 20 * score < top {
                return i;
            }
            if i > 0 && 2 * score < scores[i - 1] as u64 {
                return i;
            }
            if i > min_results && 10 * cumulative > 3 * total {
                return i;
            }
        }
        cumulative = cumulative + scores[i] as u128;
        i += 1;
    }
    n
}

/// Keeps the best `limit` of a list of suggestions: the list in descending
/// order of score, suggestions of equal score in the order in which they
/// came, cut after `limit`.
pub fn rank_suggestions(suggestions: Vec<Suggestion>, limit: usize) -> (best: Vec<Suggestion>)
    ensures
        best@ == ranked(suggestions@).take(
            if limit <= suggestions@.len() {
                limit as int
            } else {
                suggestions@.len() as int
            },
        ),
        descending(best@),
{
    let mut best = rank(suggestions);
    if limit < best.len() {
        best.truncate(limit);
    }
    assert(best@ =~= ranked(suggestions@).take(
        if limit <= suggestions@.len() {
            limit as int
        } else {
            suggestions@.len() as int
        },
    ));
    best
}

impl Navigator {
    /// Says what to do about the search index of the package asked for as
    /// `crate_name`: use the one that was built, report failure because an
    /// earlier attempt failed, or build it now.
    pub fn plan_search_index(&self, crate_name: &str) -> (r: IndexPlan)
        ensures
            r == plan_for(self.search_indexes.state(canonical(self.aliases@, crate_name@))),
    {
        let name = self.canonicalize(crate_name);
        self.search_indexes.plan(name.as_str())
    }

    /// Records the outcome of building the search index of the package
    /// asked for as `crate_name`, and returns the state that is now held
    /// for it. A state recorded before stays, so a failure is permanent.
    pub fn record_search_index(&mut self, crate_name: &str, state: IndexState) -> (r: IndexState)
        ensures
            final(self).docs == old(self).docs,
            final(self).aliases == old(self).aliases,
            r == match old(self).search_indexes.state(canonical(old(self).aliases@, crate_name@)) {
                Some(earlier) => earlier,
                None => state,
            },
            final(self).search_indexes.state(canonical(old(self).aliases@, crate_name@)) == Some(r),
            forall|other: Seq<char>|
                old(self).search_indexes.state(other) is Some ==> final(self).search_indexes.state(
                    other,
                ) == old(self).search_indexes.state(other),
    {
        let name = self.canonicalize(crate_name);
        self.search_indexes.record(name.as_str(), state)
    }

    /// Merges the results of searching several packages into one list.
    ///
    /// With no package asked, the list is empty. Where every package
    /// failed, the suggestions of the first one are the error. Otherwise
    /// the results of the packages that did not fail are ranked together:
    /// in descending order of score, results of equal score in the order of
    /// the packages and, within a package, of its own results.
    pub fn search(&self, searches: Vec<PackageSearch>) -> (r: Result<
        Vec<ScoredResult>,
        Vec<Suggestion>,
    >)
        ensures
            match r {
                Ok(list) => {
                    &&& searches@.len() == 0 || first_success(searches@, 0) is Some
                    &&& list@ == ranked(merged(searches@, searches@.len() as int))
                    &&& descending(list@)
                    &&& list@.to_multiset() == merged(
                        searches@,
                        searches@.len() as int,
                    ).to_multiset()
                },
                Err(suggestions) => {
                    &&& first_success(searches@, 0) is None
                    &&& first_failure(searches@, 0) is Some
                    &&& searches@[first_failure(searches@, 0).unwrap()].outcome == Err::<
                        Vec<Hit>,
                        Vec<Suggestion>,
                    >(suggestions)
                },
            },
    {
        let ghost all = searches@;
        let n = searches.len();
        let mut results: Vec<ScoredResult> = Vec::new();
        let mut first_error: Option<Vec<Suggestion>> = None;
        let mut any = false;
        for search in it: searches
            invariant
                it.seq() == all,
                n == all.len(),
                results@ == merged(all, it.index() as int),
                any == (first_success(all, 0) is Some) || first_success(all, 0) == first_success(
                    all,
                    it.index() as int,
                ),
                any ==> first_success(all, 0) is Some,
                !any ==> first_success(all, 0) == first_success(all, it.index() as int),
                match first_error {
                    Some(suggestions) => first_failure(all, 0) is Some && first_failure(
                        all,
                        0,
                    ).unwrap() < it.index() && all[first_failure(all, 0).unwrap()].outcome == Err::<
                        Vec<Hit>,
                        Vec<Suggestion>,
                    >(suggestions),
                    None => first_failure(all, 0) == first_failure(all, it.index() as int),
                },
        {
            let ghost at = it.index() as int;
            let ghost before = results@;
            let PackageSearch { crate_name, outcome } = search;
            match outcome {
                Ok(hits) => {
                    any = true;
                    let ghost hits_all = hits@;
                    for hit in inner: hits
                        invariant
                            inner.seq() == hits_all,
                            results@ == before + labelled(crate_name, hits_all).take(
                                inner.index() as int,
                            ),
                    {
                        let ghost so_far = results@;
                        let Hit { id_path, score } = hit;
                        results.push(
                            ScoredResult { crate_name: crate_name.clone(), id_path, score },
                        );
                        assert(results@ =~= before + labelled(crate_name, hits_all).take(
                            inner.index() + 1,
                        ));
                    }
                    assert(labelled(crate_name, hits_all).take(hits_all.len() as int)
                        =~= labelled(crate_name, hits_all));
                },
                Err(suggestions) => {
                    if first_error.is_none() {
                        first_error = Some(suggestions);
                    }
                },
            }
        }
        if !any {
            if let Some(suggestions) = first_error {
                return Err(suggestions);
            }
        }
        Ok(rank(results))
    }
}

} // verus!

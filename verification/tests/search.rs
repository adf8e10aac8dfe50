use ferritin_common::navigator::{Navigator, Suggestion};
use ferritin_common::search::{
    displayed_count, Hit, IndexPlan, IndexState, PackageSearch, ScoredResult, SearchIndexes,
};

fn hit(id: u32, score: u32) -> Hit {
    Hit { id_path: vec![0, id], score }
}

fn found(name: &str, hits: Vec<Hit>) -> PackageSearch {
    PackageSearch { crate_name: name.to_string(), outcome: Ok(hits) }
}

fn failed(name: &str, hint: &str) -> PackageSearch {
    PackageSearch {
        crate_name: name.to_string(),
        outcome: Err(vec![Suggestion {
            path: hint.to_string(),
            name: hint.to_string(),
            wanted: name.to_string(),
            score: 0,
        }]),
    }
}

fn brief(list: &[ScoredResult]) -> Vec<(&str, u32, u32)> {
    list.iter().map(|r| (r.crate_name.as_str(), r.id_path[1], r.score)).collect()
}

#[test]
fn no_package_gives_no_result() {
    let nav = Navigator::new(vec![]);
    assert!(nav.search(vec![]).unwrap().is_empty());
}

#[test]
fn results_are_merged_by_descending_score() {
    let nav = Navigator::new(vec![]);
    let list = nav
        .search(vec![
            found("a", vec![hit(1, 50), hit(2, 20), hit(3, 20)]),
            failed("b", "bb"),
            found("c", vec![hit(4, 70), hit(5, 20), hit(6, 50)]),
        ])
        .unwrap();
    // Equal scores stay in the order of the packages and of their results.
    assert_eq!(
        brief(&list),
        vec![("c", 4, 70), ("a", 1, 50), ("c", 6, 50), ("a", 2, 20), ("a", 3, 20), ("c", 5, 20)]
    );
}

#[test]
fn order_of_packages_does_not_change_what_is_found() {
    let nav = Navigator::new(vec![]);
    let one = nav
        .search(vec![found("a", vec![hit(1, 5), hit(2, 9)]), found("b", vec![hit(3, 7)])])
        .unwrap();
    let other = nav
        .search(vec![found("b", vec![hit(3, 7)]), found("a", vec![hit(1, 5), hit(2, 9)])])
        .unwrap();
    assert_eq!(brief(&one), vec![("a", 2, 9), ("b", 3, 7), ("a", 1, 5)]);
    assert_eq!(brief(&one), brief(&other));
}

#[test]
fn when_every_package_fails_the_first_suggestions_are_the_error() {
    let nav = Navigator::new(vec![]);
    let error = nav.search(vec![failed("x", "xx"), failed("y", "yy")]).unwrap_err();
    assert_eq!(error.len(), 1);
    assert_eq!(error[0].path, "xx");
    // One package that gave results, even none, is enough for success.
    let list = nav.search(vec![failed("x", "xx"), found("y", vec![])]).unwrap();
    assert!(list.is_empty());
}

#[test]
fn failure_to_build_an_index_is_permanent() {
    let mut indexes = SearchIndexes::new();
    assert_eq!(indexes.plan("missing-crate"), IndexPlan::Build);
    assert_eq!(indexes.record("missing-crate", IndexState::Failed), IndexState::Failed);
    // The second request is served from the recorded failure.
    assert_eq!(indexes.plan("missing-crate"), IndexPlan::Fail);
    assert_eq!(indexes.plan("missing_crate"), IndexPlan::Fail);
    // A later success does not replace it.
    assert_eq!(indexes.record("missing_crate", IndexState::Built(3)), IndexState::Failed);
    assert_eq!(indexes.plan("missing-crate"), IndexPlan::Fail);
    assert_eq!(indexes.slots.len(), 1);
    assert_eq!(indexes.record("other", IndexState::Built(4)), IndexState::Built(4));
    assert_eq!(indexes.plan("other"), IndexPlan::Use(4));
    assert_eq!(indexes.plan("missing-crate"), IndexPlan::Fail);
    assert_eq!(indexes.plan("third"), IndexPlan::Build);
}

#[test]
fn registry_keeps_index_states_under_canonical_names() {
    let mut nav = Navigator::new(vec![ferritin_common::navigator::Alias {
        from: "crate".to_string(),
        to: "my-crate".to_string(),
    }]);
    assert_eq!(nav.plan_search_index("crate"), IndexPlan::Build);
    assert_eq!(nav.record_search_index("crate", IndexState::Built(0)), IndexState::Built(0));
    assert_eq!(nav.plan_search_index("my_crate"), IndexPlan::Use(0));
    assert_eq!(nav.record_search_index("my-crate", IndexState::Failed), IndexState::Built(0));
    assert_eq!(nav.search_indexes.slots[0].crate_name, "my-crate");
}

#[test]
fn early_stop_heuristic_example() {
    assert_eq!(displayed_count(&vec![100, 96, 40, 38, 2], 1, 10), 2);
}

#[test]
fn display_stops_at_limit_ratio_or_share() {
    // Nothing to show.
    assert_eq!(displayed_count(&vec![], 1, 10), 0);
    // The minimum is shown whatever the scores and the limit.
    assert_eq!(displayed_count(&vec![100, 1, 1], 2, 0), 2);
    assert_eq!(displayed_count(&vec![100, 1], 5, 10), 2);
    // Past the minimum the limit holds.
    assert_eq!(displayed_count(&vec![1000, 999, 998, 997, 996, 995, 994, 993], 1, 2), 2);
    // Below 5% of the top score.
    assert_eq!(displayed_count(&vec![100, 4], 1, 10), 1);
    assert_eq!(displayed_count(&vec![100, 5], 0, 10), 1);
    // Below half of the score before.
    assert_eq!(displayed_count(&vec![100, 49], 1, 10), 1);
    assert_eq!(displayed_count(&vec![100, 50], 1, 10), 2);
    // The shown scores exceed 30% of all: one more is shown, then no more.
    assert_eq!(displayed_count(&vec![10, 10, 10, 10, 10, 10, 10, 10, 10, 10], 1, 10), 4);
    assert_eq!(displayed_count(&vec![10, 10, 10], 1, 10), 2);
    // With no minimum the first result is still held against the limit.
    assert_eq!(displayed_count(&vec![10, 10, 10], 0, 0), 0);
    // All scores zero: no ratio is undercut.
    assert_eq!(displayed_count(&vec![0, 0, 0], 1, 10), 3);
    assert_eq!(displayed_count(&vec![u32::MAX, u32::MAX], 1, 10), 2);
}

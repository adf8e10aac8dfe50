use ferritin_common::item::{
    kind_discriminator, ExternalCrate, Id, Item, ItemEnum, ItemKind, ItemSummary, MacroKind, Use,
};
use ferritin_common::navigator::{Alias, Navigator, Suggestion};
use ferritin_common::rustdoc_data::{ExternalEntry, RustdocData, SummaryEntry};
use ferritin_common::search::rank_suggestions;
use ferritin_common::traversal::Malformed;
use ferritin_common::{CrateProvenance, DocRef};

fn ids(list: &[u32]) -> Vec<Id> {
    list.iter().map(|id| Id(*id)).collect()
}

fn item(id: u32, name: &str, inner: ItemEnum) -> Item {
    Item { id: Id(id), name: Some(name.to_string()), docs: None, inner }
}

fn module(id: u32, name: &str, items: &[u32]) -> Item {
    item(id, name, ItemEnum::Module { items: ids(items) })
}

fn structure(id: u32, name: &str, impls: &[u32]) -> Item {
    item(id, name, ItemEnum::Struct { fields: vec![], impls: ids(impls) })
}

fn implementation(id: u32, items: &[u32]) -> Item {
    Item { id: Id(id), name: None, docs: None, inner: ItemEnum::Impl { items: ids(items) } }
}

fn re_export(id: u32, name: &str, target: u32) -> Item {
    Item {
        id: Id(id),
        name: None,
        docs: None,
        inner: ItemEnum::Use(Use { name: name.to_string(), id: Some(Id(target)), is_glob: false }),
    }
}

fn summary_in(crate_id: u32, id: u32, path: &[&str], kind: ItemKind) -> SummaryEntry {
    SummaryEntry {
        id: Id(id),
        summary: ItemSummary {
            crate_id,
            path: path.iter().map(|s| s.to_string()).collect(),
            kind,
        },
    }
}

fn summary(id: u32, path: &[&str], kind: ItemKind) -> SummaryEntry {
    summary_in(0, id, path, kind)
}

fn document(name: &str, index: Vec<Item>, paths: Vec<SummaryEntry>) -> RustdocData {
    RustdocData::new(
        name.to_string(),
        CrateProvenance::DocsRs,
        String::new(),
        None,
        Id(0),
        index,
        paths,
        vec![],
    )
}

/// A package with a struct, a trait, a function, a module with a struct
/// that has a method, a constant, a static, an enum, a module in which a
/// module and a function share a name, and a struct that is defined in a
/// private module and re-exported at the root.
fn fixture_crate() -> RustdocData {
    let index = vec![
        module(0, "fixture_crate", &[1, 2, 3, 4, 5, 6, 7, 8, 30]),
        structure(1, "TestStruct", &[]),
        item(2, "TestTrait", ItemEnum::Trait { items: vec![] }),
        item(3, "test_function", ItemEnum::Function),
        module(4, "submodule", &[9]),
        item(5, "TEST_CONSTANT", ItemEnum::Constant),
        item(6, "TEST_STATIC", ItemEnum::Static),
        item(7, "GenericEnum", ItemEnum::Enum { variants: vec![], impls: vec![] }),
        module(8, "namespace_collisions", &[11, 12]),
        structure(9, "SubStruct", &[40]),
        item(10, "new", ItemEnum::Function),
        module(11, "both", &[]),
        item(12, "both", ItemEnum::Function),
        structure(20, "ReachableViaPrivateModule", &[41]),
        item(21, "private_module_method", ItemEnum::Function),
        re_export(30, "ReachableViaPrivateModule", 20),
        implementation(40, &[10]),
        implementation(41, &[21]),
    ];
    let paths = vec![
        summary(0, &["fixture_crate"], ItemKind::Module),
        summary(1, &["fixture_crate", "TestStruct"], ItemKind::Struct),
        summary(2, &["fixture_crate", "TestTrait"], ItemKind::Trait),
        summary(3, &["fixture_crate", "test_function"], ItemKind::Function),
        summary(4, &["fixture_crate", "submodule"], ItemKind::Module),
        summary(5, &["fixture_crate", "TEST_CONSTANT"], ItemKind::Constant),
        summary(6, &["fixture_crate", "TEST_STATIC"], ItemKind::Static),
        summary(7, &["fixture_crate", "GenericEnum"], ItemKind::Enum),
        summary(8, &["fixture_crate", "namespace_collisions"], ItemKind::Module),
        summary(9, &["fixture_crate", "submodule", "SubStruct"], ItemKind::Struct),
        summary(11, &["fixture_crate", "namespace_collisions", "both"], ItemKind::Module),
        summary(12, &["fixture_crate", "namespace_collisions", "both"], ItemKind::Function),
        summary(
            20,
            &["fixture_crate", "private_detail", "ReachableViaPrivateModule"],
            ItemKind::Struct,
        ),
    ];
    RustdocData::new(
        "fixture-crate".to_string(),
        CrateProvenance::Workspace,
        "target/doc/fixture_crate.json".to_string(),
        Some("0.1.0".to_string()),
        Id(0),
        index,
        paths,
        vec![ExternalEntry {
            crate_id: 1,
            krate: ExternalCrate {
                name: "serde".to_string(),
                html_root_url: Some("https://docs.rs/serde/1.0.195/".to_string()),
            },
        }],
    )
}

fn test_navigator() -> Navigator {
    let mut nav = Navigator::new(vec![Alias {
        from: "crate".to_string(),
        to: "fixture-crate".to_string(),
    }]);
    assert!(nav.insert(fixture_crate()));
    nav
}

/// Resolve a path, panicking with a helpful message on failure.
fn resolve<'a>(nav: &'a Navigator, path: &str) -> DocRef<'a, Item> {
    match nav.resolve_path(path, &mut vec![]) {
        Some(found) => found,
        None => panic!("failed to resolve {path:?}"),
    }
}

/// `discriminated_path()` produces the expected string.
#[test]
fn discriminated_path_values() {
    let nav = test_navigator();
    // The first segment is the name under which the registry holds the
    // document ("fixture-crate" with a dash, not an underscore).
    let cases = [
        ("crate::TestStruct", "fixture-crate::struct@TestStruct"),
        ("crate::TestTrait", "fixture-crate::trait@TestTrait"),
        ("crate::test_function", "fixture-crate::fn@test_function"),
        ("crate::submodule", "fixture-crate::mod@submodule"),
        ("crate::TEST_CONSTANT", "fixture-crate::const@TEST_CONSTANT"),
        ("crate::TEST_STATIC", "fixture-crate::static@TEST_STATIC"),
        ("crate::GenericEnum", "fixture-crate::enum@GenericEnum"),
        (
            "crate::namespace_collisions",
            "fixture-crate::mod@namespace_collisions",
        ),
    ];

    for (path, expected_disc) in cases {
        let item = resolve(&nav, path);
        let disc = match item.discriminated_path() {
            Some(disc) => disc,
            None => panic!("no discriminated_path for {path:?}"),
        };
        assert_eq!(disc, expected_disc, "wrong discriminated_path for {path:?}");
    }
}

/// `discriminated_path()` then `resolve_path()` returns the same item.
#[test]
fn discriminated_path_round_trips() {
    let nav = test_navigator();
    let paths = [
        "crate::TestStruct",
        "crate::TestTrait",
        "crate::test_function",
        "crate::submodule",
        "crate::TEST_CONSTANT",
        "crate::GenericEnum",
        "crate::submodule::SubStruct",
        "crate::namespace_collisions",
    ];

    for path in paths {
        let item = resolve(&nav, path);
        let disc_path = match item.discriminated_path() {
            Some(disc) => disc,
            None => panic!("no discriminated_path for {path:?}"),
        };
        let round_tripped = match nav.resolve_path(&disc_path, &mut vec![]) {
            Some(found) => found,
            None => panic!("discriminated path {disc_path:?} failed to resolve"),
        };
        assert_eq!(
            item, round_tripped,
            "round-trip mismatch for {path:?} (discriminated: {disc_path:?})"
        );
    }
}

/// Methods have no path summary, so `discriminated_path()` falls back to
/// the parent that the walk recorded.
#[test]
fn discriminated_path_round_trips_method() {
    let nav = test_navigator();
    let item = resolve(&nav, "crate::submodule::SubStruct::new");
    let disc_path = item
        .discriminated_path()
        .expect("discriminated_path should work for methods once the upstream bug is fixed");
    assert_eq!(disc_path, "fixture-crate::submodule::SubStruct::fn@new");
    let round_tripped = match nav.resolve_path(&disc_path, &mut vec![]) {
        Some(found) => found,
        None => panic!("discriminated path {disc_path:?} failed to resolve"),
    };
    assert_eq!(item, round_tripped);
}

/// A discriminator selects the right item when a module and a function
/// share a name.
#[test]
fn discriminator_resolves_module_function_collision() {
    let nav = test_navigator();

    let by_mod = resolve(&nav, "crate::namespace_collisions::mod@both");
    let by_fn = resolve(&nav, "crate::namespace_collisions::fn@both");

    assert_eq!(
        by_mod.kind(),
        ItemKind::Module,
        "mod@both should be a module"
    );
    assert_eq!(
        by_fn.kind(),
        ItemKind::Function,
        "fn@both should be a function"
    );
    assert_ne!(
        by_mod, by_fn,
        "mod@both and fn@both should be different items"
    );
}

/// A discriminated path round-trips for both sides of a module-function
/// collision.
#[test]
fn discriminated_path_round_trips_through_collision() {
    let nav = test_navigator();

    for disc_path in [
        "fixture-crate::namespace_collisions::mod@both",
        "fixture-crate::namespace_collisions::fn@both",
    ] {
        let item = match nav.resolve_path(disc_path, &mut vec![]) {
            Some(found) => found,
            None => panic!("failed to resolve {disc_path:?}"),
        };
        let generated = match item.discriminated_path() {
            Some(disc) => disc,
            None => panic!("no discriminated_path for {disc_path:?}"),
        };
        assert_eq!(
            generated, disc_path,
            "discriminated_path should reproduce the qualified path"
        );
    }
}

/// A method on a struct in a private module round-trips: the method has no
/// path summary, and its parent's summary path goes through a module that
/// the tree does not show, so the parent is found through the reverse index
/// and the method by a walk from there.
#[test]
fn discriminated_path_round_trips_method_on_private_module_struct() {
    let nav = test_navigator();

    // Resolve through the public re-export, which records the parent.
    let struct_item = resolve(&nav, "crate::ReachableViaPrivateModule");
    let method = struct_item
        .child_items()
        .into_iter()
        .find(|c| c.name() == Some("private_module_method"))
        .expect("private_module_method not found");

    let disc = method
        .discriminated_path()
        .expect("discriminated_path should work: parent was set during child_items traversal");

    // The path goes through the private module, as the parent's summary does.
    assert_eq!(
        disc,
        "fixture-crate::private_detail::ReachableViaPrivateModule::fn@private_module_method"
    );

    let round_tripped = match nav.resolve_path(&disc, &mut vec![]) {
        Some(found) => found,
        None => panic!("failed to resolve discriminated path {disc:?}"),
    };

    assert_eq!(method, round_tripped);
}

/// Items that live behind a private module are reachable through the
/// reverse index.
#[test]
fn private_module_path_resolves_via_index() {
    let nav = test_navigator();

    // The public re-export is reached by the walk down the tree.
    let via_reexport = resolve(&nav, "crate::ReachableViaPrivateModule");

    // The path through the private module fails the walk and is found in
    // the index.
    let via_private_path = resolve(
        &nav,
        "fixture-crate::private_detail::ReachableViaPrivateModule",
    );

    assert_eq!(via_reexport.kind(), ItemKind::Struct, "should be a struct");
    assert_eq!(
        via_reexport, via_private_path,
        "re-export and private-module path should resolve to the same item"
    );
}

#[test]
fn method_under_a_collided_parent_is_written_below_the_qualified_parent() {
    // A struct and a function share the path `pkg::both`; the struct has a
    // method without a summary.
    let index = vec![
        module(0, "pkg", &[1, 2]),
        structure(1, "both", &[4]),
        item(2, "both", ItemEnum::Function),
        item(3, "make", ItemEnum::Function),
        implementation(4, &[3]),
    ];
    let paths = vec![
        summary(0, &["pkg"], ItemKind::Module),
        summary(1, &["pkg", "both"], ItemKind::Struct),
        summary(2, &["pkg", "both"], ItemKind::Function),
    ];
    let mut nav = Navigator::new(vec![]);
    assert!(nav.insert(document("pkg", index, paths)));
    let method = resolve(&nav, "pkg::struct@both")
        .find_child("make")
        .expect("the method is a child of the struct");
    let disc = method.discriminated_path().expect("the parent is recorded");
    assert_eq!(disc, "pkg::struct@both::fn@make");
    assert_eq!(resolve(&nav, &disc), method);
    // Without a discriminator the first item of that name is met.
    assert_eq!(resolve(&nav, "pkg::both").kind(), ItemKind::Struct);
    assert_eq!(resolve(&nav, "pkg::fn@both").kind(), ItemKind::Function);
    // Looked up by id, the method has no parent and so no path.
    let bare = nav.docs[0].get(&nav, &Id(3)).expect("the item is there");
    assert_eq!(bare.discriminated_path(), None);
    assert_eq!(bare, method);
}

#[test]
fn reverse_index_has_both_kinds_of_keys() {
    let doc = fixture_crate();
    assert_eq!(doc.lookup_path("TestStruct"), Some(Id(1)));
    assert_eq!(doc.lookup_path("struct@TestStruct"), Some(Id(1)));
    assert_eq!(doc.lookup_path("submodule::struct@SubStruct"), Some(Id(9)));
    assert_eq!(doc.lookup_path("submodule::SubStruct"), Some(Id(9)));
    // A path that two items share has no unqualified key.
    assert_eq!(doc.lookup_path("namespace_collisions::both"), None);
    assert_eq!(doc.lookup_path("namespace_collisions::mod@both"), Some(Id(11)));
    assert_eq!(doc.lookup_path("namespace_collisions::fn@both"), Some(Id(12)));
    // The root, whose path is the package name alone, is not indexed.
    assert_eq!(doc.lookup_path(""), None);
    assert_eq!(doc.lookup_path("fixture_crate"), None);
    // Methods have no summary and so no key.
    assert_eq!(doc.lookup_path("submodule::SubStruct::new"), None);
    assert_eq!(doc.path_to_id.len(), 12 + 10);

}

#[test]
fn summaries_of_other_packages_are_not_indexed() {
    let doc = document(
        "pkg",
        vec![module(0, "pkg", &[])],
        vec![
            summary(0, &["pkg"], ItemKind::Module),
            summary_in(1, 7, &["other", "Thing"], ItemKind::Struct),
        ],
    );
    assert!(doc.path_to_id.is_empty());
    assert_eq!(doc.path(&Id(7)).map(|p| p.to_string()), Some("other::Thing".to_string()));
    assert_eq!(doc.path(&Id(8)).map(|p| p.to_string()), None);
}

#[test]
fn unknown_package_or_path_is_not_found() {
    let nav = test_navigator();
    let mut suggestions = vec![];
    assert!(nav.resolve_path("nothing::here", &mut suggestions).is_none());
    assert!(suggestions.is_empty());
    assert!(nav.resolve_path("crate::submodule::Missing", &mut suggestions).is_none());
    let offered: Vec<&str> = suggestions.iter().map(|s| s.path.as_str()).collect();
    assert_eq!(offered, vec!["crate::submodule::SubStruct"]);
    assert_eq!(suggestions[0].name, "SubStruct");
    assert_eq!(suggestions[0].wanted, "Missing");
    assert_eq!(suggestions[0].score, 0);
}

#[test]
fn suggestions_come_from_the_deepest_item_reached() {
    let nav = test_navigator();
    let mut suggestions = vec![];
    assert!(nav.resolve_path("fixture_crate::TestStruc", &mut suggestions).is_none());
    assert_eq!(suggestions.len(), 9);
    assert_eq!(suggestions[0].path, "fixture_crate::TestStruct");
    assert_eq!(suggestions[8].path, "fixture_crate::ReachableViaPrivateModule");
    // A found path leaves the list as it was.
    assert!(nav.resolve_path("crate::TestStruct", &mut suggestions).is_some());
    assert_eq!(suggestions.len(), 9);
}

#[test]
fn best_suggestions_are_kept_in_order_of_score() {
    let scored = |path: &str, score: u32| Suggestion {
        path: path.to_string(),
        name: path.to_string(),
        wanted: "x".to_string(),
        score,
    };
    let ranked = rank_suggestions(
        vec![scored("a", 3), scored("b", 9), scored("c", 3), scored("d", 1), scored("e", 9)],
        3,
    );
    let paths: Vec<&str> = ranked.iter().map(|s| s.path.as_str()).collect();
    assert_eq!(paths, vec!["b", "e", "a"]);
    assert!(rank_suggestions(vec![], 5).is_empty());
    assert_eq!(rank_suggestions(vec![scored("a", 1)], 5).len(), 1);
    assert!(rank_suggestions(vec![scored("a", 1)], 0).is_empty());
}

#[test]
fn package_alone_resolves_to_its_root() {
    let nav = test_navigator();
    let root = resolve(&nav, "crate");
    assert_eq!(root.kind(), ItemKind::Module);
    assert_eq!(root.name(), Some("fixture_crate"));
    assert_eq!(resolve(&nav, "fixture_crate"), root);
    assert_eq!(resolve(&nav, "fixture-crate"), root);
    // The root's own path names the package twice and does not resolve.
    assert_eq!(
        root.discriminated_path(),
        Some("fixture-crate::mod@fixture_crate".to_string())
    );
    assert!(nav.resolve_path("fixture-crate::mod@fixture_crate", &mut vec![]).is_none());
}

#[test]
fn first_document_under_a_name_stays() {
    let mut nav = test_navigator();
    let mut second = fixture_crate();
    second.name = "fixture_crate".to_string();
    second.root = Id(1);
    assert!(!nav.insert(second));
    assert_eq!(nav.docs.len(), 1);
    assert_eq!(nav.load_crate("fixture_crate").map(|d| d.root), Some(Id(0)));
    // A document under another name of a different package is refused.
    let mut aliased = fixture_crate();
    aliased.name = "crate".to_string();
    assert!(!nav.insert(aliased));
    assert!(nav.load_crate("serde").is_none());
    assert_eq!(nav.canonicalize("crate").as_str(), "fixture-crate");
    assert_eq!(nav.canonicalize("serde").as_str(), "serde");
}

#[test]
fn renamed_children_are_met_under_their_new_name() {
    let index = vec![
        module(0, "pkg", &[2, 9]),
        structure(1, "Hidden", &[]),
        re_export(2, "Public", 1),
    ];
    let doc = document(
        "pkg",
        index,
        vec![summary(1, &["pkg", "inner", "Hidden"], ItemKind::Struct)],
    );
    let mut nav = Navigator::new(vec![]);
    assert!(nav.insert(doc));
    let root = resolve(&nav, "pkg");
    // A member that the document does not hold gives no child.
    assert_eq!(root.child_items().len(), 1);
    assert!(root.find_child("Hidden").is_none());
    let public = root.find_child("Public").expect("met under the new name");
    if let ItemEnum::Use(import) = &nav.docs[0].index[2].inner {
        assert_eq!(public.build_ref(import).use_name(), "Public");
        assert_eq!(public.build_ref(import).with_name("Other").use_name(), "Other");
    } else {
        panic!("the third item is the re-export");
    }
    assert_eq!(public.name(), Some("Public"));
    assert_eq!(public.kind(), ItemKind::Struct);
    assert_eq!(public.discriminated_path(), Some("pkg::inner::struct@Hidden".to_string()));
    assert_eq!(resolve(&nav, "pkg::inner::Hidden"), public);
    assert_eq!(
        root.find_by_path(&vec!["Public".to_string()]).map(|h| h.item().id),
        Some(Id(1))
    );
    assert!(root.find_by_path(&vec!["Public".to_string(), "x".to_string()]).is_none());
    assert_eq!(root.find_by_path(&vec![]).map(|h| h.item().id), Some(Id(0)));
}

#[test]
fn members_of_types_are_fields_variants_and_methods() {
    let index = vec![
        module(0, "pkg", &[1, 5, 9]),
        item(1, "Shape", ItemEnum::Enum { variants: ids(&[2]), impls: ids(&[3, 77, 1]) }),
        item(2, "Round", ItemEnum::Variant { fields: ids(&[8]) }),
        implementation(3, &[4]),
        item(4, "area", ItemEnum::Function),
        item(5, "Pair", ItemEnum::Union { fields: ids(&[6]), impls: vec![] }),
        item(6, "left", ItemEnum::StructField),
        item(8, "radius", ItemEnum::StructField),
        item(9, "Draw", ItemEnum::Trait { items: ids(&[10]) }),
        item(10, "Canvas", ItemEnum::AssocType),
    ];
    let mut nav = Navigator::new(vec![]);
    assert!(nav.insert(document("pkg", index, vec![])));
    let names = |path: &str| -> Vec<String> {
        resolve(&nav, path)
            .child_items()
            .iter()
            .map(|c| c.name().unwrap_or("?").to_string())
            .collect()
    };
    // Variants come first, then the members of the implementations; an
    // implementation that is missing, or an id that is none, adds nothing.
    assert_eq!(names("pkg::Shape"), vec!["Round", "area"]);
    assert_eq!(names("pkg::Shape::Round"), vec!["radius"]);
    assert_eq!(names("pkg::Pair"), vec!["left"]);
    assert_eq!(names("pkg::Draw"), vec!["Canvas"]);
    assert_eq!(names("pkg::Shape::area"), Vec::<String>::new());
    assert_eq!(resolve(&nav, "pkg::Draw::type@Canvas").kind(), ItemKind::AssocType);
    assert_eq!(resolve(&nav, "pkg::Shape::variant@Round").kind(), ItemKind::Variant);
    assert!(nav.resolve_path("pkg::Shape::fn@Round", &mut vec![]).is_none());
    let area = resolve(&nav, "pkg::Shape::area");
    // Nothing in this document has a summary: the method has a parent but
    // the parent has no path.
    assert_eq!(area.discriminated_path(), None);
}

#[test]
fn re_export_of_all_members_brings_them_in() {
    let index = vec![
        module(0, "pkg", &[1, 2]),
        Item {
            id: Id(1),
            name: None,
            docs: None,
            inner: ItemEnum::Use(Use {
                name: "inner".to_string(),
                id: Some(Id(3)),
                is_glob: true,
            }),
        },
        Item {
            id: Id(2),
            name: None,
            docs: None,
            inner: ItemEnum::Use(Use { name: "gone".to_string(), id: None, is_glob: false }),
        },
        module(3, "inner", &[4, 5, 6]),
        item(4, "first", ItemEnum::Function),
        re_export(5, "again", 4),
        item(6, "second", ItemEnum::Static),
    ];
    let mut nav = Navigator::new(vec![]);
    assert!(nav.insert(document("pkg", index, vec![])));
    let root = resolve(&nav, "pkg");
    let children: Vec<u32> = root.child_items().iter().map(|c| c.item().id.0).collect();
    // The module itself is not among the root's members, its members are;
    // a re-export of one item among them gives that item under its name.
    assert_eq!(children, vec![4, 4, 6]);
    assert_eq!(resolve(&nav, "pkg::second").kind(), ItemKind::Static);
    assert!(nav.resolve_path("pkg::inner", &mut vec![]).is_none());
    assert_eq!(resolve(&nav, "pkg::again"), resolve(&nav, "pkg::first"));
    assert_eq!(resolve(&nav, "pkg::again").name(), Some("again"));
}

#[test]
fn re_export_of_an_item_of_another_package_is_followed() {
    // `outer` re-exports the module `deep` of `base`, which it knows as
    // its external package 1.
    let base = document(
        "base",
        vec![module(0, "base", &[1]), module(1, "deep", &[2]), structure(2, "Thing", &[])],
        vec![
            summary(1, &["base", "deep"], ItemKind::Module),
            summary(2, &["base", "deep", "Thing"], ItemKind::Struct),
        ],
    );
    let mut outer = document(
        "outer",
        vec![module(0, "outer", &[1]), re_export(1, "deep", 50), re_export(2, "lost", 51)],
        vec![
            summary_in(1, 50, &["base", "deep"], ItemKind::Module),
            summary_in(2, 51, &["lost", "deep"], ItemKind::Module),
        ],
    );
    outer.external_crates = vec![
        ExternalEntry {
            crate_id: 1,
            krate: ExternalCrate { name: "base".to_string(), html_root_url: None },
        },
        ExternalEntry {
            crate_id: 2,
            krate: ExternalCrate { name: "lost".to_string(), html_root_url: None },
        },
    ];
    let mut nav = Navigator::new(vec![]);
    assert!(nav.insert(outer));
    // While the other package is not held, the re-export leads nowhere.
    assert!(nav.resolve_path("outer::deep", &mut vec![]).is_none());
    assert!(nav.insert(base));
    let thing = resolve(&nav, "outer::deep::Thing");
    assert_eq!(thing.crate_docs().name, "base");
    assert_eq!(thing.kind(), ItemKind::Struct);
    assert_eq!(thing, resolve(&nav, "base::deep::Thing"));
    assert_ne!(resolve(&nav, "outer"), resolve(&nav, "base"));
    // The canonical path is that of the item's own package.
    assert_eq!(thing.discriminated_path(), Some("base::deep::struct@Thing".to_string()));
    let deep = resolve(&nav, "outer::deep");
    assert_eq!(deep.crate_docs().name, "base");
    assert_eq!(deep.discriminated_path(), Some("base::mod@deep".to_string()));
}

#[test]
fn kinds_and_discriminators() {
    let kind_of = |inner: ItemEnum| item(0, "x", inner).kind();
    assert_eq!(kind_of(ItemEnum::ProcMacro(MacroKind::Attr)), ItemKind::ProcAttribute);
    assert_eq!(kind_of(ItemEnum::ProcMacro(MacroKind::Derive)), ItemKind::ProcDerive);
    assert_eq!(kind_of(ItemEnum::ProcMacro(MacroKind::Bang)), ItemKind::Macro);
    assert_eq!(kind_of(ItemEnum::Macro), ItemKind::Macro);
    assert_eq!(kind_of(ItemEnum::AssocConst), ItemKind::AssocConst);
    assert_eq!(kind_discriminator(ItemKind::Module), "mod");
    assert_eq!(kind_discriminator(ItemKind::TypeAlias), "tyalias");
    assert_eq!(kind_discriminator(ItemKind::AssocType), "type");
    assert_eq!(kind_discriminator(ItemKind::Constant), "const");
    assert_eq!(kind_discriminator(ItemKind::AssocConst), "const");
    assert_eq!(kind_discriminator(ItemKind::Function), "fn");
    assert_eq!(kind_discriminator(ItemKind::ProcAttribute), "attr");
    assert_eq!(kind_discriminator(ItemKind::Impl), "item");
    assert_eq!(kind_discriminator(ItemKind::Use), "item");
    assert_eq!(kind_discriminator(ItemKind::Primitive), "prim");
}

#[test]
fn a_document_that_does_not_hold_together_is_reported() {
    assert_eq!(fixture_crate().check(), Ok(()));
    // The root is missing.
    let mut rootless = fixture_crate();
    rootless.root = Id(99);
    assert_eq!(rootless.check(), Err(Malformed::MissingRoot));
    assert!(nav_with(rootless).resolve_path("fixture-crate", &mut vec![]).is_none());
    // A member is named that the document knows nothing of.
    let dangling = document(
        "pkg",
        vec![module(0, "pkg", &[1, 7, 8]), structure(1, "S", &[9])],
        vec![summary_in(1, 7, &["other", "T"], ItemKind::Struct)],
    );
    // 7 has a path summary, 8 has nothing.
    assert_eq!(dangling.check(), Err(Malformed::MissingItem(Id(8))));
    let absent_target = document(
        "pkg",
        vec![module(0, "pkg", &[1]), re_export(1, "gone", 5)],
        vec![],
    );
    assert_eq!(absent_target.check(), Err(Malformed::MissingItem(Id(5))));
    // The walk goes on past what is missing.
    let nav = nav_with(dangling);
    assert_eq!(resolve(&nav, "pkg::S").kind(), ItemKind::Struct);
    assert!(resolve(&nav, "pkg::S").child_items().is_empty());
}

fn nav_with(doc: RustdocData) -> Navigator {
    let mut nav = Navigator::new(vec![]);
    assert!(nav.insert(doc));
    nav
}

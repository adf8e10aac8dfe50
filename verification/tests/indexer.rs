use ferritin_common::item::{Id, Item, ItemEnum, Use};
use ferritin_common::navigator::Navigator;
use ferritin_common::rustdoc_data::RustdocData;
use ferritin_common::search::indexer::{tokenize, Posting, SearchIndex};
use ferritin_common::CrateProvenance;

fn item(id: u32, name: &str, docs: &str, inner: ItemEnum) -> Item {
    Item { id: Id(id), name: Some(name.to_string()), docs: Some(docs.to_string()), inner }
}

fn document(name: &str, root: u32, index: Vec<Item>) -> RustdocData {
    RustdocData::new(
        name.to_string(),
        CrateProvenance::Workspace,
        String::new(),
        None,
        Id(root),
        index,
        vec![],
        vec![],
    )
}

#[test]
fn text_is_split_into_lower_case_terms() {
    assert_eq!(tokenize("test_function"), vec!["test", "function"]);
    assert_eq!(tokenize("TestStruct"), vec!["test", "struct"]);
    assert_eq!(tokenize("HTTPServer2Go"), vec!["httpserver2", "go"]);
    assert_eq!(tokenize("  Returns the `Vec<T>`!  "), vec!["returns", "the", "vec", "t"]);
    assert_eq!(tokenize("a1B2"), vec!["a1", "b2"]);
    assert_eq!(tokenize("x"), vec!["x"]);
    assert_eq!(tokenize("naïve Ünïcode"), vec!["na", "ve", "n", "code"]);
    assert!(tokenize("").is_empty());
    assert!(tokenize("- :: -").is_empty());
}

#[test]
fn index_counts_terms_by_item_and_field() {
    let mut index = SearchIndex::new();
    assert_eq!(index.add(vec![0, 1], "parse_path", "Parse a path. The path may be empty."), Some(0));
    assert_eq!(index.add(vec![0, 2], "Path", ""), Some(1));
    assert_eq!(index.add(vec![0, 3], "", "no name"), Some(2));
    assert_eq!(index.items.len(), 3);
    assert_eq!(index.items[0].id_path, vec![0, 1]);
    assert_eq!(index.items[0].length, 10);
    assert_eq!(index.items[1].length, 1);
    assert_eq!(index.items[2].length, 2);
    assert_eq!(
        index.postings("path"),
        Some(&vec![
            Posting { doc: 0, in_name: 1, in_docs: 2 },
            Posting { doc: 1, in_name: 1, in_docs: 0 },
        ])
    );
    assert_eq!(index.postings("parse"), Some(&vec![Posting { doc: 0, in_name: 1, in_docs: 1 }]));
    assert_eq!(index.postings("name"), Some(&vec![Posting { doc: 2, in_name: 0, in_docs: 1 }]));
    assert_eq!(index.postings("Path"), None);
    assert_eq!(index.postings("missing"), None);
    assert_eq!(index.term_position("parse"), Some(0));
    assert_eq!(index.term_position("the"), Some(3));
}

#[test]
fn index_of_a_document_holds_what_a_walk_reaches_once() {
    // The module `inner` re-exports the root, so the walk comes back to
    // items that it has met; `stray` is below nothing.
    let index = vec![
        item(0, "pkg", "The package.", ItemEnum::Module { items: vec![Id(1), Id(2), Id(9)] }),
        item(1, "inner", "", ItemEnum::Module { items: vec![Id(3), Id(4)] }),
        item(2, "parse_path", "Parse a path.", ItemEnum::Function),
        Item {
            id: Id(3),
            name: None,
            docs: None,
            inner: ItemEnum::Use(Use { name: "up".to_string(), id: Some(Id(0)), is_glob: false }),
        },
        item(4, "Path", "A path.", ItemEnum::Struct { fields: vec![], impls: vec![] }),
        item(7, "stray", "Never met.", ItemEnum::Function),
    ];
    let mut nav = Navigator::new(vec![]);
    assert!(nav.insert(document("pkg", 0, index)));
    let built = SearchIndex::build(&nav, &nav.docs[0]).expect("the document is small");
    let paths: Vec<&[u32]> = built.items.iter().map(|i| i.id_path.as_slice()).collect();
    // What was met last is taken first.
    assert_eq!(paths, vec![&[0][..], &[0, 2], &[0, 1], &[0, 1, 4]]);
    assert_eq!(built.items[0].length, 3);
    assert_eq!(
        built.postings("path"),
        Some(&vec![
            Posting { doc: 1, in_name: 1, in_docs: 1 },
            Posting { doc: 3, in_name: 1, in_docs: 1 },
        ])
    );
    assert_eq!(built.postings("package"), Some(&vec![Posting { doc: 0, in_name: 0, in_docs: 1 }]));
    assert_eq!(built.postings("stray"), None);
    assert_eq!(built.postings("up"), None);
}

#[test]
fn index_of_a_document_without_its_root_is_empty() {
    let mut nav = Navigator::new(vec![]);
    assert!(nav.insert(document("pkg", 5, vec![item(0, "pkg", "", ItemEnum::Function)])));
    let built = SearchIndex::build(&nav, &nav.docs[0]).expect("the document is small");
    assert!(built.items.is_empty());
    assert!(built.terms.is_empty());
}

#[test]
fn items_of_other_packages_are_left_to_their_own_index() {
    let base = document("base", 0, vec![
        item(0, "base", "", ItemEnum::Module { items: vec![Id(1)] }),
        item(1, "Thing", "", ItemEnum::Function),
    ]);
    let mut outer = document("outer", 0, vec![
        item(0, "outer", "", ItemEnum::Module { items: vec![Id(1)] }),
        Item {
            id: Id(1),
            name: None,
            docs: None,
            inner: ItemEnum::Use(Use { name: "Thing".to_string(), id: Some(Id(50)), is_glob: false }),
        },
    ]);
    outer.paths = vec![ferritin_common::rustdoc_data::SummaryEntry {
        id: Id(50),
        summary: ferritin_common::item::ItemSummary {
            crate_id: 1,
            path: vec!["base".to_string(), "Thing".to_string()],
            kind: ferritin_common::item::ItemKind::Function,
        },
    }];
    outer.external_crates = vec![ferritin_common::rustdoc_data::ExternalEntry {
        crate_id: 1,
        krate: ferritin_common::item::ExternalCrate {
            name: "base".to_string(),
            html_root_url: None,
        },
    }];
    let mut nav = Navigator::new(vec![]);
    assert!(nav.insert(outer));
    assert!(nav.insert(base));
    assert_eq!(nav.docs[0].root_item(&nav).unwrap().child_items().len(), 1);
    let built = SearchIndex::build(&nav, &nav.docs[0]).unwrap();
    assert_eq!(built.items.len(), 1);
    let built = SearchIndex::build(&nav, &nav.docs[1]).unwrap();
    assert_eq!(built.items.len(), 2);
}

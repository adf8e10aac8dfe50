use ferritin_common::external::{exact_requirement, parse_docsrs_url};
use ferritin_common::item::{ExternalCrate, Id, Item, ItemEnum, ItemKind, ItemSummary};
use ferritin_common::navigator::Navigator;
use ferritin_common::rustdoc_data::{ExternalEntry, RustdocData, SummaryEntry};
use ferritin_common::{CrateProvenance, DocRef};

fn document(name: &str, externals: Vec<ExternalEntry>, paths: Vec<SummaryEntry>) -> RustdocData {
    let root = Item {
        id: Id(0),
        name: Some(name.to_string()),
        docs: None,
        inner: ItemEnum::Module { items: vec![Id(1)] },
    };
    let thing = Item {
        id: Id(1),
        name: Some("Thing".to_string()),
        docs: None,
        inner: ItemEnum::Struct { fields: vec![], impls: vec![] },
    };
    RustdocData::new(
        name.to_string(),
        CrateProvenance::DocsRs,
        String::new(),
        None,
        Id(0),
        vec![root, thing],
        paths,
        externals,
    )
}

fn external(id: u32, name: &str, url: Option<&str>) -> ExternalEntry {
    ExternalEntry {
        crate_id: id,
        krate: ExternalCrate { name: name.to_string(), html_root_url: url.map(|u| u.to_string()) },
    }
}

#[test]
fn address_names_package_and_version() {
    assert_eq!(
        parse_docsrs_url("https://docs.rs/serde/1.0.195/"),
        Some(("serde".to_string(), "1.0.195".to_string()))
    );
    assert_eq!(
        parse_docsrs_url("https://docs.rs/serde/1.0.195/serde/de/index.html"),
        Some(("serde".to_string(), "1.0.195".to_string()))
    );
    assert_eq!(
        parse_docsrs_url("https://docs.rs/serde/latest"),
        Some(("serde".to_string(), "latest".to_string()))
    );
    assert_eq!(parse_docsrs_url("https://docs.rs/serde/"), Some(("serde".to_string(), String::new())));
    assert_eq!(parse_docsrs_url("https://docs.rs/serde"), None);
    assert_eq!(parse_docsrs_url("https://docs.rs/"), None);
    assert_eq!(parse_docsrs_url("https://doc.rust-lang.org/nightly/"), None);
    assert_eq!(parse_docsrs_url("http"), None);
    assert_eq!(parse_docsrs_url(""), None);
}

#[test]
fn requirement_is_exact_or_any() {
    assert_eq!(exact_requirement("1.0.195"), "=1.0.195");
    // The requirement is written as the version library writes it, not as
    // it was read.
    assert_eq!(exact_requirement(" 1.2.3 "), "=1.2.3");
    assert_eq!(exact_requirement("1.2"), "=1.2");
    assert_eq!(exact_requirement("latest"), "*");
    assert_eq!(exact_requirement(""), "*");
}

#[test]
fn external_package_is_named_by_its_address_first() {
    let with_url = ExternalCrate {
        name: "serde_core".to_string(),
        html_root_url: Some("https://docs.rs/serde-core/1.0.229/".to_string()),
    };
    assert_eq!(with_url.canonical_name(), "serde-core");
    let request = with_url.load_request();
    assert_eq!(request.name, "serde-core");
    assert_eq!(request.version_req, "=1.0.229");
    let elsewhere = ExternalCrate {
        name: "std".to_string(),
        html_root_url: Some("https://doc.rust-lang.org/nightly/".to_string()),
    };
    assert_eq!(elsewhere.canonical_name(), "std");
    assert_eq!(elsewhere.load_request().version_req, "*");
    let bare = ExternalCrate { name: "alloc".to_string(), html_root_url: None };
    assert_eq!(bare.canonical_name(), "alloc");
    assert_eq!(bare.load_request().name, "alloc");
    assert_eq!(bare.load_request().version_req, "*");
}

#[test]
fn items_of_other_packages_are_found_by_their_path() {
    let other = document("other-pkg", vec![], vec![]);
    let here = document(
        "here",
        vec![
            external(1, "other_pkg", Some("https://docs.rs/other-pkg/2.0.0/other_pkg/")),
            external(2, "absent", None),
        ],
        vec![
            SummaryEntry {
                id: Id(5),
                summary: ItemSummary {
                    crate_id: 1,
                    path: vec!["other_pkg".to_string(), "Thing".to_string()],
                    kind: ItemKind::Struct,
                },
            },
            SummaryEntry {
                id: Id(6),
                summary: ItemSummary {
                    crate_id: 2,
                    path: vec!["absent".to_string(), "Thing".to_string()],
                    kind: ItemKind::Struct,
                },
            },
            SummaryEntry {
                id: Id(7),
                summary: ItemSummary {
                    crate_id: 0,
                    path: vec!["here".to_string(), "Thing".to_string()],
                    kind: ItemKind::Struct,
                },
            },
        ],
    );
    let mut nav = Navigator::new(vec![]);
    assert!(nav.insert(here));
    assert!(nav.insert(other));
    let here = nav.load_crate("here").unwrap();

    assert_eq!(here.traverse_to_crate_by_id(&nav, 0).map(|d| d.name.as_str()), Some("here"));
    assert_eq!(
        here.traverse_to_crate_by_id(&nav, 1).map(|d| d.name.as_str()),
        Some("other-pkg")
    );
    assert!(here.traverse_to_crate_by_id(&nav, 2).is_none());
    assert!(here.traverse_to_crate_by_id(&nav, 3).is_none());
    assert!(here.load_request_by_id(0).is_none());
    assert!(here.load_request_by_id(3).is_none());
    let request = here.load_request_by_id(1).unwrap();
    assert_eq!((request.name.as_str(), request.version_req.as_str()), ("other-pkg", "=2.0.0"));
    assert_eq!(here.load_request_by_id(2).unwrap().name, "absent");

    let foreign = here.get_path(&nav, Id(5)).expect("the other package is loaded");
    assert_eq!(foreign.crate_docs().name, "other-pkg");
    assert_eq!(foreign.item().id, Id(1));
    assert!(here.get_path(&nav, Id(6)).is_none());
    assert!(here.get_path(&nav, Id(8)).is_none());
    let own = here.get_path(&nav, Id(7)).expect("the package's own item");
    assert_eq!(own.crate_docs().name, "here");
    assert_eq!(own.get_path(Id(5)), Some(foreign));
    assert_ne!(own, foreign);

    let root = here.root_item(&nav).unwrap();
    let summary: DocRef<ItemSummary> = root.build_ref(&here.paths[0].summary);
    let named = summary.external_crate().expect("the summary names package 1");
    assert_eq!(named.crate_name(), "other-pkg");
    assert_eq!(named.load().map(|d| d.name.as_str()), Some("other-pkg"));
    let own_summary: DocRef<ItemSummary> = root.build_ref(&here.paths[2].summary);
    assert!(own_summary.external_crate().is_none());
    let absent: DocRef<ItemSummary> = root.build_ref(&here.paths[1].summary);
    assert!(absent.external_crate().unwrap().load().is_none());
}

use ferritin_common::item::{Id, Item, ItemEnum};
use ferritin_common::navigator::Navigator;
use ferritin_common::rustdoc_data::RustdocData;
use ferritin_common::sources::{CrateInfo, Source};
use ferritin_common::{CrateName, CrateProvenance};
use std::cell::Cell;

/// A source that has the packages it is given, and counts how often it is
/// asked to load.
struct Shelf {
    provenance: CrateProvenance,
    packages: Vec<&'static str>,
    root_crate: Option<&'static str>,
    loads: Cell<usize>,
}

impl Shelf {
    fn with(provenance: CrateProvenance, packages: &[&'static str]) -> Shelf {
        Shelf { provenance, packages: packages.to_vec(), root_crate: None, loads: Cell::new(0) }
    }
}

impl Source for Shelf {
    fn canonicalize(&self, input_name: &str) -> Option<CrateName> {
        if input_name == "crate" {
            self.root_crate.map(CrateName::new)
        } else {
            None
        }
    }

    fn lookup(&self, crate_name: &str, _version_req: &str) -> Option<CrateInfo> {
        let wanted = CrateName::new(crate_name);
        self.packages.iter().find(|p| CrateName::new(p) == wanted).map(|p| CrateInfo {
            name: p.to_string(),
            version: Some("1.0.0".to_string()),
            provenance: self.provenance,
            description: None,
            used_by: vec![],
            default_crate: false,
        })
    }

    fn load(&self, crate_name: &str, version: Option<&str>) -> Option<RustdocData> {
        self.loads.set(self.loads.get() + 1);
        Some(RustdocData::new(
            format!("as-loaded-{crate_name}"),
            self.provenance,
            String::new(),
            version.map(|v| v.to_string()),
            Id(0),
            vec![Item {
                id: Id(0),
                name: Some(crate_name.to_string()),
                docs: None,
                inner: ItemEnum::Module { items: vec![] },
            }],
            vec![],
            vec![],
        ))
    }

    fn list_available(&self) -> Vec<CrateInfo> {
        self.packages.iter().filter_map(|p| self.lookup(p, "*")).collect()
    }
}

#[test]
fn sources_are_asked_in_their_order_and_once() {
    let mut workspace = Shelf::with(CrateProvenance::Workspace, &["my-app", "shared"]);
    workspace.root_crate = Some("my-app");
    let sources = vec![
        workspace,
        Shelf::with(CrateProvenance::Std, &["std"]),
        Shelf::with(CrateProvenance::DocsRs, &["shared", "serde"]),
    ];
    let mut nav = Navigator::new(vec![]);

    // A member of the workspace shadows a package of the registry cache.
    assert_eq!(nav.load_package(&sources, "shared", "*"), Some(0));
    assert_eq!(nav.docs[0].provenance, CrateProvenance::Workspace);
    assert_eq!(nav.docs[0].name, "shared");
    assert_eq!(nav.docs[0].version.as_deref(), Some("1.0.0"));
    assert_eq!(sources[0].loads.get(), 1);
    assert_eq!(sources[2].loads.get(), 0);

    // The document that is held is the answer; no source is asked again.
    assert_eq!(nav.load_package(&sources, "shared", "*"), Some(0));
    assert_eq!(sources[0].loads.get(), 1);
    assert_eq!(nav.docs.len(), 1);

    assert_eq!(nav.load_package(&sources, "serde", "*"), Some(1));
    assert_eq!(nav.docs[1].provenance, CrateProvenance::DocsRs);
    assert_eq!(nav.load_package(&sources, "std", "*"), Some(2));
    assert_eq!(nav.load_crate("std").map(|d| d.provenance), Some(CrateProvenance::Std));

    // `crate` is learnt from the workspace, and the document is held under
    // the name of the package.
    assert_eq!(nav.load_package(&sources, "crate", "*"), Some(3));
    assert_eq!(nav.docs[3].name, "my-app");
    assert_eq!(nav.load_crate("my_app").map(|d| d.name.as_str()), Some("my-app"));
    assert_eq!(nav.load_package(&sources, "my_app", "*"), Some(3));
    assert_eq!(nav.canonicalize("crate").as_str(), "my-app");
    assert!(nav.resolve_path("crate", &mut vec![]).is_some());

    // No source has the package: nothing changes.
    let loads: usize = sources.iter().map(|s| s.loads.get()).sum();
    assert_eq!(nav.load_package(&sources, "missing", "*"), None);
    assert_eq!(nav.docs.len(), 4);
    assert_eq!(sources.iter().map(|s| s.loads.get()).sum::<usize>(), loads);
    assert_eq!(nav.load_package(&Vec::<Shelf>::new(), "other", "*"), None);
    assert_eq!(sources[0].list_available().len(), 2);
}

#[test]
fn another_name_is_not_given_to_a_held_document() {
    let sources = vec![Shelf::with(CrateProvenance::Std, &["std"])];
    let mut nav = Navigator::new(vec![]);
    assert_eq!(nav.load_package(&sources, "std", "*"), Some(0));
    assert!(!nav.add_alias("std", "core"));
    assert!(nav.aliases.is_empty());
    assert!(nav.add_alias("stdlib", "std"));
    assert_eq!(nav.alias_position("stdlib"), Some(0));
    assert_eq!(nav.alias_position("std"), None);
    assert_eq!(nav.load_crate("stdlib").map(|d| d.name.as_str()), Some("std"));
    assert_eq!(nav.learn_name(&sources, "stdlib").as_str(), "std");
    assert_eq!(nav.learn_name(&sources, "unknown").as_str(), "unknown");
    assert_eq!(nav.position("std"), Some(0));
    assert_eq!(nav.position("core"), None);
}

use ferritin_common::list_crates::{sort_by_name, ListCrates};
use ferritin_common::sources::CrateInfo;
use ferritin_common::CrateProvenance;

fn info(name: &str, provenance: CrateProvenance, version: Option<&str>) -> CrateInfo {
    CrateInfo {
        name: name.to_string(),
        version: version.map(|v| v.to_string()),
        provenance,
        description: None,
        used_by: vec![],
        default_crate: false,
    }
}

fn workspace() -> Vec<CrateInfo> {
    let mut app = info("my-app", CrateProvenance::Workspace, Some("0.1.0"));
    app.default_crate = true;
    app.description = Some("An app\nin two lines".to_string());
    let helper = info("helper", CrateProvenance::Workspace, Some("0.1.0"));
    let mut serde = info("serde", CrateProvenance::LocalDependency, Some("1.0.195"));
    serde.used_by = vec!["my-app".to_string(), "helper".to_string()];
    let mut anyhow = info("anyhow", CrateProvenance::LocalDependency, Some("1.0.80"));
    anyhow.used_by = vec!["helper".to_string()];
    let std = info("std", CrateProvenance::Std, None);
    let cached = info("rand", CrateProvenance::DocsRs, Some("0.8.5"));
    vec![app, serde, std, helper, anyhow, cached]
}

#[test]
fn listing_is_in_name_order_with_notes() {
    let listing = ListCrates::default().execute(workspace(), None);
    assert_eq!(
        listing,
        "• anyhow 1.0.80 (helper)\n\
         • helper (workspace-local)\n\
         • my-app (workspace-local, aliased as \"crate\")\n    An app in two lines\n\
         • rand 0.8.5\n\
         • serde 1.0.195 (my-app, helper)\n\
         • std\n"
    );
}

#[test]
fn local_dependencies_are_listed_for_the_root_that_uses_them() {
    let listing = ListCrates { workspace_member: None }.execute(workspace(), Some("my-app"));
    assert_eq!(
        listing,
        "• helper (workspace-local)\n\
         • my-app (workspace-local, aliased as \"crate\")\n    An app in two lines\n\
         • rand 0.8.5\n\
         • serde 1.0.195 (my-app, helper)\n\
         • std\n"
    );
    assert_eq!(ListCrates::default().execute(vec![], Some("x")), "");
}

#[test]
fn packages_of_one_name_keep_their_order() {
    let sorted = sort_by_name(vec![
        info("b", CrateProvenance::Std, Some("2")),
        info("a", CrateProvenance::Std, None),
        info("b", CrateProvenance::Std, Some("1")),
        info("B", CrateProvenance::Std, None),
        info("ab", CrateProvenance::Std, None),
    ]);
    let brief: Vec<(&str, Option<&str>)> =
        sorted.iter().map(|c| (c.name.as_str(), c.version.as_deref())).collect();
    assert_eq!(
        brief,
        vec![("B", None), ("a", None), ("ab", None), ("b", Some("2")), ("b", Some("1"))]
    );
}

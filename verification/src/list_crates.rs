//! The listing of the packages that can be looked into.

use vstd::prelude::*;
use vstd::string::*;
use crate::crate_name::{
    lemma_precedes_asymmetric, lemma_precedes_transitive, precedes, str_precedes,
};
use crate::rustdoc_data::str_eq;
use crate::sources::{CrateInfo, CrateProvenance};
use crate::text::{chars_of, views_of};

verus! {

/// List available crates in the workspace, including dependencies.
#[derive(Debug, Default)]
pub struct ListCrates {
    /// Optional workspace member to scope dependencies to.
    pub workspace_member: Option<String>,
}

/// The first position at or after `from` of a package whose name comes
/// after `name`, or the length of the list where there is none.
pub open spec fn first_after(list: Seq<CrateInfo>, name: Seq<char>, from: int) -> int
    decreases list.len() - from,
{
    if from < 0 || from >= list.len() {
        list.len() as int
    } else if precedes(name, list[from].name@) {
        from
    } else {
        first_after(list, name, from + 1)
    }
}

/// `list` in the order of the names, packages of one name in the order in
/// which `list` has them: each package stands behind the earlier ones that
/// do not come after it.
pub open spec fn by_name(list: Seq<CrateInfo>) -> Seq<CrateInfo>
    decreases list.len(),
{
    if list.len() == 0 {
        Seq::empty()
    } else {
        let before = by_name(list.drop_last());
        before.insert(first_after(before, list.last().name@, 0), list.last())
    }
}

/// No package of the list has a name that comes before that of an earlier
/// one.
pub open spec fn in_name_order(list: Seq<CrateInfo>) -> bool {
    forall|i: int, j: int| 0 <= i < j < list.len() ==> !precedes(list[j].name@, list[i].name@)
}

/// The position that `first_after` finds: no name before it, from `from`
/// on, comes after `name`; the name at it, if there is one, does.
pub proof fn lemma_first_after(list: Seq<CrateInfo>, name: Seq<char>, from: int)
    requires
        0 <= from <= list.len(),
    ensures
        from <= first_after(list, name, from) <= list.len(),
        forall|i: int|
            from <= i < first_after(list, name, from) ==> !precedes(name, list[i].name@),
        first_after(list, name, from) < list.len() ==> precedes(
            name,
            list[first_after(list, name, from)].name@,
        ),
    decreases list.len() - from,
{
    if from < list.len() && !precedes(name, list[from].name@) {
        lemma_first_after(list, name, from + 1);
    }
}

/// A list put in the order of the names is in that order, and holds what
/// the list held.
pub proof fn lemma_by_name(list: Seq<CrateInfo>)
    ensures
        by_name(list).len() == list.len(),
        in_name_order(by_name(list)),
        by_name(list).to_multiset() == list.to_multiset(),
    decreases list.len(),
{
    if list.len() == 0 {
        assert(by_name(list) =~= list);
    } else {
        let before = by_name(list.drop_last());
        let x = list.last();
        lemma_by_name(list.drop_last());
        lemma_first_after(before, x.name@, 0);
        let at = first_after(before, x.name@, 0);
        let out = before.insert(at, x);
        assert forall|i: int, j: int| 0 <= i < j < out.len() implies !precedes(
            out[j].name@,
            out[i].name@,
        ) by {
            if j < at {
                assert(out[i] == before[i] && out[j] == before[j]);
            } else if j == at {
                assert(out[i] == before[i]);
                assert(out[j] == x);
            } else if i < at {
                assert(out[i] == before[i] && out[j] == before[j - 1]);
            } else if i == at {
                assert(out[i] == x);
                assert(out[j] == before[j - 1]);
                if precedes(before[j - 1].name@, x.name@) {
                    lemma_precedes_transitive(before[j - 1].name@, x.name@, before[at].name@);
                    if j - 1 == at {
                        lemma_precedes_asymmetric(x.name@, before[at].name@);
                    }
                }
            } else {
                assert(out[i] == before[i - 1] && out[j] == before[j - 1]);
            }
        }
        crate::ranking::lemma_insert_to_multiset(before, at, x);
        assert(list.drop_last().push(x) =~= list);
        vstd::seq_lib::to_multiset_build(list.drop_last(), x);
    }
}

/// Puts a list of packages in the order of their names. Packages of one
/// name keep the order in which the list has them.
pub fn sort_by_name(list: Vec<CrateInfo>) -> (out: Vec<CrateInfo>)
    ensures
        out@ == by_name(list@),
        in_name_order(out@),
        out@.to_multiset() == list@.to_multiset(),
{
    let ghost all = list@;
    let mut out: Vec<CrateInfo> = Vec::new();
    assert(all.take(0) =~= Seq::<CrateInfo>::empty());
    for x in it: list
        invariant
            it.seq() == all,
            out@ == by_name(all.take(it.index() as int)),
    {
        let ghost before = out@;
        let ghost n = it.index() as int;
        proof {
            lemma_first_after(before, x.name@, 0);
        }
        let mut at: usize = 0;
        while at < out.len() && !str_precedes(x.name.as_str(), out[at].name.as_str())
            invariant
                at <= out.len(),
                out@ == before,
                first_after(before, x.name@, 0) == first_after(before, x.name@, at as int),
            decreases out.len() - at,
        {
            at += 1;
        }
        out.insert(at, x);
        proof {
            assert(all.take(n + 1).drop_last() =~= all.take(n));
            assert(all.take(n + 1).last() == x);
        }
    }
    proof {
        assert(all.take(all.len() as int) =~= all);
        lemma_by_name(all);
    }
    out
}

/// `list` holds `name`.
pub open spec fn names(list: Seq<String>, name: Seq<char>) -> bool {
    exists|i: int| 0 <= i < list.len() && #[trigger] list[i]@ == name
}

/// A package is listed when no root package is given, when it is no local
/// dependency, or when the root package uses it.
pub open spec fn is_listed(info: CrateInfo, root: Option<Seq<char>>) -> bool {
    match root {
        None => true,
        Some(name) => info.provenance != CrateProvenance::LocalDependency || names(
            info.used_by@,
            name,
        ),
    }
}

/// Of the first `n` packages those that are listed, in order.
pub open spec fn listed(list: Seq<CrateInfo>, root: Option<Seq<char>>, n: int) -> Seq<CrateInfo>
    decreases n,
{
    if n <= 0 || n > list.len() {
        Seq::empty()
    } else if is_listed(list[n - 1], root) {
        listed(list, root, n - 1).push(list[n - 1])
    } else {
        listed(list, root, n - 1)
    }
}

/// The first `n` names with `, ` between them.
pub open spec fn comma_joined(list: Seq<String>, n: int) -> Seq<char>
    decreases n,
{
    if n <= 0 || n > list.len() {
        Seq::empty()
    } else if n == 1 {
        list[0]@
    } else {
        comma_joined(list, n - 1) + seq![',', ' '] + list[n - 1]@
    }
}

/// What is written behind the name of a package: that it is the package
/// that `crate` stands for, or a member of the workspace; else its
/// version, where it has one, and behind it in brackets the workspace
/// members that use it, where there are any.
pub open spec fn note(info: CrateInfo) -> Seq<char> {
    if info.default_crate {
        " (workspace-local, aliased as \"crate\")"@
    } else if info.provenance == CrateProvenance::Workspace {
        " (workspace-local)"@
    } else {
        match info.version {
            Some(version) => seq![' '] + version@ + (if info.used_by@.len() > 0 {
                seq![' ', '('] + comma_joined(info.used_by@, info.used_by@.len() as int) + seq![
                    ')',
                ]
            } else {
                Seq::<char>::empty()
            }),
            None => Seq::<char>::empty(),
        }
    }
}

/// `text` with every line feed replaced by a space.
pub open spec fn on_one_line(text: Seq<char>) -> Seq<char> {
    Seq::new(
        text.len(),
        |i: int|
            if text[i] == '\n' {
                ' '
            } else {
                text[i]
            },
    )
}

/// The lines of one package: a bullet, its name and its note; and, where
/// it has a description, the description on one line, set in.
pub open spec fn entry(info: CrateInfo) -> Seq<char> {
    seq!['\u{2022}', ' '] + info.name@ + note(info) + seq!['\n'] + match info.description {
        Some(description) => seq![' ', ' ', ' ', ' '] + on_one_line(description@) + seq!['\n'],
        None => Seq::<char>::empty(),
    }
}

/// The lines of the first `n` packages.
pub open spec fn entries(list: Seq<CrateInfo>, n: int) -> Seq<char>
    decreases n,
{
    if n <= 0 || n > list.len() {
        Seq::empty()
    } else {
        entries(list, n - 1) + entry(list[n - 1])
    }
}

/// Tells whether `list` holds `name`.
fn holds(list: &Vec<String>, name: &str) -> (r: bool)
    ensures
        r == names(list@, name@),
{
    let mut i: usize = 0;
    while i < list.len()
        invariant
            i <= list.len(),
            forall|k: int| 0 <= k < i ==> list@[k]@ != name@,
        decreases list.len() - i,
    {
        if str_eq(list[i].as_str(), name) {
            return true;
        }
        i += 1;
    }
    false
}

/// Appends the note of a package.
fn push_note(info: &CrateInfo, result: &mut String)
    ensures
        final(result)@ == old(result)@ + note(*info),
{
    let ghost start = result@;
    if info.default_crate {
        result.append(" (workspace-local, aliased as \"crate\")");
    } else if info.provenance.is_workspace() {
        result.append(" (workspace-local)");
    } else if let Some(version) = &info.version {
        proof {
            reveal_strlit(" ");
            reveal_strlit(" (");
            reveal_strlit(", ");
            reveal_strlit(")");
            assert(" "@ =~= seq![' ']);
            assert(" ("@ =~= seq![' ', '(']);
            assert(", "@ =~= seq![',', ' ']);
            assert(")"@ =~= seq![')']);
        }
        result.append(" ");
        result.append(version.as_str());
        if info.used_by.len() > 0 {
            result.append(" (");
            let ghost opened = result@;
            let mut i: usize = 0;
            assert(opened + comma_joined(info.used_by@, 0) =~= opened);
            while i < info.used_by.len()
                invariant
                    i <= info.used_by.len(),
                    ", "@ == seq![',', ' '],
                    result@ == opened + comma_joined(info.used_by@, i as int),
                decreases info.used_by.len() - i,
            {
                if i > 0 {
                    result.append(", ");
                }
                result.append(info.used_by[i].as_str());
                i += 1;
                assert(result@ =~= opened + comma_joined(info.used_by@, i as int));
            }
            result.append(")");
        }
        assert(result@ =~= start + note(*info));
    } else {
        assert(start + note(*info) =~= start);
    }
}

/// Appends the lines of a package.
fn push_entry(info: &CrateInfo, result: &mut String)
    ensures
        final(result)@ == old(result)@ + entry(*info),
{
    let ghost start = result@;
    proof {
        reveal_strlit("\u{2022} ");
        reveal_strlit("\n");
        reveal_strlit("    ");
        assert("\u{2022} "@ =~= seq!['\u{2022}', ' ']);
        assert("\n"@ =~= seq!['\n']);
        assert("    "@ =~= seq![' ', ' ', ' ', ' ']);
    }
    result.append("\u{2022} ");
    result.append(info.name.as_str());
    push_note(info, result);
    result.append("\n");
    if let Some(description) = &info.description {
        result.append("    ");
        let chars = chars_of(description.as_str());
        let ghost opened = result@;
        let mut i: usize = 0;
        assert(opened + on_one_line(description@).take(0) =~= opened);
        while i < chars.len()
            invariant
                i <= chars.len(),
                chars@ == description@,
                result@ == opened + on_one_line(description@).take(i as int),
            decreases chars.len() - i,
        {
            if chars[i] == '\n' {
                result.push(' ');
            } else {
                result.push(chars[i]);
            }
            i += 1;
            assert(result@ =~= opened + on_one_line(description@).take(i as int));
        }
        assert(on_one_line(description@).take(chars.len() as int) =~= on_one_line(description@));
        result.append("\n");
        assert(result@ =~= start + entry(*info));
    } else {
        assert(result@ =~= start + entry(*info));
    }
}

impl ListCrates {
    /// Writes the listing of `available`: the packages that are listed
    /// with respect to `root_crate`, in the order of their names, each
    /// with its note and its description.
    ///
    /// With a root package given, a local dependency is listed only where
    /// that package uses it.
    pub fn execute(&self, available: Vec<CrateInfo>, root_crate: Option<&str>) -> (result: String)
        ensures
            result@ == entries(
                by_name(
                    listed(available@, crate::doc_ref::opt_str_view(root_crate), available@.len() as int),
                ),
                listed(
                    available@,
                    crate::doc_ref::opt_str_view(root_crate),
                    available@.len() as int,
                ).len() as int,
            ),
    {
        let ghost all = available@;
        let ghost root = crate::doc_ref::opt_str_view(root_crate);
        let mut kept: Vec<CrateInfo> = Vec::new();
        for info in it: available
            invariant
                it.seq() == all,
                root == crate::doc_ref::opt_str_view(root_crate),
                kept@ == listed(all, root, it.index() as int),
        {
            let keep = match root_crate {
                None => true,
                Some(name) => !info.provenance.is_local_dependency() || holds(&info.used_by, name),
            };
            if keep {
                kept.push(info);
            }
        }
        let ghost chosen = kept@;
        let sorted = sort_by_name(kept);
        proof {
            lemma_by_name(chosen);
        }
        let mut result = String::new();
        let mut i: usize = 0;
        assert(result@ =~= entries(sorted@, 0));
        while i < sorted.len()
            invariant
                i <= sorted.len(),
                result@ == entries(sorted@, i as int),
            decreases sorted.len() - i,
        {
            push_entry(&sorted[i], &mut result);
            i += 1;
        }
        result
    }
}

} // verus!

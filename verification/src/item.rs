//! The item graph of one package, as far as resolution reads it: items with
//! their names, kinds and tree edges, the path summaries, and the packages a
//! document refers to.

use vstd::prelude::*;
use vstd::string::*;

verus! {

/// The opaque identifier of an item within one package document.
#[derive(Clone, Copy, Debug, PartialEq, Eq, Structural, Hash)]
pub struct Id(pub u32);

/// The kind of an item, without any of its contents.
#[derive(Clone, Copy, Debug, PartialEq, Eq, Structural, Hash)]
pub enum ItemKind {
    Module,
    ExternCrate,
    Use,
    Struct,
    StructField,
    Union,
    Enum,
    Variant,
    Function,
    TypeAlias,
    Constant,
    Trait,
    TraitAlias,
    Impl,
    Static,
    ExternType,
    Macro,
    ProcAttribute,
    ProcDerive,
    AssocConst,
    AssocType,
    Primitive,
    Keyword,
    Attribute,
}

/// The three flavours of procedural macro.
#[derive(Clone, Copy, Debug, PartialEq, Eq, Structural, Hash)]
pub enum MacroKind {
    /// Invoked as `name!(..)`.
    Bang,
    /// Invoked as an attribute.
    Attr,
    /// Invoked through `derive`.
    Derive,
}

/// A re-export: of one item, under `name`, or of all members of a module
/// where `is_glob` is set.
#[derive(Debug)]
pub struct Use {
    /// The name under which the item is re-exported.
    pub name: String,
    /// The item or module that is re-exported, where it is known.
    pub id: Option<Id>,
    pub is_glob: bool,
}

/// What an item is, with what a walk through the item tree reads of it:
/// the members of a container, and the target and name of a re-export.
#[derive(Debug)]
pub enum ItemEnum {
    Module { items: Vec<Id> },
    ExternCrate,
    Use(Use),
    Union { fields: Vec<Id>, impls: Vec<Id> },
    Struct { fields: Vec<Id>, impls: Vec<Id> },
    StructField,
    Enum { variants: Vec<Id>, impls: Vec<Id> },
    Variant { fields: Vec<Id> },
    Function,
    Trait { items: Vec<Id> },
    TraitAlias,
    Impl { items: Vec<Id> },
    TypeAlias,
    Constant,
    Static,
    ExternType,
    Macro,
    ProcMacro(MacroKind),
    Primitive { impls: Vec<Id> },
    AssocConst,
    AssocType,
}

/// One documented item.
#[derive(Debug)]
pub struct Item {
    pub id: Id,
    pub name: Option<String>,
    /// The documentation text of the item.
    pub docs: Option<String>,
    pub inner: ItemEnum,
}

/// The path summary of an item: where the exporter says it is defined.
#[derive(Debug)]
pub struct ItemSummary {
    /// 0 for the document's own package, else a key of its external
    /// packages.
    pub crate_id: u32,
    /// The segments of the path, the package's name first.
    pub path: Vec<String>,
    pub kind: ItemKind,
}

/// A package that a document refers to.
#[derive(Debug)]
pub struct ExternalCrate {
    pub name: String,
    pub html_root_url: Option<String>,
}

/// What an optional string holds, as a sequence of characters.
pub open spec fn opt_view(s: Option<String>) -> Option<Seq<char>> {
    match s {
        Some(s) => Some(s@),
        None => None,
    }
}

/// The kind that belongs to each form of item.
pub open spec fn kind_of(inner: ItemEnum) -> ItemKind {
    match inner {
        ItemEnum::Module { .. } => ItemKind::Module,
        ItemEnum::ExternCrate => ItemKind::ExternCrate,
        ItemEnum::Use(_) => ItemKind::Use,
        ItemEnum::Union { .. } => ItemKind::Union,
        ItemEnum::Struct { .. } => ItemKind::Struct,
        ItemEnum::StructField => ItemKind::StructField,
        ItemEnum::Enum { .. } => ItemKind::Enum,
        ItemEnum::Variant { .. } => ItemKind::Variant,
        ItemEnum::Function => ItemKind::Function,
        ItemEnum::Trait { .. } => ItemKind::Trait,
        ItemEnum::TraitAlias => ItemKind::TraitAlias,
        ItemEnum::Impl { .. } => ItemKind::Impl,
        ItemEnum::TypeAlias => ItemKind::TypeAlias,
        ItemEnum::Constant => ItemKind::Constant,
        ItemEnum::Static => ItemKind::Static,
        ItemEnum::ExternType => ItemKind::ExternType,
        ItemEnum::Macro => ItemKind::Macro,
        ItemEnum::ProcMacro(MacroKind::Bang) => ItemKind::Macro,
        ItemEnum::ProcMacro(MacroKind::Attr) => ItemKind::ProcAttribute,
        ItemEnum::ProcMacro(MacroKind::Derive) => ItemKind::ProcDerive,
        ItemEnum::Primitive { .. } => ItemKind::Primitive,
        ItemEnum::AssocConst => ItemKind::AssocConst,
        ItemEnum::AssocType => ItemKind::AssocType,
    }
}

/// The discriminator written before `@` for each kind of item. Functions and
/// methods share `fn`, constants and associated constants share `const`, and
/// the kinds that a path never names share `item`.
pub open spec fn discriminator(kind: ItemKind) -> Seq<char> {
    match kind {
        ItemKind::Module => "mod"@,
        ItemKind::Struct => "struct"@,
        ItemKind::Enum => "enum"@,
        ItemKind::Union => "union"@,
        ItemKind::Trait => "trait"@,
        ItemKind::TraitAlias => "traitalias"@,
        ItemKind::Function => "fn"@,
        ItemKind::TypeAlias => "tyalias"@,
        ItemKind::AssocType => "type"@,
        ItemKind::Constant | ItemKind::AssocConst => "const"@,
        ItemKind::Static => "static"@,
        ItemKind::Macro => "macro"@,
        ItemKind::ProcAttribute => "attr"@,
        ItemKind::ProcDerive => "derive"@,
        ItemKind::Primitive => "prim"@,
        ItemKind::Variant => "variant"@,
        ItemKind::StructField => "field"@,
        ItemKind::Keyword => "keyword"@,
        ItemKind::Attribute => "attribute"@,
        ItemKind::ExternCrate | ItemKind::Use | ItemKind::Impl | ItemKind::ExternType => "item"@,
    }
}

/// Returns the discriminator of an item kind, e.g. `"mod"` for `Module`.
pub fn kind_discriminator(kind: ItemKind) -> (r: &'static str)
    ensures
        r@ == discriminator(kind),
{
    match kind {
        ItemKind::Module => "mod",
        ItemKind::Struct => "struct",
        ItemKind::Enum => "enum",
        ItemKind::Union => "union",
        ItemKind::Trait => "trait",
        ItemKind::TraitAlias => "traitalias",
        ItemKind::Function => "fn",
        ItemKind::TypeAlias => "tyalias",
        ItemKind::AssocType => "type",
        ItemKind::Constant | ItemKind::AssocConst => "const",
        ItemKind::Static => "static",
        ItemKind::Macro => "macro",
        ItemKind::ProcAttribute => "attr",
        ItemKind::ProcDerive => "derive",
        ItemKind::Primitive => "prim",
        ItemKind::Variant => "variant",
        ItemKind::StructField => "field",
        ItemKind::Keyword => "keyword",
        ItemKind::Attribute => "attribute",
        ItemKind::ExternCrate | ItemKind::Use | ItemKind::Impl | ItemKind::ExternType => "item",
    }
}

impl Item {
    /// The kind of the item, read off what it is.
    pub fn kind(&self) -> (k: ItemKind)
        ensures
            k == kind_of(self.inner),
    {
        match &self.inner {
            ItemEnum::Module { .. } => ItemKind::Module,
            ItemEnum::ExternCrate => ItemKind::ExternCrate,
            ItemEnum::Use(_) => ItemKind::Use,
            ItemEnum::Union { .. } => ItemKind::Union,
            ItemEnum::Struct { .. } => ItemKind::Struct,
            ItemEnum::StructField => ItemKind::StructField,
            ItemEnum::Enum { .. } => ItemKind::Enum,
            ItemEnum::Variant { .. } => ItemKind::Variant,
            ItemEnum::Function => ItemKind::Function,
            ItemEnum::Trait { .. } => ItemKind::Trait,
            ItemEnum::TraitAlias => ItemKind::TraitAlias,
            ItemEnum::Impl { .. } => ItemKind::Impl,
            ItemEnum::TypeAlias => ItemKind::TypeAlias,
            ItemEnum::Constant => ItemKind::Constant,
            ItemEnum::Static => ItemKind::Static,
            ItemEnum::ExternType => ItemKind::ExternType,
            ItemEnum::ProcMacro(MacroKind::Attr) => ItemKind::ProcAttribute,
            ItemEnum::ProcMacro(MacroKind::Derive) => ItemKind::ProcDerive,
            ItemEnum::Macro | ItemEnum::ProcMacro(MacroKind::Bang) => ItemKind::Macro,
            ItemEnum::Primitive { .. } => ItemKind::Primitive,
            ItemEnum::AssocConst => ItemKind::AssocConst,
            ItemEnum::AssocType => ItemKind::AssocType,
        }
    }
}

/// A text holds neither a colon nor an `@`.
pub open spec fn is_bare(text: Seq<char>) -> bool {
    forall|i: int| 0 <= i < text.len() ==> text[i] != ':' && text[i] != '@'
}

/// No discriminator is empty, and none holds a colon or an `@`.
pub proof fn lemma_discriminator_is_bare(kind: ItemKind)
    ensures
        discriminator(kind).len() > 0,
        is_bare(discriminator(kind)),
{
    reveal_strlit("mod");
    reveal_strlit("struct");
    reveal_strlit("enum");
    reveal_strlit("union");
    reveal_strlit("trait");
    reveal_strlit("traitalias");
    reveal_strlit("fn");
    reveal_strlit("tyalias");
    reveal_strlit("type");
    reveal_strlit("const");
    reveal_strlit("static");
    reveal_strlit("macro");
    reveal_strlit("attr");
    reveal_strlit("derive");
    reveal_strlit("prim");
    reveal_strlit("variant");
    reveal_strlit("field");
    reveal_strlit("keyword");
    reveal_strlit("attribute");
    reveal_strlit("item");
}

} // verus!

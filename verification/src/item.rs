//! The core IR atom: an `Item` (one API entity) and its stable `ItemId`.
//!
//! `ItemId` is what makes the diff possible: it identifies "the same item"
//! across two surfaces, so the core can tell *modified* (same id, different
//! signature) from *added + removed* (different ids).
//!
//! The disambiguator is a string baked into `name`: plain functions, structs,
//! interfaces, types, consts, and vars use their identifier; methods use
//! `Receiver.Method` (Go) or `Type::method` / `<Type as Trait>::method`
//! (Rust).

use vstd::prelude::*;

use crate::text;

verus! {

/// A 1-based source line, counted the way an editor's `+N` flag counts them.
/// Carried for navigation and serialization; never part of item identity, and
/// never what makes an item read as modified.
#[derive(Clone, Copy, Debug, PartialEq, Eq, PartialOrd, Ord, Hash, Structural)]
pub struct Line(pub u32);

/// A reference from an item's signature to a type it uses, as written in the
/// source. A display name, not a resolved identity: consumers resolve it by
/// name lookup.
#[derive(Debug, PartialEq, Eq)]
pub struct TypeRef(pub String);

/// One API entity.
#[derive(Debug, PartialEq, Eq)]
pub struct Item {
    pub id: ItemId,
    pub signature: String,
    /// Where the item's declaration starts.
    pub line: Line,
    /// The name of the composite this item is a member of, if it is one.
    pub parent: Option<String>,
    /// Types this item's signature references, in source order, deduped.
    pub refs: Vec<TypeRef>,
}

/// The stable identity of an item: two items with equal ids are the same item.
#[derive(Debug, PartialEq, Eq)]
pub struct ItemId {
    /// The file, relative to the repository root.
    pub path: String,
    pub kind: Kind,
    pub name: String,
}

/// What an item is.
#[derive(Clone, Copy, Debug, PartialEq, Eq, Hash, Structural)]
pub enum Kind {
    Function,
    Method,
    Struct,
    Interface,
    Type,
    TypeAlias,
    Const,
    Var,
    Enum,
    Trait,
    Static,
    Field,
    InterfaceMethod,
    Variant,
    TraitMethod,
    AssocType,
}

/// The mathematical model of an `ItemId`.
#[verifier::ext_equal]
pub struct IdModel {
    pub path: Seq<char>,
    pub kind: Kind,
    pub name: Seq<char>,
}

/// The mathematical model of an `Item`.
#[verifier::ext_equal]
pub struct ItemModel {
    pub id: IdModel,
    pub signature: Seq<char>,
    pub line: Line,
    pub parent: Option<Seq<char>>,
    pub refs: Seq<Seq<char>>,
}

/// The model of an optional string.
pub open spec fn optional_text(text: Option<String>) -> Option<Seq<char>> {
    match text {
        Some(t) => Some(t@),
        None => None,
    }
}

impl View for TypeRef {
    type V = Seq<char>;

    open spec fn view(&self) -> Seq<char> {
        self.0@
    }
}

impl View for ItemId {
    type V = IdModel;

    open spec fn view(&self) -> IdModel {
        IdModel { path: self.path@, kind: self.kind, name: self.name@ }
    }
}

impl View for Item {
    type V = ItemModel;

    open spec fn view(&self) -> ItemModel {
        ItemModel {
            id: self.id@,
            signature: self.signature@,
            line: self.line,
            parent: optional_text(self.parent),
            refs: views(self.refs@),
        }
    }
}

/// The models of a sequence of values.
pub open spec fn views<T: View>(values: Seq<T>) -> Seq<T::V> {
    Seq::new(values.len(), |i: int| values[i]@)
}

/// The models of a sequence grow with it.
pub broadcast proof fn lemma_views_push<T: View>(values: Seq<T>, value: T)
    ensures
        #[trigger] views(values.push(value)) == views(values).push(value@),
{
    assert(views(values.push(value)) =~= views(values).push(value@));
}

/// The word a kind serializes to.
pub open spec fn kind_word(kind: Kind) -> Seq<char> {
    match kind {
        Kind::Function => "function"@,
        Kind::Method => "method"@,
        Kind::Struct => "struct"@,
        Kind::Interface => "interface"@,
        Kind::Type => "type"@,
        Kind::TypeAlias => "type_alias"@,
        Kind::Const => "const"@,
        Kind::Var => "var"@,
        Kind::Enum => "enum"@,
        Kind::Trait => "trait"@,
        Kind::Static => "static"@,
        Kind::Field => "field"@,
        Kind::InterfaceMethod => "interface_method"@,
        Kind::Variant => "variant"@,
        Kind::TraitMethod => "trait_method"@,
        Kind::AssocType => "assoc_type"@,
    }
}

impl Kind {
    /// The kind as a `snake_case` word, for serialized output.
    pub fn as_str(self) -> (word: &'static str)
        ensures
            word@ == kind_word(self),
    {
        match self {
            Kind::Function => "function",
            Kind::Method => "method",
            Kind::Struct => "struct",
            Kind::Interface => "interface",
            Kind::Type => "type",
            Kind::TypeAlias => "type_alias",
            Kind::Const => "const",
            Kind::Var => "var",
            Kind::Enum => "enum",
            Kind::Trait => "trait",
            Kind::Static => "static",
            Kind::Field => "field",
            Kind::InterfaceMethod => "interface_method",
            Kind::Variant => "variant",
            Kind::TraitMethod => "trait_method",
            Kind::AssocType => "assoc_type",
        }
    }
}

impl Clone for TypeRef {
    fn clone(&self) -> (copy: Self)
        ensures
            copy@ == self@,
    {
        TypeRef(self.0.clone())
    }
}

impl Clone for ItemId {
    fn clone(&self) -> (copy: Self)
        ensures
            copy@ == self@,
    {
        ItemId { path: self.path.clone(), kind: self.kind, name: self.name.clone() }
    }
}

impl ItemId {
    /// Whether two ids identify the same item.
    pub fn same(&self, other: &ItemId) -> (same: bool)
        ensures
            same == (self@ == other@),
    {
        self.kind == other.kind && text::same_text(self.name.as_str(), other.name.as_str())
            && text::same_text(self.path.as_str(), other.path.as_str())
    }
}

/// Copies a list of references.
pub fn clone_refs(refs: &Vec<TypeRef>) -> (copy: Vec<TypeRef>)
    ensures
        views(copy@) == views(refs@),
{
    let mut out: Vec<TypeRef> = Vec::new();
    let mut i: usize = 0;
    while i < refs.len()
        invariant
            i <= refs@.len(),
            views(out@) == views(refs@).take(i as int),
        decreases refs.len() - i,
    {
        proof {
            assert(views(refs@).take(i + 1) =~= views(refs@).take(i as int).push(
                refs@[i as int]@,
            ));
            lemma_views_push(out@, refs@[i as int]);
        }
        let copied = refs[i].clone();
        proof {
            lemma_views_push(out@, copied);
        }
        out.push(copied);
        i = i + 1;
    }
    assert(views(refs@).take(refs@.len() as int) =~= views(refs@));
    out
}

/// Copies an optional string.
pub fn clone_optional(text: &Option<String>) -> (copy: Option<String>)
    ensures
        optional_text(copy) == optional_text(*text),
{
    match text {
        Some(t) => Some(t.clone()),
        None => None,
    }
}

impl Clone for Item {
    fn clone(&self) -> (copy: Self)
        ensures
            copy@ == self@,
    {
        Item {
            id: self.id.clone(),
            signature: self.signature.clone(),
            line: self.line,
            parent: clone_optional(&self.parent),
            refs: clone_refs(&self.refs),
        }
    }
}

} // verus!

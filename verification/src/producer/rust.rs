//! Tree-sitter-based extraction of top-level Rust items.
//!
//! Walks the root's direct children, mirroring the Go producer. Bodies and
//! fields are stripped to the declaration: function/method bodies at the
//! `body` block, struct/enum/trait bodies at their `{ … }`, and const/static
//! initialisers at the `= value`. Visibility and generics are kept as
//! written, so a `fn` gaining `pub` or a type parameter reads as a
//! modification.
//!
//! Composite items are descended one level, mirroring the Go producer: struct
//! fields, enum variants, trait members, and impl members each become their
//! own `Item` named `Parent::member` (`<Type as Trait>::method` for trait
//! impls), so a member change diffs to exactly that member. Member signatures
//! splice the qualified name into the declaration text
//! (`pub fn Client::close(&mut self)`), keeping every rendered line
//! self-contained — frontends print signatures flat.
//!
//! Deliberately not extracted: items nested in inline `mod` blocks, unions,
//! macros, and fields of individual enum variants (the variant's whole text
//! is its signature). Each is a later refinement, not a silent gap.

use vstd::prelude::*;

use crate::item::{self, IdModel, Item, ItemId, ItemModel, Kind};
use crate::producer::refs;
use crate::producer::syntax::{
    self, ChildModel, Grammar, ProducerError, SourceParser, SyntaxChild, SyntaxModel, SyntaxNode,
};
use crate::surface::Surface;
use crate::text;

verus! {

/// Where the child that fills `field` starts.
pub open spec fn start_of(node: SyntaxModel, field: Seq<char>) -> Option<nat> {
    match syntax::child_in(node, field) {
        Some(child) => Some(child.start),
        None => None,
    }
}

/// Where a member's uninteresting tail starts: a method's body block or a
/// const's initialiser.
pub open spec fn tail_of(node: SyntaxModel) -> Option<nat> {
    match start_of(node, "body"@) {
        Some(at) => Some(at),
        None => start_of(node, "value"@),
    }
}

/// Whether `c` is trimmed off the end of a signature.
pub open spec fn trailing(c: char) -> bool {
    c == ';' || c == '=' || c == '{' || text::white_space(c)
}

/// Whitespace collapsed to single spaces and any trailing delimiter (`;`, `=`,
/// `{`) and whitespace trimmed.
pub open spec fn tidy(raw: Seq<char>) -> Seq<char> {
    text::without_tail(text::collapsed(raw), |c: char| trailing(c))
}

/// Where a declaration's text ends: at the cut, or with the node.
pub open spec fn end_of(node: SyntaxModel, cut: Option<nat>) -> nat {
    match cut {
        Some(at) => at,
        None => node.end,
    }
}

/// The declaration text up to the cut.
pub open spec fn signature_text(
    node: SyntaxModel,
    source: Seq<char>,
    cut: Option<nat>,
) -> Seq<char> {
    tidy(text::byte_text(source, node.start as int, end_of(node, cut) as int))
}

/// The declaration text up to the cut, with `qualified` spliced over the bare
/// name.
pub open spec fn spliced_text(
    node: SyntaxModel,
    source: Seq<char>,
    cut: Option<nat>,
    name: SyntaxModel,
    qualified: Seq<char>,
) -> Seq<char> {
    tidy(
        text::byte_text(source, node.start as int, name.start as int) + qualified
            + text::byte_text(source, name.end as int, end_of(node, cut) as int),
    )
}

/// The source text of a declaration's name.
pub open spec fn name_text(node: SyntaxModel, source: Seq<char>) -> Option<Seq<char>> {
    match syntax::child_in(node, "name"@) {
        Some(name) => Some(syntax::node_text(name, source)),
        None => None,
    }
}

/// The item of a declaration that has a name.
pub open spec fn named_items(
    node: SyntaxModel,
    source: Seq<char>,
    path: Seq<char>,
    kind: Kind,
    cut: Option<nat>,
) -> Seq<ItemModel> {
    match name_text(node, source) {
        None => seq![],
        Some(name) => seq![
            ItemModel {
                id: IdModel { path, kind, name },
                signature: signature_text(node, source, cut),
                line: syntax::line_of(node),
                parent: None,
                refs: refs::refs_in(
                    Grammar::Rust,
                    node,
                    source,
                    cut,
                    // A type does not reference itself.
                    if declares_type(kind) {
                        Some(name)
                    } else {
                        None
                    },
                ),
            },
        ],
    }
}

/// Whether an item of the kind declares a type.
pub open spec fn declares_type(kind: Kind) -> bool {
    kind == Kind::Struct || kind == Kind::Enum || kind == Kind::Trait || kind == Kind::TypeAlias
}

/// The item of a member of a composite: its id is `qualified`, and its
/// signature names it so.
pub open spec fn member_items(
    node: SyntaxModel,
    source: Seq<char>,
    path: Seq<char>,
    kind: Kind,
    parent: Seq<char>,
    qualified: Seq<char>,
    cut: Option<nat>,
) -> Seq<ItemModel> {
    match syntax::child_in(node, "name"@) {
        None => seq![],
        Some(name) => seq![
            ItemModel {
                id: IdModel { path, kind, name: qualified },
                signature: spliced_text(node, source, cut, name, qualified),
                line: syntax::line_of(node),
                parent: Some(parent),
                refs: refs::refs_in(Grammar::Rust, node, source, cut, Some(parent)),
            },
        ],
    }
}

/// `Parent::member`.
pub open spec fn scoped(parent: Seq<char>, member: Seq<char>) -> Seq<char> {
    parent + "::"@ + member
}

/// The item of a named field.
pub open spec fn field_items(
    field: SyntaxModel,
    source: Seq<char>,
    path: Seq<char>,
    parent: Seq<char>,
) -> Seq<ItemModel> {
    match name_text(field, source) {
        Some(name) => if field.kind == "field_declaration"@ {
            member_items(field, source, path, Kind::Field, parent, scoped(parent, name), None)
        } else {
            seq![]
        },
        None => seq![],
    }
}

/// The item of an enum variant.
pub open spec fn variant_items(
    variant: SyntaxModel,
    source: Seq<char>,
    path: Seq<char>,
    parent: Seq<char>,
) -> Seq<ItemModel> {
    match name_text(variant, source) {
        Some(name) => if variant.kind == "enum_variant"@ {
            member_items(variant, source, path, Kind::Variant, parent, scoped(parent, name), None)
        } else {
            seq![]
        },
        None => seq![],
    }
}

/// The kind of a trait member, by the kind of its node.
pub open spec fn trait_member_kind(member: SyntaxModel) -> Option<Kind> {
    if member.kind == "function_signature_item"@ || member.kind == "function_item"@ {
        Some(Kind::TraitMethod)
    } else if member.kind == "associated_type"@ {
        Some(Kind::AssocType)
    } else if member.kind == "const_item"@ {
        Some(Kind::Const)
    } else {
        None
    }
}

/// The item of a trait member.
pub open spec fn trait_member_items(
    member: SyntaxModel,
    source: Seq<char>,
    path: Seq<char>,
    parent: Seq<char>,
) -> Seq<ItemModel> {
    match (trait_member_kind(member), name_text(member, source)) {
        (Some(kind), Some(name)) => member_items(
            member,
            source,
            path,
            kind,
            parent,
            scoped(parent, name),
            tail_of(member),
        ),
        _ => seq![],
    }
}

/// What the members of a composite are.
#[derive(Clone, Copy, Debug, PartialEq, Eq, Structural)]
pub enum Members {
    Fields,
    Variants,
    TraitMembers,
}

/// The item of one of a composite's members.
pub open spec fn listed_items(
    member: SyntaxModel,
    source: Seq<char>,
    path: Seq<char>,
    parent: Seq<char>,
    what: Members,
) -> Seq<ItemModel> {
    match what {
        Members::Fields => field_items(member, source, path, parent),
        Members::Variants => variant_items(member, source, path, parent),
        Members::TraitMembers => trait_member_items(member, source, path, parent),
    }
}

/// The items of the first `n` of a composite's members.
pub open spec fn members_upto(
    list: Seq<SyntaxModel>,
    source: Seq<char>,
    path: Seq<char>,
    parent: Seq<char>,
    what: Members,
    n: int,
) -> Seq<ItemModel>
    decreases n,
{
    if n <= 0 {
        seq![]
    } else {
        members_upto(list, source, path, parent, what, n - 1) + listed_items(
            list[n - 1],
            source,
            path,
            parent,
            what,
        )
    }
}

/// Whether a node is a comment.
pub open spec fn is_comment(node: SyntaxModel) -> bool {
    node.kind == "line_comment"@ || node.kind == "block_comment"@
}

/// Whether a child of a tuple field list is a field: its `type` children are.
pub open spec fn is_tuple_field(child: ChildModel) -> bool {
    child.field == Some("type"@)
}

/// The visibility that ends the first `n` children of a tuple field list,
/// comments aside.
pub open spec fn visibility_before(children: Seq<ChildModel>, n: int) -> Option<SyntaxModel>
    decreases n,
{
    if n <= 0 {
        None
    } else if is_comment(children[n - 1].node) {
        visibility_before(children, n - 1)
    } else if children[n - 1].node.kind == "visibility_modifier"@ {
        Some(children[n - 1].node)
    } else {
        None
    }
}

/// The signature of the tuple field at `at` in the list, field `index`: its
/// visibility, if it has one, stands before it as a sibling.
pub open spec fn tuple_field_text(
    children: Seq<ChildModel>,
    source: Seq<char>,
    parent: Seq<char>,
    at: int,
    index: nat,
) -> Seq<char> {
    let plain = scoped(parent, text::decimal(index)) + ": "@ + tidy(
        syntax::node_text(children[at].node, source),
    );
    match visibility_before(children, at) {
        Some(visibility) => syntax::node_text(visibility, source) + " "@ + plain,
        None => plain,
    }
}

/// The items of the tuple fields among the first `n` children of a list, keyed
/// positionally.
pub open spec fn tuple_upto(
    children: Seq<ChildModel>,
    source: Seq<char>,
    path: Seq<char>,
    parent: Seq<char>,
    n: int,
) -> Seq<ItemModel>
    decreases n,
{
    if n <= 0 {
        seq![]
    } else {
        let before = tuple_upto(children, source, path, parent, n - 1);
        let child = children[n - 1];
        if !is_tuple_field(child) {
            before
        } else {
            before.push(
                ItemModel {
                    id: IdModel {
                        path,
                        kind: Kind::Field,
                        name: scoped(parent, text::decimal(before.len())),
                    },
                    signature: tuple_field_text(children, source, parent, n - 1, before.len()),
                    line: syntax::line_of(child.node),
                    parent: Some(parent),
                    refs: refs::refs_in(Grammar::Rust, child.node, source, None, Some(parent)),
                },
            )
        }
    }
}

/// The items of a struct's fields.
pub open spec fn struct_items(
    node: SyntaxModel,
    source: Seq<char>,
    path: Seq<char>,
) -> Seq<ItemModel> {
    match (name_text(node, source), syntax::child_in(node, "body"@)) {
        (Some(parent), Some(body)) => {
            if body.kind == "field_declaration_list"@ {
                let list = syntax::named_of(body);
                members_upto(list, source, path, parent, Members::Fields, list.len() as int)
            } else if body.kind == "ordered_field_declaration_list"@ {
                tuple_upto(body.children, source, path, parent, body.children.len() as int)
            } else {
                seq![]
            }
        },
        _ => seq![],
    }
}

/// The items of the members in a composite's body.
pub open spec fn body_items(
    node: SyntaxModel,
    source: Seq<char>,
    path: Seq<char>,
    what: Members,
) -> Seq<ItemModel> {
    match (name_text(node, source), syntax::child_in(node, "body"@)) {
        (Some(parent), Some(body)) => {
            let list = syntax::named_of(body);
            members_upto(list, source, path, parent, what, list.len() as int)
        },
        _ => seq![],
    }
}

/// The first `type_identifier` in a pre-order walk of a type node — the base
/// type a method hangs off.
pub open spec fn base_type(node: SyntaxModel, source: Seq<char>) -> Option<Seq<char>>
    decreases node, node.children.len() + 1,
{
    if node.kind == "type_identifier"@ {
        Some(syntax::node_text(node, source))
    } else {
        base_type_from(node, source, node.children.len() as int)
    }
}

/// The first base type in the last `left` children of a node.
pub open spec fn base_type_from(node: SyntaxModel, source: Seq<char>, left: int) -> Option<
    Seq<char>,
>
    decreases node, left,
{
    if left <= 0 || left > node.children.len() {
        None
    } else {
        match base_type(node.children[node.children.len() - left].node, source) {
            Some(name) => Some(name),
            None => base_type_from(node, source, left - 1),
        }
    }
}

/// The kind of an impl member, by the kind of its node.
pub open spec fn impl_member_kind(child: SyntaxModel) -> Option<Kind> {
    if child.kind == "function_item"@ {
        Some(Kind::Method)
    } else if child.kind == "const_item"@ {
        Some(Kind::Const)
    } else if child.kind == "type_item"@ {
        Some(Kind::AssocType)
    } else {
        None
    }
}

/// `Type::member`, or `<Type as Trait>::member` in a trait impl.
pub open spec fn impl_member_name(
    base: Seq<char>,
    of_name: Option<Seq<char>>,
    member: Seq<char>,
) -> Seq<char> {
    match of_name {
        None => scoped(base, member),
        Some(tr) => "<"@ + base + " as "@ + tr + ">::"@ + member,
    }
}

/// The item of a member of an impl.
pub open spec fn impl_member_items(
    member: SyntaxModel,
    source: Seq<char>,
    path: Seq<char>,
    base: Seq<char>,
    of_name: Option<Seq<char>>,
) -> Seq<ItemModel> {
    match (impl_member_kind(member), name_text(member, source)) {
        (Some(kind), Some(name)) => member_items(
            member,
            source,
            path,
            kind,
            base,
            impl_member_name(base, of_name, name),
            tail_of(member),
        ),
        _ => seq![],
    }
}

/// The items of the first `n` members of an impl.
pub open spec fn impl_upto(
    body: SyntaxModel,
    source: Seq<char>,
    path: Seq<char>,
    base: Seq<char>,
    of_name: Option<Seq<char>>,
    n: int,
) -> Seq<ItemModel>
    decreases n,
{
    if n <= 0 {
        seq![]
    } else {
        impl_upto(body, source, path, base, of_name, n - 1) + impl_member_items(
            body.children[n - 1].node,
            source,
            path,
            base,
            of_name,
        )
    }
}

/// The name of the trait an impl is of, if it is of one.
pub open spec fn impl_trait(node: SyntaxModel, source: Seq<char>) -> Option<Seq<char>> {
    match syntax::child_in(node, "trait"@) {
        Some(tr) => base_type(tr, source),
        None => None,
    }
}

/// The items of an impl's members.
pub open spec fn impl_items(
    node: SyntaxModel,
    source: Seq<char>,
    path: Seq<char>,
) -> Seq<ItemModel> {
    match (syntax::child_in(node, "type"@), syntax::child_in(node, "body"@)) {
        (Some(ty), Some(body)) => match base_type(ty, source) {
            None => seq![],
            Some(base) => impl_upto(
                body,
                source,
                path,
                base,
                impl_trait(node, source),
                body.children.len() as int,
            ),
        },
        _ => seq![],
    }
}

/// The items of one top-level declaration. Attributes, `use`, inline `mod`,
/// foreign blocks, unions and macros contribute no API shape here.
pub open spec fn declaration_items(
    node: SyntaxModel,
    source: Seq<char>,
    path: Seq<char>,
) -> Seq<ItemModel> {
    let body = start_of(node, "body"@);
    let value = start_of(node, "value"@);
    if node.kind == "function_item"@ {
        named_items(node, source, path, Kind::Function, body)
    } else if node.kind == "struct_item"@ {
        named_items(node, source, path, Kind::Struct, body) + struct_items(node, source, path)
    } else if node.kind == "enum_item"@ {
        named_items(node, source, path, Kind::Enum, body) + body_items(
            node,
            source,
            path,
            Members::Variants,
        )
    } else if node.kind == "trait_item"@ {
        named_items(node, source, path, Kind::Trait, body) + body_items(
            node,
            source,
            path,
            Members::TraitMembers,
        )
    } else if node.kind == "type_item"@ {
        named_items(node, source, path, Kind::TypeAlias, None)
    } else if node.kind == "const_item"@ {
        named_items(node, source, path, Kind::Const, value)
    } else if node.kind == "static_item"@ {
        named_items(node, source, path, Kind::Static, value)
    } else if node.kind == "impl_item"@ {
        impl_items(node, source, path)
    } else {
        seq![]
    }
}

/// The items of the first `n` top-level declarations of a file.
pub open spec fn items_upto(
    root: SyntaxModel,
    source: Seq<char>,
    path: Seq<char>,
    n: int,
) -> Seq<ItemModel>
    decreases n,
{
    if n <= 0 {
        seq![]
    } else {
        items_upto(root, source, path, n - 1) + declaration_items(
            root.children[n - 1].node,
            source,
            path,
        )
    }
}

/// The items of a file, in source order.
pub open spec fn file_items(
    root: SyntaxModel,
    source: Seq<char>,
    path: Seq<char>,
) -> Seq<ItemModel> {
    items_upto(root, source, path, root.children.len() as int)
}

/// Collapses internal whitespace to single spaces and trims any trailing
/// delimiter (`;`, `=`, `{`) and whitespace.
pub fn normalize_whitespace(raw: &str) -> (words: String)
    ensures
        words@ == tidy(raw@),
{
    let collapsed = text::collapse(raw);
    let chars = text::chars_of(collapsed.as_str());
    let ghost all = collapsed@;
    let ghost drop = |c: char| trailing(c);
    let mut end: usize = chars.len();
    assert(all.take(end as int) =~= all);
    while end > 0 && (chars[end - 1] == ';' || chars[end - 1] == '=' || chars[end - 1] == '{'
        || text::is_white_space(chars[end - 1]))
        invariant
            end <= chars@.len(),
            chars@ == all,
            drop == (|c: char| trailing(c)),
            text::without_tail(all, drop) == text::without_tail(all.take(end as int), drop),
        decreases end,
    {
        proof {
            assert(all.take(end as int).drop_last() =~= all.take(end - 1));
        }
        end = end - 1;
    }
    proof {
        assert(all.take(end as int) =~= all.subrange(0, end as int));
    }
    text::text_of(&chars, 0, end)
}

/// Where the child that fills `field` starts.
fn cut_at(node: &SyntaxNode, field: &str) -> (at: Option<usize>)
    ensures
        refs::cut_model(at) == start_of(node@, field@),
{
    match node.child_by_field(field) {
        Some(child) => Some(child.start),
        None => None,
    }
}

/// Where a member's uninteresting tail starts: a method's body block or a
/// const's initialiser. `None` for members whose whole text is shape (fields,
/// variants, associated types).
fn member_cut(node: &SyntaxNode) -> (at: Option<usize>)
    ensures
        refs::cut_model(at) == tail_of(node@),
{
    match cut_at(node, "body") {
        Some(at) => Some(at),
        None => cut_at(node, "value"),
    }
}

/// Whether a cut lies where a body or a value starts, if anywhere.
pub open spec fn proper_cut(node: SyntaxModel, cut: Option<nat>) -> bool {
    cut is None || cut == start_of(node, "body"@) || cut == start_of(node, "value"@)
}

/// A proper cut lies after the name, within the node and between characters.
pub proof fn lemma_cut(node: SyntaxModel, source: Seq<char>, cut: Option<nat>)
    requires
        syntax::readable(node, source),
        proper_cut(node, cut),
    ensures
        text::sliceable(source, node.start as int, end_of(node, cut) as int),
        syntax::child_in(node, "name"@) matches Some(name) ==> text::sliceable(
            source,
            node.start as int,
            name.start as int,
        ) && text::sliceable(source, name.end as int, end_of(node, cut) as int),
{
    syntax::lemma_child_readable(node, "name"@, source);
    syntax::lemma_child_readable(node, "body"@, source);
    syntax::lemma_child_readable(node, "value"@, source);
    syntax::lemma_field_at(node, "name"@, 0);
    syntax::lemma_field_at(node, "body"@, 0);
    syntax::lemma_field_at(node, "value"@, 0);
    if let (Some(name), Some(rest)) = (
        syntax::field_at(node, "name"@, 0),
        syntax::field_at(node, "body"@, 0),
    ) {
        syntax::lemma_in_order(node, source, name, rest);
    }
    if let (Some(name), Some(rest)) = (
        syntax::field_at(node, "name"@, 0),
        syntax::field_at(node, "value"@, 0),
    ) {
        syntax::lemma_in_order(node, source, name, rest);
    }
}

/// The source text of a declaration's name.
fn name_field<'a>(node: &SyntaxNode, source: &'a str) -> (name: Option<&'a str>)
    requires
        syntax::readable(node@, source@),
    ensures
        match name {
            Some(words) => name_text(node@, source@) == Some(words@),
            None => name_text(node@, source@) is None,
        },
{
    proof {
        syntax::lemma_child_readable(node@, "name"@, source@);
    }
    match node.child_by_field("name") {
        Some(name) => Some(syntax::text_of_node(name, source)),
        None => None,
    }
}

/// The declaration text from the item's start up to `cut` (or the node end),
/// with internal whitespace collapsed to single spaces and any trailing
/// delimiter (`;`, `=`, `{`) and whitespace trimmed.
fn signature(node: &SyntaxNode, source: &str, cut: Option<usize>) -> (words: String)
    requires
        syntax::readable(node@, source@),
        proper_cut(node@, refs::cut_model(cut)),
    ensures
        words@ == signature_text(node@, source@, refs::cut_model(cut)),
{
    proof {
        lemma_cut(node@, source@, refs::cut_model(cut));
    }
    let end: usize = match cut {
        Some(at) => at,
        None => node.end,
    };
    normalize_whitespace(text::byte_slice(source, node.start, end))
}

/// `signature`, but with `qualified` spliced over the node's bare name so a
/// member's rendered line names its parent.
fn spliced_signature(
    node: &SyntaxNode,
    source: &str,
    cut: Option<usize>,
    name: &SyntaxNode,
    qualified: &str,
) -> (words: String)
    requires
        syntax::readable(node@, source@),
        proper_cut(node@, refs::cut_model(cut)),
        syntax::child_in(node@, "name"@) == Some(name@),
    ensures
        words@ == spliced_text(node@, source@, refs::cut_model(cut), name@, qualified@),
{
    proof {
        lemma_cut(node@, source@, refs::cut_model(cut));
    }
    let end: usize = match cut {
        Some(at) => at,
        None => node.end,
    };
    let before = text::byte_slice(source, node.start, name.start);
    let after = text::byte_slice(source, name.end, end);
    let spliced = text::join3(before, qualified, after);
    normalize_whitespace(spliced.as_str())
}

/// Pushes one item whose identifier is in the `name` field. `cut` is the byte
/// where the body/initialiser begins; everything from there on is dropped from
/// the signature.
fn push_named(
    node: &SyntaxNode,
    source: &str,
    path: &str,
    kind: Kind,
    cut: Option<usize>,
    out: &mut Surface,
)
    requires
        syntax::readable(node@, source@),
        proper_cut(node@, refs::cut_model(cut)),
    ensures
        final(out)@ == old(out)@ + named_items(
            node@,
            source@,
            path@,
            kind,
            refs::cut_model(cut),
        ),
{
    let ghost before = out@;
    if let Some(name) = name_field(node, source) {
        let own = match kind {
            Kind::Struct | Kind::Enum | Kind::Trait | Kind::TypeAlias => Some(name),
            _ => None,
        };
        out.push(
            Item {
                id: ItemId { path: path.to_owned(), kind, name: name.to_owned() },
                signature: signature(node, source, cut),
                line: syntax::start_line(node),
                parent: None,
                refs: refs::collect_refs(Grammar::Rust, node, source, cut, own),
            },
        );
    }
    assert(out@ =~= before + named_items(node@, source@, path@, kind, refs::cut_model(cut)));
}

/// Pushes one member of a composite item: its id is `qualified`, and its
/// signature is the member's declaration text with `qualified` spliced over
/// the bare name, so the rendered line is self-contained.
fn push_member(
    node: &SyntaxNode,
    source: &str,
    path: &str,
    kind: Kind,
    parent: &str,
    qualified: String,
    cut: Option<usize>,
    out: &mut Surface,
)
    requires
        syntax::readable(node@, source@),
        proper_cut(node@, refs::cut_model(cut)),
    ensures
        final(out)@ == old(out)@ + member_items(
            node@,
            source@,
            path@,
            kind,
            parent@,
            qualified@,
            refs::cut_model(cut),
        ),
{
    let ghost before = out@;
    let ghost full = qualified@;
    if let Some(name) = node.child_by_field("name") {
        let words = spliced_signature(node, source, cut, name, qualified.as_str());
        out.push(
            Item {
                id: ItemId { path: path.to_owned(), kind, name: qualified },
                signature: words,
                line: syntax::start_line(node),
                parent: Some(parent.to_owned()),
                refs: refs::collect_refs(Grammar::Rust, node, source, cut, Some(parent)),
            },
        );
    }
    assert(out@ =~= before + member_items(
        node@,
        source@,
        path@,
        kind,
        parent@,
        full,
        refs::cut_model(cut),
    ));
}

/// Adds the items of one top-level declaration.
pub fn extract_into(node: &SyntaxNode, source: &str, path: &str, out: &mut Surface)
    requires
        syntax::readable(node@, source@),
    ensures
        final(out)@ == old(out)@ + declaration_items(node@, source@, path@),
{
    let ghost before = out@;
    if node.is("function_item") {
        push_named(node, source, path, Kind::Function, cut_at(node, "body"), out);
    } else if node.is("struct_item") {
        push_named(node, source, path, Kind::Struct, cut_at(node, "body"), out);
        extract_struct_fields(node, source, path, out);
    } else if node.is("enum_item") {
        push_named(node, source, path, Kind::Enum, cut_at(node, "body"), out);
        extract_variants(node, source, path, out);
    } else if node.is("trait_item") {
        push_named(node, source, path, Kind::Trait, cut_at(node, "body"), out);
        extract_trait_members(node, source, path, out);
    } else if node.is("type_item") {
        push_named(node, source, path, Kind::TypeAlias, None, out);
    } else if node.is("const_item") {
        push_named(node, source, path, Kind::Const, cut_at(node, "value"), out);
    } else if node.is("static_item") {
        push_named(node, source, path, Kind::Static, cut_at(node, "value"), out);
    } else if node.is("impl_item") {
        extract_impl(node, source, path, out);
    }
    // Skipped: attributes, `use`, inline `mod`, foreign blocks, unions, and
    // macros. None contribute top-level API shape here.
    assert(out@ =~= before + declaration_items(node@, source@, path@));
}

/// One `Item` per struct field. Named fields key as `Struct::field`; tuple
/// fields key positionally as `Struct::0`, `Struct::1`, …
fn extract_struct_fields(node: &SyntaxNode, source: &str, path: &str, out: &mut Surface)
    requires
        syntax::readable(node@, source@),
    ensures
        final(out)@ == old(out)@ + struct_items(node@, source@, path@),
{
    let ghost before = out@;
    proof {
        syntax::lemma_child_readable(node@, "body"@, source@);
    }
    let name = name_field(node, source);
    let body = node.child_by_field("body");
    if let (Some(parent), Some(list)) = (name, body) {
        if list.is("field_declaration_list") {
            extract_members(list, source, path, parent, Members::Fields, out);
        } else if list.is("ordered_field_declaration_list") {
            extract_tuple_fields(list, source, path, parent, out);
        }
    }
    assert(out@ =~= before + struct_items(node@, source@, path@));
}

/// The visibility that ends the first `n` children of a tuple field list,
/// comments aside.
fn find_visibility(body: &SyntaxNode, n: usize) -> (visibility: Option<&SyntaxNode>)
    requires
        n <= body.children@.len(),
    ensures
        match visibility {
            Some(found) => visibility_before(body@.children, n as int) == Some(found@),
            None => visibility_before(body@.children, n as int) is None,
        },
{
    proof {
        syntax::lemma_children(*body);
    }
    let mut left: usize = n;
    while left > 0
        invariant
            left <= n <= body.children@.len(),
            body@.children == item::views(body.children@),
            visibility_before(body@.children, n as int) == visibility_before(
                body@.children,
                left as int,
            ),
        decreases left,
    {
        let node = &body.children[left - 1].node;
        assert(body@.children[left - 1] == body.children@[left - 1]@);
        if node.is("visibility_modifier") {
            proof {
                lemma_no_comment();
            }
            return Some(node);
        }
        if !(node.is("line_comment") || node.is("block_comment")) {
            return None;
        }
        left = left - 1;
    }
    None
}

/// A visibility is no comment.
proof fn lemma_no_comment()
    ensures
        "visibility_modifier"@ != "line_comment"@,
        "visibility_modifier"@ != "block_comment"@,
{
    reveal_strlit("visibility_modifier");
    reveal_strlit("line_comment");
    reveal_strlit("block_comment");
    assert("visibility_modifier"@[0] == 'v');
    assert("line_comment"@[0] == 'l');
    assert("block_comment"@[0] == 'b');
}

/// The visibility found in a readable list is readable.
proof fn lemma_visibility_readable(body: SyntaxModel, source: Seq<char>, n: int)
    requires
        syntax::readable(body, source),
        0 <= n <= body.children.len(),
    ensures
        visibility_before(body.children, n) matches Some(found) ==> syntax::readable(found, source),
    decreases n,
{
    if n > 0 {
        assert(syntax::readable(body.children[n - 1].node, source));
        lemma_visibility_readable(body, source, n - 1);
    }
}

/// Whether a child of a tuple field list is a field.
fn fills_type(child: &SyntaxChild) -> (yes: bool)
    ensures
        yes == is_tuple_field(child@),
{
    match child.field {
        Some(field) => text::same_text(field, "type"),
        None => false,
    }
}

/// One `Item` per field of a tuple struct.
fn extract_tuple_fields(
    body: &SyntaxNode,
    source: &str,
    path: &str,
    parent: &str,
    out: &mut Surface,
)
    requires
        syntax::readable(body@, source@),
    ensures
        final(out)@ == old(out)@ + tuple_upto(
            body@.children,
            source@,
            path@,
            parent@,
            body@.children.len() as int,
        ),
{
    let ghost before = out@;
    let ghost all = body@.children;
    proof {
        syntax::lemma_children(*body);
    }
    let mut index: usize = 0;
    let mut i: usize = 0;
    assert(before + tuple_upto(all, source@, path@, parent@, 0) =~= before);
    while i < body.children.len()
        invariant
            i <= body.children@.len(),
            index <= i,
            all == body@.children,
            all == item::views(body.children@),
            syntax::readable(body@, source@),
            index == tuple_upto(all, source@, path@, parent@, i as int).len(),
            out@ == before + tuple_upto(all, source@, path@, parent@, i as int),
        decreases body.children.len() - i,
    {
        let child = &body.children[i].node;
        proof {
            assert(all[i as int] == body.children@[i as int]@);
            assert(syntax::readable(body@.children[i as int].node, source@));
            lemma_visibility_readable(body@, source@, i as int);
        }
        // The list's `type` children are the fields; a `visibility_modifier`
        // sits before its type as a sibling.
        if fills_type(&body.children[i]) {
            let ty = normalize_whitespace(syntax::text_of_node(child, source));
            let number = text::decimal_text(index as u64);
            let name = text::join3(parent, "::", number.as_str());
            let mut words = text::join3(name.as_str(), ": ", ty.as_str());
            if let Some(found) = find_visibility(body, i) {
                let vis = syntax::text_of_node(found, source);
                words = text::join3(vis, " ", words.as_str());
            }
            assert(words@ == tuple_field_text(all, source@, parent@, i as int, index as nat));
            out.push(
                Item {
                    id: ItemId { path: path.to_owned(), kind: Kind::Field, name },
                    signature: words,
                    line: syntax::start_line(child),
                    parent: Some(parent.to_owned()),
                    refs: refs::collect_refs(Grammar::Rust, child, source, None, Some(parent)),
                },
            );
            index = index + 1;
        }
        i = i + 1;
        assert(out@ =~= before + tuple_upto(all, source@, path@, parent@, i as int));
    }
}

/// One `Item` per member in the body of a composite.
fn extract_members(
    body: &SyntaxNode,
    source: &str,
    path: &str,
    parent: &str,
    what: Members,
    out: &mut Surface,
)
    requires
        syntax::readable(body@, source@),
    ensures
        final(out)@ == old(out)@ + members_upto(
            syntax::named_of(body@),
            source@,
            path@,
            parent@,
            what,
            syntax::named_of(body@).len() as int,
        ),
{
    let ghost before = out@;
    let list = body.named_children();
    let ghost all = syntax::named_of(body@);
    proof {
        syntax::lemma_named_readable(body@, source@, body@.children.len() as int);
    }
    let mut i: usize = 0;
    assert(before + members_upto(all, source@, path@, parent@, what, 0) =~= before);
    while i < list.len()
        invariant
            i <= list@.len(),
            all == item::views(list@),
            forall|k: int| 0 <= k < all.len() ==> syntax::readable(#[trigger] all[k], source@),
            out@ == before + members_upto(all, source@, path@, parent@, what, i as int),
        decreases list.len() - i,
    {
        let member = list[i];
        assert(all[i as int] == member@);
        let found: Option<(Kind, Option<usize>)> = match what {
            Members::Fields => if member.is("field_declaration") {
                Some((Kind::Field, None))
            } else {
                None
            },
            Members::Variants => if member.is("enum_variant") {
                Some((Kind::Variant, None))
            } else {
                None
            },
            Members::TraitMembers => if member.is("function_signature_item") || member.is(
                "function_item",
            ) {
                Some((Kind::TraitMethod, member_cut(member)))
            } else if member.is("associated_type") {
                Some((Kind::AssocType, member_cut(member)))
            } else if member.is("const_item") {
                Some((Kind::Const, member_cut(member)))
            } else {
                None
            },
        };
        let name = name_field(member, source);
        if let (Some((kind, cut)), Some(own)) = (found, name) {
            let qualified = text::join3(parent, "::", own);
            push_member(member, source, path, kind, parent, qualified, cut, out);
        }
        i = i + 1;
        assert(out@ =~= before + members_upto(all, source@, path@, parent@, what, i as int));
    }
}

/// One `Item` per enum variant, `Enum::Variant`, with the variant's whole text
/// (including any payload) as the signature.
fn extract_variants(node: &SyntaxNode, source: &str, path: &str, out: &mut Surface)
    requires
        syntax::readable(node@, source@),
    ensures
        final(out)@ == old(out)@ + body_items(node@, source@, path@, Members::Variants),
{
    extract_body(node, source, path, Members::Variants, out);
}

/// One `Item` per trait member: required and default methods (`TraitMethod`),
/// associated types (`AssocType`), and associated consts (`Const`).
fn extract_trait_members(node: &SyntaxNode, source: &str, path: &str, out: &mut Surface)
    requires
        syntax::readable(node@, source@),
    ensures
        final(out)@ == old(out)@ + body_items(node@, source@, path@, Members::TraitMembers),
{
    extract_body(node, source, path, Members::TraitMembers, out);
}

/// One `Item` per member of a named composite with a body.
fn extract_body(node: &SyntaxNode, source: &str, path: &str, what: Members, out: &mut Surface)
    requires
        syntax::readable(node@, source@),
    ensures
        final(out)@ == old(out)@ + body_items(node@, source@, path@, what),
{
    let ghost before = out@;
    proof {
        syntax::lemma_child_readable(node@, "body"@, source@);
    }
    let name = name_field(node, source);
    let body = node.child_by_field("body");
    if let (Some(parent), Some(list)) = (name, body) {
        extract_members(list, source, path, parent, what, out);
    }
    assert(out@ =~= before + body_items(node@, source@, path@, what));
}

/// First `type_identifier` in a pre-order walk of a type node. Reduces `Foo`,
/// `Foo<T>`, `&mut Foo`, `Box<Foo>` all to their first name — the base type a
/// method hangs off.
fn first_type_identifier<'a>(node: &SyntaxNode, source: &'a str) -> (name: Option<&'a str>)
    requires
        syntax::readable(node@, source@),
    ensures
        match name {
            Some(words) => base_type(node@, source@) == Some(words@),
            None => base_type(node@, source@) is None,
        },
    decreases node,
{
    if node.is("type_identifier") {
        return Some(syntax::text_of_node(node, source));
    }
    proof {
        syntax::lemma_children(*node);
    }
    let length: usize = node.children.len();
    let mut i: usize = 0;
    while i < length
        invariant
            i <= length == node.children@.len(),
            node@.children == item::views(node.children@),
            syntax::readable(node@, source@),
            base_type(node@, source@) == base_type_from(node@, source@, length - i),
        decreases length - i,
    {
        proof {
            assert(node@.children[i as int] == node.children@[i as int]@);
            assert(syntax::readable(node@.children[i as int].node, source@));
        }
        if let Some(found) = first_type_identifier(&node.children[i].node, source) {
            return Some(found);
        }
        i = i + 1;
    }
    None
}

/// Descends one `impl` block, emitting each member: methods, associated
/// consts, and associated types. The receiver type is reduced to its base
/// identifier (so `impl Foo<T>` and `impl Foo<U>` share `Foo::method`); a
/// trait impl qualifies the name with the trait.
fn extract_impl(node: &SyntaxNode, source: &str, path: &str, out: &mut Surface)
    requires
        syntax::readable(node@, source@),
    ensures
        final(out)@ == old(out)@ + impl_items(node@, source@, path@),
{
    let ghost before = out@;
    proof {
        syntax::lemma_child_readable(node@, "type"@, source@);
        syntax::lemma_child_readable(node@, "trait"@, source@);
        syntax::lemma_child_readable(node@, "body"@, source@);
    }
    let of_name = match node.child_by_field("trait") {
        Some(tr) => first_type_identifier(tr, source),
        None => None,
    };
    let ty = node.child_by_field("type");
    let body = node.child_by_field("body");
    if let (Some(type_node), Some(list)) = (ty, body) {
        if let Some(base) = first_type_identifier(type_node, source) {
            extract_impl_members(list, source, path, base, of_name, out);
        }
    }
    assert(out@ =~= before + impl_items(node@, source@, path@));
}

/// One `Item` per member in the body of an impl.
fn extract_impl_members(
    body: &SyntaxNode,
    source: &str,
    path: &str,
    base: &str,
    of_name: Option<&str>,
    out: &mut Surface,
)
    requires
        syntax::readable(body@, source@),
    ensures
        final(out)@ == old(out)@ + impl_upto(
            body@,
            source@,
            path@,
            base@,
            (match of_name {
                Some(tr) => Some(tr@),
                None => None,
            }),
            body@.children.len() as int,
        ),
{
    let ghost before = out@;
    let ghost of_trait = match of_name {
        Some(tr) => Some(tr@),
        None => None,
    };
    proof {
        syntax::lemma_children(*body);
    }
    let mut i: usize = 0;
    assert(before + impl_upto(body@, source@, path@, base@, of_trait, 0) =~= before);
    while i < body.children.len()
        invariant
            i <= body.children@.len(),
            body@.children == item::views(body.children@),
            syntax::readable(body@, source@),
            of_trait == (match of_name {
                Some(tr) => Some(tr@),
                None => None,
            }),
            out@ == before + impl_upto(
                body@,
                source@,
                path@,
                base@,
                of_trait,
                i as int,
            ),
        decreases body.children.len() - i,
    {
        let child = &body.children[i].node;
        proof {
            assert(body@.children[i as int] == body.children@[i as int]@);
            assert(syntax::readable(body@.children[i as int].node, source@));
        }
        let kind: Option<Kind> = if child.is("function_item") {
            Some(Kind::Method)
        } else if child.is("const_item") {
            Some(Kind::Const)
        } else if child.is("type_item") {
            Some(Kind::AssocType)
        } else {
            None
        };
        let name = name_field(child, source);
        if let (Some(found), Some(member)) = (kind, name) {
            let qualified = match of_name {
                None => text::join3(base, "::", member),
                Some(tr) => {
                    let head = text::join4("<", base, " as ", tr);
                    text::join3(head.as_str(), ">::", member)
                },
            };
            let cut = member_cut(child);
            push_member(child, source, path, found, base, qualified, cut, out);
        }
        i = i + 1;
        assert(out@ =~= before + impl_upto(
            body@,
            source@,
            path@,
            base@,
            of_trait,
            i as int,
        ));
    }
}

/// The surface of a Rust file, from its syntax tree.
pub fn extract_tree(root: &SyntaxNode, source: &str, path: &str) -> (out: Surface)
    requires
        syntax::readable(root@, source@),
    ensures
        out@ == file_items(root@, source@, path@),
{
    proof {
        syntax::lemma_children(*root);
    }
    let mut out = Surface::new();
    let mut i: usize = 0;
    while i < root.children.len()
        invariant
            i <= root.children@.len(),
            root@.children == item::views(root.children@),
            syntax::readable(root@, source@),
            out@ == items_upto(root@, source@, path@, i as int),
        decreases root.children.len() - i,
    {
        proof {
            assert(root@.children[i as int] == root.children@[i as int]@);
            assert(syntax::readable(root@.children[i as int].node, source@));
        }
        extract_into(&root.children[i].node, source, path, &mut out);
        i = i + 1;
    }
    out
}

/// Extracts the surface of Rust files.
pub struct RustProducer {
    parser: SourceParser,
}

impl RustProducer {
    /// The producer parses Rust.
    pub closed spec fn ready(self) -> bool {
        self.parser.grammar() == Some(Grammar::Rust)
    }

    /// A producer.
    pub fn new() -> (made: Result<Self, ProducerError>)
        ensures
            made matches Ok(producer) && producer.ready(),
    {
        match SourceParser::new(Grammar::Rust) {
            Ok(parser) => Ok(RustProducer { parser }),
            Err(error) => Err(error),
        }
    }

    /// The surface of a Rust file.
    pub fn extract(&mut self, path: &str, source: &str) -> (out: Result<Surface, ProducerError>)
        requires
            old(self).ready(),
        ensures
            final(self).ready(),
            ({
                let root = syntax::parsed(Grammar::Rust, source@);
                if !syntax::parsable(source@) {
                    out == Err::<Surface, ProducerError>(ProducerError::NoTree)
                } else if !syntax::readable(root, source@) {
                    out == Err::<Surface, ProducerError>(ProducerError::Unreadable)
                } else {
                    out matches Ok(surface) && surface@ == file_items(root, source@, path@)
                }
            }),
    {
        match self.parser.parse(source) {
            None => Err(ProducerError::NoTree),
            Some(root) => if root.is_readable(source) {
                Ok(extract_tree(&root, source, path))
            } else {
                Err(ProducerError::Unreadable)
            },
        }
    }
}

} // verus!

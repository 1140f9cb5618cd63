//! Tree-sitter-based extraction of top-level Go items.
//!
//! Walks the root node's direct children. For each item: function/method
//! bodies are stripped at the `body` field; struct and interface type bodies
//! are stripped to `type <name> struct` / `type <name> interface`; aliases
//! and `type Foo Bar` definitions are rendered as-is. `const` and `var`
//! blocks are split per-spec so each identifier becomes its own `Item` with a
//! stable id; this is what lets the diff distinguish "added a const" from
//! "modified a const" when the file is reordered.

use vstd::prelude::*;

use crate::item::{self, IdModel, Item, ItemId, ItemModel, Kind, TypeRef};
use crate::producer::refs;
use crate::producer::syntax::{
    self, Grammar, ProducerError, SourceParser, SyntaxModel, SyntaxNode,
};
use crate::surface::Surface;
use crate::text;

verus! {

/// Where a declaration's body starts, if it has one — the cut point for
/// signatures and reference collection.
pub open spec fn body_at(node: SyntaxModel) -> Option<nat> {
    match syntax::child_in(node, "body"@) {
        Some(body) => Some(body.start),
        None => None,
    }
}

/// The source text of the child that fills `field`.
pub open spec fn field_text(
    node: SyntaxModel,
    field: Seq<char>,
    source: Seq<char>,
) -> Option<Seq<char>> {
    match syntax::child_in(node, field) {
        Some(child) => Some(syntax::node_text(child, source)),
        None => None,
    }
}

/// The declaration text up to the body, without whitespace at either end.
pub open spec fn head_text(node: SyntaxModel, source: Seq<char>) -> Seq<char> {
    let end = match body_at(node) {
        Some(at) => at,
        None => node.end,
    };
    text::trimmed(text::byte_text(source, node.start as int, end as int))
}

/// The first named child from `i` on, comments aside.
pub open spec fn first_named(node: SyntaxModel, i: int) -> Option<SyntaxModel>
    decreases node.children.len() - i,
{
    if i >= node.children.len() {
        None
    } else if node.children[i].node.named && node.children[i].node.kind != "comment"@ {
        Some(node.children[i].node)
    } else {
        first_named(node, i + 1)
    }
}

/// A type, or what it points to if it is a pointer.
pub open spec fn pointed(ty: SyntaxModel) -> SyntaxModel {
    match first_named(ty, 0) {
        Some(inner) => if ty.kind == "pointer_type"@ {
            inner
        } else {
            ty
        },
        None => ty,
    }
}

/// The first child from `i` on of the given kind.
pub open spec fn first_of_kind(node: SyntaxModel, kind: Seq<char>, i: int) -> Option<SyntaxModel>
    decreases node.children.len() - i,
{
    if i >= node.children.len() {
        None
    } else if node.children[i].node.kind == kind {
        Some(node.children[i].node)
    } else {
        first_of_kind(node, kind, i + 1)
    }
}

/// The type of a method's receiver, as written.
pub open spec fn receiver_type(node: SyntaxModel) -> Option<SyntaxModel> {
    match syntax::child_in(node, "receiver"@) {
        None => None,
        Some(receiver) => match first_of_kind(receiver, "parameter_declaration"@, 0) {
            None => None,
            Some(param) => syntax::child_in(param, "type"@),
        },
    }
}

/// The name of a method's receiver type, `*` stripped.
pub open spec fn receiver_name(node: SyntaxModel, source: Seq<char>) -> Option<Seq<char>> {
    match receiver_type(node) {
        None => None,
        Some(ty) => Some(syntax::node_text(pointed(ty), source)),
    }
}

/// The item of a function declaration.
pub open spec fn function_items(
    node: SyntaxModel,
    source: Seq<char>,
    path: Seq<char>,
) -> Seq<ItemModel> {
    match field_text(node, "name"@, source) {
        None => seq![],
        Some(name) => seq![
            ItemModel {
                id: IdModel { path, kind: Kind::Function, name },
                signature: head_text(node, source),
                line: syntax::line_of(node),
                parent: None,
                refs: refs::refs_in(Grammar::Go, node, source, body_at(node), None),
            },
        ],
    }
}

/// The item of a method declaration, `Receiver.Method`.
pub open spec fn method_items(
    node: SyntaxModel,
    source: Seq<char>,
    path: Seq<char>,
) -> Seq<ItemModel> {
    match (field_text(node, "name"@, source), receiver_name(node, source)) {
        (Some(method), Some(receiver)) => seq![
            ItemModel {
                id: IdModel { path, kind: Kind::Method, name: receiver + "."@ + method },
                signature: head_text(node, source),
                line: syntax::line_of(node),
                parent: Some(receiver),
                refs: refs::refs_in(Grammar::Go, node, source, body_at(node), Some(receiver)),
            },
        ],
        _ => seq![],
    }
}

/// The item of one field of a struct: `Struct.field`, keyed by the first of
/// its names, or `Struct embeds Type` for an embedded type.
pub open spec fn field_items(
    field: SyntaxModel,
    source: Seq<char>,
    path: Seq<char>,
    parent: Seq<char>,
) -> Seq<ItemModel> {
    let refs = refs::refs_in(Grammar::Go, field, source, None, Some(parent));
    if field.kind != "field_declaration"@ {
        seq![]
    } else {
        match (field_text(field, "name"@, source), syntax::child_in(field, "type"@)) {
            (Some(name), _) => seq![
                ItemModel {
                    id: IdModel { path, kind: Kind::Field, name: parent + "."@ + name },
                    signature: parent + "."@ + text::collapsed(syntax::node_text(field, source)),
                    line: syntax::line_of(field),
                    parent: Some(parent),
                    refs,
                },
            ],
            (None, Some(ty)) => {
                let embedded = text::collapsed(syntax::node_text(pointed(ty), source));
                seq![
                    ItemModel {
                        id: IdModel { path, kind: Kind::Field, name: parent + "."@ + embedded },
                        signature: parent + " embeds "@ + embedded,
                        line: syntax::line_of(field),
                        parent: Some(parent),
                        refs,
                    },
                ]
            },
            (None, None) => seq![],
        }
    }
}

/// The items of the first `n` of a struct's fields.
pub open spec fn fields_upto(
    fields: Seq<SyntaxModel>,
    source: Seq<char>,
    path: Seq<char>,
    parent: Seq<char>,
    n: int,
) -> Seq<ItemModel>
    decreases n,
{
    if n <= 0 {
        seq![]
    } else {
        fields_upto(fields, source, path, parent, n - 1) + field_items(
            fields[n - 1],
            source,
            path,
            parent,
        )
    }
}

/// The items of a struct type's fields.
pub open spec fn struct_items(
    ty: SyntaxModel,
    source: Seq<char>,
    path: Seq<char>,
    parent: Seq<char>,
) -> Seq<ItemModel> {
    match first_of_kind(ty, "field_declaration_list"@, 0) {
        None => seq![],
        Some(list) => {
            let fields = syntax::named_of(list);
            fields_upto(fields, source, path, parent, fields.len() as int)
        },
    }
}

/// The item of one member of an interface: `Interface.Method(sig)`, or
/// `Interface embeds T` for an embedded interface or a type constraint.
pub open spec fn interface_member_items(
    member: SyntaxModel,
    source: Seq<char>,
    path: Seq<char>,
    parent: Seq<char>,
) -> Seq<ItemModel> {
    let whole = text::collapsed(syntax::node_text(member, source));
    let refs = refs::refs_in(Grammar::Go, member, source, None, Some(parent));
    if member.kind == "method_elem"@ {
        match field_text(member, "name"@, source) {
            None => seq![],
            Some(method) => seq![
                ItemModel {
                    id: IdModel {
                        path,
                        kind: Kind::InterfaceMethod,
                        name: parent + "."@ + method,
                    },
                    signature: parent + "."@ + whole,
                    line: syntax::line_of(member),
                    parent: Some(parent),
                    refs,
                },
            ],
        }
    } else if member.kind == "type_elem"@ {
        seq![
            ItemModel {
                id: IdModel { path, kind: Kind::InterfaceMethod, name: parent + "."@ + whole },
                signature: parent + " embeds "@ + whole,
                line: syntax::line_of(member),
                parent: Some(parent),
                refs,
            },
        ]
    } else {
        seq![]
    }
}

/// The items of the first `n` members of an interface.
pub open spec fn interface_upto(
    members: Seq<SyntaxModel>,
    source: Seq<char>,
    path: Seq<char>,
    parent: Seq<char>,
    n: int,
) -> Seq<ItemModel>
    decreases n,
{
    if n <= 0 {
        seq![]
    } else {
        interface_upto(members, source, path, parent, n - 1) + interface_member_items(
            members[n - 1],
            source,
            path,
            parent,
        )
    }
}

/// The kind and signature of a type specification.
pub open spec fn type_head(
    spec_node: SyntaxModel,
    ty: SyntaxModel,
    name: Seq<char>,
    source: Seq<char>,
) -> (Kind, Seq<char>) {
    if ty.kind == "struct_type"@ {
        (Kind::Struct, "type "@ + name + " struct"@)
    } else if ty.kind == "interface_type"@ {
        (Kind::Interface, "type "@ + name + " interface"@)
    } else if spec_node.kind == "type_alias"@ {
        (Kind::TypeAlias, "type "@ + name + " = "@ + syntax::node_text(ty, source))
    } else {
        (Kind::Type, "type "@ + name + " "@ + syntax::node_text(ty, source))
    }
}

/// Whether a type has members of its own.
pub open spec fn is_composite(ty: SyntaxModel) -> bool {
    ty.kind == "struct_type"@ || ty.kind == "interface_type"@
}

/// The item of a type specification, then those of its members.
pub open spec fn type_items(
    spec_node: SyntaxModel,
    source: Seq<char>,
    path: Seq<char>,
) -> Seq<ItemModel> {
    match (field_text(spec_node, "name"@, source), syntax::child_in(spec_node, "type"@)) {
        (Some(name), Some(ty)) => {
            let head = type_head(spec_node, ty, name, source);
            seq![
                ItemModel {
                    id: IdModel { path, kind: head.0, name },
                    signature: head.1,
                    line: syntax::line_of(spec_node),
                    parent: None,
                    // Headers of composites carry no references; their members
                    // do.
                    refs: if is_composite(ty) {
                        seq![]
                    } else {
                        refs::refs_in(Grammar::Go, ty, source, None, Some(name))
                    },
                },
            ] + (if ty.kind == "struct_type"@ {
                struct_items(ty, source, path, name)
            } else if ty.kind == "interface_type"@ {
                let members = syntax::named_of(ty);
                interface_upto(members, source, path, name, members.len() as int)
            } else {
                seq![]
            })
        },
        _ => seq![],
    }
}

/// The items of the first `n` type specifications of a declaration.
pub open spec fn types_upto(
    node: SyntaxModel,
    source: Seq<char>,
    path: Seq<char>,
    n: int,
) -> Seq<ItemModel>
    decreases n,
{
    if n <= 0 {
        seq![]
    } else {
        let child = node.children[n - 1].node;
        types_upto(node, source, path, n - 1) + (if child.kind == "type_spec"@ || child.kind
            == "type_alias"@ {
            type_items(child, source, path)
        } else {
            seq![]
        })
    }
}

/// What is declared in a `const` or `var` declaration.
#[derive(Clone, Copy, Debug, PartialEq, Eq, Structural)]
pub enum Binding {
    Const,
    Var,
}

/// The item kind of a value.
pub open spec fn value_kind(value: Binding) -> Kind {
    match value {
        Binding::Const => Kind::Const,
        Binding::Var => Kind::Var,
    }
}

/// The node kind of a value's specification.
pub open spec fn value_spec(value: Binding) -> Seq<char> {
    match value {
        Binding::Const => "const_spec"@,
        Binding::Var => "var_spec"@,
    }
}

/// The keyword a value's signature starts with.
pub open spec fn value_keyword(value: Binding) -> Seq<char> {
    match value {
        Binding::Const => "const "@,
        Binding::Var => "var "@,
    }
}

/// The specifications of a value among the first `n` children of a node.
pub open spec fn specs_upto(node: SyntaxModel, value: Binding, n: int) -> Seq<SyntaxModel>
    decreases n,
{
    if n <= 0 {
        seq![]
    } else if node.children[n - 1].node.kind == value_spec(value) {
        specs_upto(node, value, n - 1).push(node.children[n - 1].node)
    } else {
        specs_upto(node, value, n - 1)
    }
}

/// The specifications of a value among the first `n` children of a
/// declaration, and those in a parenthesised list there, in source order. The
/// grammar wraps the list of a `var` block in a node of its own; that of a
/// `const` block it does not.
pub open spec fn value_specs(node: SyntaxModel, value: Binding, n: int) -> Seq<SyntaxModel>
    decreases n,
{
    if n <= 0 {
        seq![]
    } else {
        let child = node.children[n - 1].node;
        let before = value_specs(node, value, n - 1);
        if child.kind == value_spec(value) {
            before.push(child)
        } else if child.kind == "var_spec_list"@ {
            before + specs_upto(child, value, child.children.len() as int)
        } else {
            before
        }
    }
}

/// The item of one value specification, keyed by its first identifier.
pub open spec fn value_items(
    child: SyntaxModel,
    source: Seq<char>,
    path: Seq<char>,
    value: Binding,
) -> Seq<ItemModel> {
    match first_of_kind(child, "identifier"@, 0) {
        None => seq![],
        Some(name) => seq![
            ItemModel {
                id: IdModel {
                    path,
                    kind: value_kind(value),
                    name: syntax::node_text(name, source),
                },
                signature: value_keyword(value) + text::collapsed(
                    syntax::node_text(child, source),
                ),
                line: syntax::line_of(child),
                parent: None,
                refs: refs::refs_in(Grammar::Go, child, source, None, None),
            },
        ],
    }
}

/// The items of the first `n` value specifications.
pub open spec fn values_upto(
    specs: Seq<SyntaxModel>,
    source: Seq<char>,
    path: Seq<char>,
    value: Binding,
    n: int,
) -> Seq<ItemModel>
    decreases n,
{
    if n <= 0 {
        seq![]
    } else {
        values_upto(specs, source, path, value, n - 1) + value_items(
            specs[n - 1],
            source,
            path,
            value,
        )
    }
}

/// The items of a `const` or `var` declaration, one per specification.
pub open spec fn declared_values(
    node: SyntaxModel,
    source: Seq<char>,
    path: Seq<char>,
    value: Binding,
) -> Seq<ItemModel> {
    let specs = value_specs(node, value, node.children.len() as int);
    values_upto(specs, source, path, value, specs.len() as int)
}

/// The items of one top-level declaration. Package clauses, imports, comments
/// and errors contribute no API shape.
pub open spec fn declaration_items(
    node: SyntaxModel,
    source: Seq<char>,
    path: Seq<char>,
) -> Seq<ItemModel> {
    let n = node.children.len() as int;
    if node.kind == "function_declaration"@ {
        function_items(node, source, path)
    } else if node.kind == "method_declaration"@ {
        method_items(node, source, path)
    } else if node.kind == "type_declaration"@ {
        types_upto(node, source, path, n)
    } else if node.kind == "const_declaration"@ {
        declared_values(node, source, path, Binding::Const)
    } else if node.kind == "var_declaration"@ {
        declared_values(node, source, path, Binding::Var)
    } else {
        seq![]
    }
}

/// The items of the first `n` top-level declarations of a file.
pub open spec fn items_upto(
    root: SyntaxModel,
    source: Seq<char>,
    path: Seq<char>,
    n: int,
) -> Seq<ItemModel>
    decreases n,
{
    if n <= 0 {
        seq![]
    } else {
        items_upto(root, source, path, n - 1) + declaration_items(
            root.children[n - 1].node,
            source,
            path,
        )
    }
}

/// The items of a file, in source order.
pub open spec fn file_items(
    root: SyntaxModel,
    source: Seq<char>,
    path: Seq<char>,
) -> Seq<ItemModel> {
    items_upto(root, source, path, root.children.len() as int)
}

/// A node of a kind found among the children of a readable node is readable.
proof fn lemma_first_of_kind(node: SyntaxModel, kind: Seq<char>, source: Seq<char>, i: int)
    requires
        syntax::readable(node, source),
        0 <= i,
    ensures
        first_of_kind(node, kind, i) matches Some(child) ==> syntax::readable(child, source),
    decreases node.children.len() - i,
{
    if i < node.children.len() {
        assert(syntax::readable(node.children[i].node, source));
        lemma_first_of_kind(node, kind, source, i + 1);
    }
}

/// The specifications in a readable list are readable.
proof fn lemma_listed_readable(list: SyntaxModel, value: Binding, source: Seq<char>, n: int)
    requires
        syntax::readable(list, source),
        0 <= n <= list.children.len(),
    ensures
        forall|k: int|
            0 <= k < specs_upto(list, value, n).len() ==> syntax::readable(
                #[trigger] specs_upto(list, value, n)[k],
                source,
            ),
    decreases n,
{
    if n > 0 {
        lemma_listed_readable(list, value, source, n - 1);
        let before = specs_upto(list, value, n - 1);
        assert(syntax::readable(list.children[n - 1].node, source));
        assert forall|k: int| 0 <= k < specs_upto(list, value, n).len() implies syntax::readable(
            #[trigger] specs_upto(list, value, n)[k],
            source,
        ) by {
            if k < before.len() {
                assert(specs_upto(list, value, n)[k] == before[k]);
            }
        }
    }
}

/// The specifications of a readable declaration are readable.
proof fn lemma_specs_readable(node: SyntaxModel, value: Binding, source: Seq<char>, n: int)
    requires
        syntax::readable(node, source),
        0 <= n <= node.children.len(),
    ensures
        forall|k: int|
            0 <= k < value_specs(node, value, n).len() ==> syntax::readable(
                #[trigger] value_specs(node, value, n)[k],
                source,
            ),
    decreases n,
{
    if n > 0 {
        lemma_specs_readable(node, value, source, n - 1);
        let before = value_specs(node, value, n - 1);
        let child = node.children[n - 1].node;
        assert(syntax::readable(child, source));
        let listed = specs_upto(child, value, child.children.len() as int);
        lemma_listed_readable(child, value, source, child.children.len() as int);
        assert forall|k: int| 0 <= k < value_specs(node, value, n).len() implies syntax::readable(
            #[trigger] value_specs(node, value, n)[k],
            source,
        ) by {
            if k < before.len() {
                assert(value_specs(node, value, n)[k] == before[k]);
            } else if child.kind != value_spec(value) {
                assert(value_specs(node, value, n)[k] == listed[k - before.len()]);
            }
        }
    }
}

/// The first named child of a readable node is readable and lies within it.
proof fn lemma_first_named(node: SyntaxModel, source: Seq<char>, i: int)
    requires
        syntax::readable(node, source),
        0 <= i,
    ensures
        first_named(node, i) matches Some(child) ==> syntax::readable(child, source)
            && syntax::fits_in(node, child),
    decreases node.children.len() - i,
{
    if i < node.children.len() {
        assert(syntax::readable(node.children[i].node, source));
        assert(syntax::fits_in(node, node.children[i].node));
        lemma_first_named(node, source, i + 1);
    }
}

/// The source text of the child that fills `field`.
fn text_in<'a>(node: &SyntaxNode, field: &str, source: &'a str) -> (found: Option<&'a str>)
    requires
        syntax::readable(node@, source@),
    ensures
        match found {
            Some(words) => field_text(node@, field@, source@) == Some(words@),
            None => field_text(node@, field@, source@) is None,
        },
{
    proof {
        syntax::lemma_child_readable(node@, field@, source@);
    }
    match node.child_by_field(field) {
        Some(child) => Some(syntax::text_of_node(child, source)),
        None => None,
    }
}

/// Where a declaration's body starts, if it has one.
fn body_start(node: &SyntaxNode) -> (at: Option<usize>)
    ensures
        refs::cut_model(at) == body_at(node@),
{
    match node.child_by_field("body") {
        Some(body) => Some(body.start),
        None => None,
    }
}

/// The declaration text up to the body.
fn signature_without_body(node: &SyntaxNode, source: &str) -> (signature: String)
    requires
        syntax::readable(node@, source@),
    ensures
        signature@ == head_text(node@, source@),
{
    proof {
        syntax::lemma_child_readable(node@, "body"@, source@);
    }
    let end: usize = match body_start(node) {
        Some(at) => at,
        None => node.end,
    };
    text::trim(text::byte_slice(source, node.start, end))
}

/// The first named child, comments aside.
fn find_named(node: &SyntaxNode) -> (child: Option<&SyntaxNode>)
    ensures
        match child {
            Some(found) => first_named(node@, 0) == Some(found@),
            None => first_named(node@, 0) is None,
        },
{
    proof {
        syntax::lemma_children(*node);
    }
    let mut i: usize = 0;
    while i < node.children.len()
        invariant
            i <= node.children@.len(),
            node@.children == item::views(node.children@),
            first_named(node@, 0) == first_named(node@, i as int),
        decreases node.children.len() - i,
    {
        assert(node@.children[i as int] == node.children@[i as int]@);
        if node.children[i].node.named && !node.children[i].node.is("comment") {
            return Some(&node.children[i].node);
        }
        i = i + 1;
    }
    None
}

/// The text of a type, of what it points to if it is a pointer.
fn unwrap_pointer<'a>(ty: &SyntaxNode, source: &'a str) -> (words: &'a str)
    requires
        syntax::readable(ty@, source@),
    ensures
        words@ == syntax::node_text(pointed(ty@), source@),
{
    proof {
        lemma_first_named(ty@, source@, 0);
    }
    if ty.is("pointer_type") {
        if let Some(inner) = find_named(ty) {
            return syntax::text_of_node(inner, source);
        }
    }
    syntax::text_of_node(ty, source)
}

/// The first child of the given kind.
fn find_kind<'a>(node: &'a SyntaxNode, kind: &str) -> (child: Option<&'a SyntaxNode>)
    ensures
        match child {
            Some(found) => first_of_kind(node@, kind@, 0) == Some(found@),
            None => first_of_kind(node@, kind@, 0) is None,
        },
{
    proof {
        syntax::lemma_children(*node);
    }
    let mut i: usize = 0;
    while i < node.children.len()
        invariant
            i <= node.children@.len(),
            node@.children == item::views(node.children@),
            first_of_kind(node@, kind@, 0) == first_of_kind(node@, kind@, i as int),
        decreases node.children.len() - i,
    {
        assert(node@.children[i as int] == node.children@[i as int]@);
        if node.children[i].node.is(kind) {
            return Some(&node.children[i].node);
        }
        i = i + 1;
    }
    None
}

/// Method ids are `Receiver.Method`; the receiver is the type name with `*`
/// stripped so `func (c *Client) X()` and `func (c Client) X()` collide as one
/// id. Go's rules forbid both existing simultaneously, so this is safe.
fn receiver_type_name<'a>(node: &SyntaxNode, source: &'a str) -> (name: Option<&'a str>)
    requires
        syntax::readable(node@, source@),
    ensures
        match name {
            Some(words) => receiver_name(node@, source@) == Some(words@),
            None => receiver_name(node@, source@) is None,
        },
{
    proof {
        syntax::lemma_child_readable(node@, "receiver"@, source@);
    }
    match node.child_by_field("receiver") {
        None => None,
        Some(receiver) => {
            proof {
                lemma_first_of_kind(receiver@, "parameter_declaration"@, source@, 0);
            }
            match find_kind(receiver, "parameter_declaration") {
                None => None,
                Some(param) => {
                    proof {
                        syntax::lemma_child_readable(param@, "type"@, source@);
                    }
                    match param.child_by_field("type") {
                        None => None,
                        Some(ty) => Some(unwrap_pointer(ty, source)),
                    }
                },
            }
        },
    }
}

/// Collapses whitespace: the words of `s` separated by single spaces.
pub fn normalize_whitespace(s: &str) -> (words: String)
    ensures
        words@ == text::collapsed(s@),
{
    text::collapse(s)
}

/// Adds one item.
fn emit(
    out: &mut Surface,
    path: &str,
    kind: Kind,
    name: String,
    signature: String,
    node: &SyntaxNode,
    parent: Option<&str>,
    references: Vec<TypeRef>,
)
    ensures
        final(out)@ == old(out)@.push(
            ItemModel {
                id: IdModel { path: path@, kind, name: name@ },
                signature: signature@,
                line: syntax::line_of(node@),
                parent: (match parent {
                    Some(words) => Some(words@),
                    None => None,
                }),
                refs: item::views(references@),
            },
        ),
{
    out.push(
        Item {
            id: ItemId { path: path.to_owned(), kind, name },
            signature,
            line: syntax::start_line(node),
            parent: match parent {
                Some(words) => Some(words.to_owned()),
                None => None,
            },
            refs: references,
        },
    );
}

/// Adds the items of one top-level declaration.
pub fn extract_into(node: &SyntaxNode, source: &str, path: &str, out: &mut Surface)
    requires
        syntax::readable(node@, source@),
    ensures
        final(out)@ == old(out)@ + declaration_items(node@, source@, path@),
{
    let ghost before = out@;
    // Node kinds are strings defined by the vendored grammar; the tree-sitter
    // bindings generate no Rust enum for them, so string matching is the
    // supported dispatch form.
    if node.is("function_declaration") {
        if let Some(name) = text_in(node, "name", source) {
            let cut = body_start(node);
            emit(
                out,
                path,
                Kind::Function,
                name.to_owned(),
                signature_without_body(node, source),
                node,
                None,
                refs::collect_refs(Grammar::Go, node, source, cut, None),
            );
        }
        assert(out@ =~= before + declaration_items(node@, source@, path@));
    } else if node.is("method_declaration") {
        let receiver = receiver_type_name(node, source);
        let name = text_in(node, "name", source);
        if let (Some(method), Some(owner)) = (name, receiver) {
            let cut = body_start(node);
            emit(
                out,
                path,
                Kind::Method,
                text::join3(owner, ".", method),
                signature_without_body(node, source),
                node,
                Some(owner),
                // The receiver type is the parent, not a reference.
                refs::collect_refs(Grammar::Go, node, source, cut, Some(owner)),
            );
        }
        assert(out@ =~= before + declaration_items(node@, source@, path@));
    } else if node.is("type_declaration") {
        emit_types(node, source, path, out);
    } else if node.is("const_declaration") {
        emit_value_specs(node, source, path, Binding::Const, out);
    } else if node.is("var_declaration") {
        emit_value_specs(node, source, path, Binding::Var, out);
    } else {
        // Skipped: `package_clause`, `import_declaration`, `comment`, and
        // `ERROR` nodes. None contribute API shape.
        assert(out@ =~= before + declaration_items(node@, source@, path@));
    }
}

/// Adds the items of each specification of a type declaration.
fn emit_types(node: &SyntaxNode, source: &str, path: &str, out: &mut Surface)
    requires
        syntax::readable(node@, source@),
    ensures
        final(out)@ == old(out)@ + types_upto(
            node@,
            source@,
            path@,
            node@.children.len() as int,
        ),
{
    let ghost before = out@;
    proof {
        syntax::lemma_children(*node);
    }
    let mut i: usize = 0;
    assert(before + types_upto(node@, source@, path@, 0) =~= before);
    while i < node.children.len()
        invariant
            i <= node.children@.len(),
            node@.children == item::views(node.children@),
            syntax::readable(node@, source@),
            out@ == before + types_upto(node@, source@, path@, i as int),
        decreases node.children.len() - i,
    {
        let child = &node.children[i].node;
        proof {
            assert(node@.children[i as int] == node.children@[i as int]@);
            assert(syntax::readable(node@.children[i as int].node, source@));
        }
        if child.is("type_spec") || child.is("type_alias") {
            emit_type_spec(child, source, path, out);
        }
        i = i + 1;
        assert(out@ =~= before + types_upto(node@, source@, path@, i as int));
    }
}

/// Emits the item for one `type_spec` / `type_alias`, then — for structs and
/// interfaces — one item per member, so a member change diffs to exactly that
/// member.
fn emit_type_spec(spec_node: &SyntaxNode, source: &str, path: &str, out: &mut Surface)
    requires
        syntax::readable(spec_node@, source@),
    ensures
        final(out)@ == old(out)@ + type_items(spec_node@, source@, path@),
{
    let ghost before = out@;
    proof {
        syntax::lemma_child_readable(spec_node@, "type"@, source@);
    }
    let name = text_in(spec_node, "name", source);
    let ty_node = spec_node.child_by_field("type");
    if let (Some(name), Some(ty)) = (name, ty_node) {
        let is_struct = ty.is("struct_type");
        let is_interface = ty.is("interface_type");
        let is_alias = spec_node.is("type_alias");
        let (kind, signature) = if is_struct {
            (Kind::Struct, text::join3("type ", name, " struct"))
        } else if is_interface {
            (Kind::Interface, text::join3("type ", name, " interface"))
        } else {
            let written = syntax::text_of_node(ty, source);
            if is_alias {
                (Kind::TypeAlias, text::join4("type ", name, " = ", written))
            } else {
                (Kind::Type, text::join4("type ", name, " ", written))
            }
        };
        let references: Vec<TypeRef> = if is_struct || is_interface {
            // Headers of composites carry no refs; their members do.
            Vec::new()
        } else {
            refs::collect_refs(Grammar::Go, ty, source, None, Some(name))
        };
        proof {
            if is_struct || is_interface {
                assert(item::views(references@) =~= seq![]);
            }
        }
        emit(out, path, kind, name.to_owned(), signature, spec_node, None, references);
        if is_struct {
            emit_struct_fields(ty, source, path, name, out);
        } else if is_interface {
            emit_interface_members(ty, source, path, name, out);
        }
    }
    assert(out@ =~= before + type_items(spec_node@, source@, path@));
}

/// One `Item` per `field_declaration`, named `Struct.field`. Multi-name fields
/// (`a, b int`) collapse to one item keyed by the first name, like multi-name
/// const/var specs. Embedded fields are keyed by their type text (pointer
/// stripped) and read `Struct embeds Type`.
fn emit_struct_fields(
    struct_ty: &SyntaxNode,
    source: &str,
    path: &str,
    parent: &str,
    out: &mut Surface,
)
    requires
        syntax::readable(struct_ty@, source@),
    ensures
        final(out)@ == old(out)@ + struct_items(struct_ty@, source@, path@, parent@),
{
    let ghost before = out@;
    proof {
        lemma_first_of_kind(struct_ty@, "field_declaration_list"@, source@, 0);
    }
    let list = match find_kind(struct_ty, "field_declaration_list") {
        Some(found) => found,
        None => {
            assert(before + struct_items(struct_ty@, source@, path@, parent@) =~= before);
            return;
        },
    };
    let fields = list.named_children();
    let ghost all = syntax::named_of(list@);
    proof {
        syntax::lemma_named_readable(list@, source@, list@.children.len() as int);
    }
    let mut i: usize = 0;
    assert(before + fields_upto(all, source@, path@, parent@, 0) =~= before);
    while i < fields.len()
        invariant
            i <= fields@.len(),
            all == item::views(fields@),
            forall|k: int| 0 <= k < all.len() ==> syntax::readable(#[trigger] all[k], source@),
            out@ == before + fields_upto(all, source@, path@, parent@, i as int),
        decreases fields.len() - i,
    {
        let field = fields[i];
        proof {
            assert(all[i as int] == field@);
            syntax::lemma_child_readable(field@, "type"@, source@);
        }
        if field.is("field_declaration") {
            let found: Option<(String, String)> = match text_in(field, "name", source) {
                Some(first) => {
                    let written = normalize_whitespace(syntax::text_of_node(field, source));
                    Some((first.to_owned(), text::join3(parent, ".", written.as_str())))
                },
                // No name field: an embedded type.
                None => match field.child_by_field("type") {
                    None => None,
                    Some(ty) => {
                        let written = normalize_whitespace(unwrap_pointer(ty, source));
                        let signature = text::join3(parent, " embeds ", written.as_str());
                        Some((written, signature))
                    },
                },
            };
            if let Some((name, signature)) = found {
                emit(
                    out,
                    path,
                    Kind::Field,
                    text::join3(parent, ".", name.as_str()),
                    signature,
                    field,
                    Some(parent),
                    refs::collect_refs(Grammar::Go, field, source, None, Some(parent)),
                );
            }
        }
        i = i + 1;
        assert(out@ =~= before + fields_upto(all, source@, path@, parent@, i as int));
    }
}

/// One `Item` per interface member: `method_elem`s become
/// `Interface.Method(sig)`, embedded interfaces and type constraints
/// (`type_elem`) read `Interface embeds T`.
fn emit_interface_members(
    iface_ty: &SyntaxNode,
    source: &str,
    path: &str,
    parent: &str,
    out: &mut Surface,
)
    requires
        syntax::readable(iface_ty@, source@),
    ensures
        final(out)@ == old(out)@ + interface_upto(
            syntax::named_of(iface_ty@),
            source@,
            path@,
            parent@,
            syntax::named_of(iface_ty@).len() as int,
        ),
{
    let ghost before = out@;
    let members = iface_ty.named_children();
    let ghost all = syntax::named_of(iface_ty@);
    proof {
        syntax::lemma_named_readable(iface_ty@, source@, iface_ty@.children.len() as int);
    }
    let mut i: usize = 0;
    assert(before + interface_upto(all, source@, path@, parent@, 0) =~= before);
    while i < members.len()
        invariant
            i <= members@.len(),
            all == item::views(members@),
            forall|k: int| 0 <= k < all.len() ==> syntax::readable(#[trigger] all[k], source@),
            out@ == before + interface_upto(all, source@, path@, parent@, i as int),
        decreases members.len() - i,
    {
        let member = members[i];
        proof {
            assert(all[i as int] == member@);
        }
        let found: Option<(String, String)> = if member.is("method_elem") {
            match text_in(member, "name", source) {
                None => None,
                Some(method) => {
                    let written = normalize_whitespace(syntax::text_of_node(member, source));
                    Some((method.to_owned(), text::join3(parent, ".", written.as_str())))
                },
            }
        } else if member.is("type_elem") {
            let written = normalize_whitespace(syntax::text_of_node(member, source));
            let signature = text::join3(parent, " embeds ", written.as_str());
            Some((written, signature))
        } else {
            None
        };
        if let Some((name, signature)) = found {
            emit(
                out,
                path,
                Kind::InterfaceMethod,
                text::join3(parent, ".", name.as_str()),
                signature,
                member,
                Some(parent),
                refs::collect_refs(Grammar::Go, member, source, None, Some(parent)),
            );
        }
        i = i + 1;
        assert(out@ =~= before + interface_upto(all, source@, path@, parent@, i as int));
    }
}

/// Splits `const (...)` / `var (...)` blocks into one `Item` per spec, each
/// keyed by its first identifier. Multi-name specs like `const A, B = 1, 2`
/// collapse to one item under `A` — splitting those further is a refinement
/// we'll make if real diffs demand it.
fn emit_value_specs(node: &SyntaxNode, source: &str, path: &str, value: Binding, out: &mut Surface)
    requires
        syntax::readable(node@, source@),
    ensures
        final(out)@ == old(out)@ + values_upto(
            value_specs(node@, value, node@.children.len() as int),
            source@,
            path@,
            value,
            value_specs(node@, value, node@.children.len() as int).len() as int,
        ),
{
    let ghost before = out@;
    let specs = collect_specs(node, value);
    let ghost all = value_specs(node@, value, node@.children.len() as int);
    proof {
        lemma_specs_readable(node@, value, source@, node@.children.len() as int);
    }
    let (kind, keyword) = match value {
        Binding::Const => (Kind::Const, "const "),
        Binding::Var => (Kind::Var, "var "),
    };
    let mut i: usize = 0;
    assert(before + values_upto(all, source@, path@, value, 0) =~= before);
    while i < specs.len()
        invariant
            i <= specs@.len(),
            all == item::views(specs@),
            forall|k: int| 0 <= k < all.len() ==> syntax::readable(#[trigger] all[k], source@),
            kind == value_kind(value),
            keyword@ == value_keyword(value),
            out@ == before + values_upto(all, source@, path@, value, i as int),
        decreases specs.len() - i,
    {
        let child = specs[i];
        proof {
            assert(all[i as int] == child@);
            lemma_first_of_kind(child@, "identifier"@, source@, 0);
        }
        if let Some(name) = find_kind(child, "identifier") {
            let written = normalize_whitespace(syntax::text_of_node(child, source));
            emit(
                out,
                path,
                kind,
                syntax::text_of_node(name, source).to_owned(),
                text::join2(keyword, written.as_str()),
                child,
                None,
                refs::collect_refs(Grammar::Go, child, source, None, None),
            );
        }
        i = i + 1;
        assert(out@ =~= before + values_upto(all, source@, path@, value, i as int));
    }
    assert(item::views(specs@).len() == specs@.len());
}

/// Whether a node is a specification of a value.
fn is_spec(node: &SyntaxNode, value: Binding) -> (yes: bool)
    ensures
        yes == (node@.kind == value_spec(value)),
{
    match value {
        Binding::Const => node.is("const_spec"),
        Binding::Var => node.is("var_spec"),
    }
}

/// The specifications of a declaration, those in a parenthesised list
/// included.
fn collect_specs<'a>(node: &'a SyntaxNode, value: Binding) -> (specs: Vec<&'a SyntaxNode>)
    ensures
        item::views(specs@) == value_specs(node@, value, node@.children.len() as int),
{
    proof {
        syntax::lemma_children(*node);
    }
    let mut specs: Vec<&'a SyntaxNode> = Vec::new();
    let mut i: usize = 0;
    assert(item::views(specs@) =~= value_specs(node@, value, 0));
    while i < node.children.len()
        invariant
            i <= node.children@.len(),
            node@.children == item::views(node.children@),
            item::views(specs@) == value_specs(node@, value, i as int),
        decreases node.children.len() - i,
    {
        let child = &node.children[i].node;
        assert(node@.children[i as int] == node.children@[i as int]@);
        let ghost had = specs@;
        if is_spec(child, value) {
            specs.push(child);
            assert(item::views(specs@) =~= item::views(had).push(child@));
        } else if child.is("var_spec_list") {
            collect_listed(child, value, &mut specs);
        }
        i = i + 1;
        assert(item::views(specs@) =~= value_specs(node@, value, i as int));
    }
    specs
}

/// Adds the specifications in a parenthesised list.
fn collect_listed<'a>(list: &'a SyntaxNode, value: Binding, specs: &mut Vec<&'a SyntaxNode>)
    ensures
        item::views(final(specs)@) == item::views(old(specs)@) + specs_upto(
            list@,
            value,
            list@.children.len() as int,
        ),
{
    proof {
        syntax::lemma_children(*list);
    }
    let ghost before = item::views(specs@);
    let mut i: usize = 0;
    assert(before + specs_upto(list@, value, 0) =~= before);
    while i < list.children.len()
        invariant
            i <= list.children@.len(),
            list@.children == item::views(list.children@),
            item::views(specs@) == before + specs_upto(list@, value, i as int),
        decreases list.children.len() - i,
    {
        let child = &list.children[i].node;
        assert(list@.children[i as int] == list.children@[i as int]@);
        let ghost had = specs@;
        if is_spec(child, value) {
            specs.push(child);
            assert(item::views(specs@) =~= item::views(had).push(child@));
        }
        i = i + 1;
        assert(item::views(specs@) =~= before + specs_upto(list@, value, i as int));
    }
}

/// The surface of a Go file, from its syntax tree.
pub fn extract_tree(root: &SyntaxNode, source: &str, path: &str) -> (out: Surface)
    requires
        syntax::readable(root@, source@),
    ensures
        out@ == file_items(root@, source@, path@),
{
    proof {
        syntax::lemma_children(*root);
    }
    let mut out = Surface::new();
    let mut i: usize = 0;
    while i < root.children.len()
        invariant
            i <= root.children@.len(),
            root@.children == item::views(root.children@),
            syntax::readable(root@, source@),
            out@ == items_upto(root@, source@, path@, i as int),
        decreases root.children.len() - i,
    {
        proof {
            assert(root@.children[i as int] == root.children@[i as int]@);
            assert(syntax::readable(root@.children[i as int].node, source@));
        }
        extract_into(&root.children[i].node, source, path, &mut out);
        i = i + 1;
    }
    out
}

/// Extracts the surface of Go files.
pub struct GoProducer {
    parser: SourceParser,
}

impl GoProducer {
    /// The producer parses Go.
    pub closed spec fn ready(self) -> bool {
        self.parser.grammar() == Some(Grammar::Go)
    }

    /// A producer.
    pub fn new() -> (made: Result<Self, ProducerError>)
        ensures
            made matches Ok(producer) && producer.ready(),
    {
        match SourceParser::new(Grammar::Go) {
            Ok(parser) => Ok(GoProducer { parser }),
            Err(error) => Err(error),
        }
    }

    /// The surface of a Go file.
    pub fn extract(&mut self, path: &str, source: &str) -> (out: Result<Surface, ProducerError>)
        requires
            old(self).ready(),
        ensures
            final(self).ready(),
            ({
                let root = syntax::parsed(Grammar::Go, source@);
                if !syntax::parsable(source@) {
                    out == Err::<Surface, ProducerError>(ProducerError::NoTree)
                } else if !syntax::readable(root, source@) {
                    out == Err::<Surface, ProducerError>(ProducerError::Unreadable)
                } else {
                    out matches Ok(surface) && surface@ == file_items(root, source@, path@)
                }
            }),
    {
        match self.parser.parse(source) {
            None => Err(ProducerError::NoTree),
            Some(root) => if root.is_readable(source) {
                Ok(extract_tree(&root, source, path))
            } else {
                Err(ProducerError::Unreadable)
            },
        }
    }
}

} // verus!

//! What the items of Go declarations are keyed by: a method by its receiver's
//! type, pointer or not; a value by its own specification, in a block or not.

use vstd::prelude::*;

use crate::producer::go::{self, Binding};
use crate::producer::refs;
use crate::producer::syntax::{self, Grammar, SyntaxModel};

verus! {

/// A method gets the same id and parent whether its receiver is a pointer or a
/// value of its type: `Type.Method` and `Type`. Either way it does not
/// reference the type it is a method of.
pub proof fn law_pointer_and_value_receivers_share_an_id(
    one: SyntaxModel,
    one_source: Seq<char>,
    other: SyntaxModel,
    other_source: Seq<char>,
    path: Seq<char>,
)
    requires
        one.kind == "method_declaration"@,
        other.kind == "method_declaration"@,
        go::receiver_type(one) matches Some(pointer) && pointer.kind == "pointer_type"@ && (
        go::first_named(pointer, 0) matches Some(inner) && (go::receiver_type(other) matches Some(
            plain,
        ) && plain.kind != "pointer_type"@ && syntax::node_text(inner, one_source)
            == syntax::node_text(plain, other_source))),
        go::field_text(one, "name"@, one_source) is Some,
        go::field_text(one, "name"@, one_source) == go::field_text(other, "name"@, other_source),
    ensures
        ({
            let a = go::declaration_items(one, one_source, path);
            let b = go::declaration_items(other, other_source, path);
            let base = syntax::node_text(go::receiver_type(other)->0, other_source);
            let method = go::field_text(other, "name"@, other_source)->0;
            &&& a.len() == 1 && b.len() == 1
            &&& a[0].id == b[0].id
            &&& a[0].id.name == base + "."@ + method
            &&& a[0].parent == Some(base) && b[0].parent == Some(base)
            &&& !a[0].refs.contains(base) && !b[0].refs.contains(base)
        }),
{
    lemma_method_kind();
    let base = syntax::node_text(go::receiver_type(other)->0, other_source);
    law_methods_do_not_reference_their_receiver(one, one_source, path);
    law_methods_do_not_reference_their_receiver(other, other_source, path);
    assert(go::receiver_name(one, one_source) == Some(base));
    assert(go::receiver_name(other, other_source) == Some(base));
}

/// A method declaration gives at most one item, whose parent is the receiver's
/// type and not among its references.
pub proof fn law_methods_do_not_reference_their_receiver(
    node: SyntaxModel,
    source: Seq<char>,
    path: Seq<char>,
)
    requires
        node.kind == "method_declaration"@,
    ensures
        go::declaration_items(node, source, path).len() <= 1,
        forall|k: int|
            0 <= k < go::declaration_items(node, source, path).len() ==> {
                let item = #[trigger] go::declaration_items(node, source, path)[k];
                item.parent == go::receiver_name(node, source) && (item.parent matches Some(base)
                    ==> !item.refs.contains(base))
            },
{
    lemma_method_kind();
    let receiver = go::receiver_name(node, source);
    refs::law_references_are_distinct(Grammar::Go, node, source, go::body_at(node), receiver);
}

/// A method is not a function.
proof fn lemma_method_kind()
    ensures
        "method_declaration"@ != "function_declaration"@,
{
    reveal_strlit("function_declaration");
    reveal_strlit("method_declaration");
    assert("function_declaration"@[0] == 'f');
    assert("method_declaration"@[0] == 'm');
}

/// What the first specifications give, more of them give too, at the same
/// place.
proof fn lemma_values_prefix(
    specs: Seq<SyntaxModel>,
    source: Seq<char>,
    path: Seq<char>,
    value: Binding,
    n: int,
    m: int,
)
    requires
        0 <= n <= m,
    ensures
        go::values_upto(specs, source, path, value, n).len() <= go::values_upto(
            specs,
            source,
            path,
            value,
            m,
        ).len(),
        forall|k: int|
            0 <= k < go::values_upto(specs, source, path, value, n).len() ==> (
            #[trigger] go::values_upto(specs, source, path, value, m)[k]) == go::values_upto(
                specs,
                source,
                path,
                value,
                n,
            )[k],
    decreases m - n,
{
    if n < m {
        lemma_values_prefix(specs, source, path, value, n, m - 1);
    }
}

/// The specifications among the first children are among those of all.
proof fn lemma_specs_prefix(node: SyntaxModel, value: Binding, n: int, m: int, found: SyntaxModel)
    requires
        0 <= n <= m,
        go::value_specs(node, value, n).contains(found),
    ensures
        go::value_specs(node, value, m).contains(found),
    decreases m - n,
{
    if n < m {
        lemma_specs_prefix(node, value, n, m - 1, found);
        let before = go::value_specs(node, value, m - 1);
        let k = choose|k: int| 0 <= k < before.len() && before[k] == found;
        assert(go::value_specs(node, value, m)[k] == found);
    }
}

/// A specification in a list is among those of the list.
proof fn lemma_listed(list: SyntaxModel, value: Binding, j: int, n: int)
    requires
        0 <= j < n,
        list.children[j].node.kind == go::value_spec(value),
    ensures
        go::specs_upto(list, value, n).contains(list.children[j].node),
    decreases n,
{
    let before = go::specs_upto(list, value, n - 1);
    if j < n - 1 {
        lemma_listed(list, value, j, n - 1);
        let k = choose|k: int| 0 <= k < before.len() && before[k] == list.children[j].node;
        assert(go::specs_upto(list, value, n)[k] == list.children[j].node);
    } else {
        assert(go::specs_upto(list, value, n)[before.len() as int] == list.children[j].node);
    }
}

/// A specification that stands in a declaration by itself, or in its
/// parenthesised list, is one of the declaration's.
pub proof fn law_blocks_are_split(node: SyntaxModel, value: Binding, i: int)
    requires
        0 <= i < node.children.len(),
    ensures
        node.children[i].node.kind == go::value_spec(value) ==> go::value_specs(
            node,
            value,
            node.children.len() as int,
        ).contains(node.children[i].node),
        node.children[i].node.kind == "var_spec_list"@ ==> forall|j: int|
            0 <= j < node.children[i].node.children.len() && (
            #[trigger] node.children[i].node.children[j]).node.kind == go::value_spec(value)
                ==> go::value_specs(node, value, node.children.len() as int).contains(
                node.children[i].node.children[j].node,
            ),
{
    let child = node.children[i].node;
    let before = go::value_specs(node, value, i);
    let here = go::value_specs(node, value, i + 1);
    if child.kind == go::value_spec(value) {
        assert(here[before.len() as int] == child);
        lemma_specs_prefix(node, value, i + 1, node.children.len() as int, child);
    }
    if child.kind == "var_spec_list"@ {
        lemma_list_kind(value);
        let listed = go::specs_upto(child, value, child.children.len() as int);
        assert forall|j: int|
            0 <= j < child.children.len() && (#[trigger] child.children[j]).node.kind
                == go::value_spec(value) implies go::value_specs(
            node,
            value,
            node.children.len() as int,
        ).contains(child.children[j].node) by {
            let found = child.children[j].node;
            lemma_listed(child, value, j, child.children.len() as int);
            let k = choose|k: int| 0 <= k < listed.len() && listed[k] == found;
            assert(here[before.len() + k] == found);
            lemma_specs_prefix(node, value, i + 1, node.children.len() as int, found);
        }
    }
}

/// A list of specifications is none itself.
proof fn lemma_list_kind(value: Binding)
    ensures
        "var_spec_list"@ != go::value_spec(value),
{
    reveal_strlit("var_spec_list");
    reveal_strlit("var_spec");
    reveal_strlit("const_spec");
    assert("var_spec_list"@.len() == 13);
    assert("var_spec"@.len() == 8);
    assert("const_spec"@.len() == 10);
}

/// Each specification of a `const` or `var` declaration gives its own item.
pub proof fn law_specifications_give_items(
    node: SyntaxModel,
    source: Seq<char>,
    path: Seq<char>,
    value: Binding,
    k: int,
)
    requires
        0 <= k < go::value_specs(node, value, node.children.len() as int).len(),
    ensures
        ({
            let found = go::value_specs(node, value, node.children.len() as int)[k];
            go::value_items(found, source, path, value).len() == 1 ==> go::declared_values(
                node,
                source,
                path,
                value,
            ).contains(go::value_items(found, source, path, value)[0])
        }),
{
    let specs = go::value_specs(node, value, node.children.len() as int);
    let own = go::value_items(specs[k], source, path, value);
    if own.len() == 1 {
        let before = go::values_upto(specs, source, path, value, k);
        let here = go::values_upto(specs, source, path, value, k + 1);
        let all = go::values_upto(specs, source, path, value, specs.len() as int);
        assert(here[before.len() as int] == own[0]);
        lemma_values_prefix(specs, source, path, value, k + 1, specs.len() as int);
        assert(all[before.len() as int] == own[0]);
    }
}

} // verus!

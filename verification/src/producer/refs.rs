//! The types a declaration references, by name.

use vstd::prelude::*;

use crate::item::{self, TypeRef};
use crate::producer::syntax::{self, Grammar, SyntaxModel, SyntaxNode};
use crate::text;

verus! {

/// The kind of a type name that is written with a path before it. Such a name
/// (`io.Reader`, `fmt::Error`) is kept whole, not descended.
pub open spec fn path_kind(grammar: Grammar) -> Seq<char> {
    match grammar {
        Grammar::Go => "qualified_type"@,
        Grammar::Rust => "scoped_type_identifier"@,
    }
}

/// Whether a node is a type name.
pub open spec fn is_type_name(grammar: Grammar, node: SyntaxModel) -> bool {
    node.kind == path_kind(grammar) || node.kind == "type_identifier"@
}

/// Whether a node starts at or past the cut.
pub open spec fn past(node: SyntaxModel, cut: Option<nat>) -> bool {
    cut matches Some(at) && node.start >= at
}

/// The type names in a node, in source order, none at or past the cut.
pub open spec fn names_in(
    grammar: Grammar,
    node: SyntaxModel,
    source: Seq<char>,
    cut: Option<nat>,
) -> Seq<Seq<char>>
    decreases node, node.children.len() + 1,
{
    if past(node, cut) {
        seq![]
    } else if is_type_name(grammar, node) {
        seq![syntax::node_text(node, source)]
    } else {
        names_upto(grammar, node, source, cut, node.children.len() as int)
    }
}

/// The type names in the first `n` children of a node.
pub open spec fn names_upto(
    grammar: Grammar,
    node: SyntaxModel,
    source: Seq<char>,
    cut: Option<nat>,
    n: int,
) -> Seq<Seq<char>>
    decreases node, n,
{
    if n <= 0 || n > node.children.len() {
        seq![]
    } else {
        names_upto(grammar, node, source, cut, n - 1) + names_in(
            grammar,
            node.children[n - 1].node,
            source,
            cut,
        )
    }
}

/// Go's predeclared identifiers — never worth a reference.
pub open spec fn predeclared(name: Seq<char>) -> bool {
    ||| name == "any"@
    ||| name == "bool"@
    ||| name == "byte"@
    ||| name == "comparable"@
    ||| name == "complex64"@
    ||| name == "complex128"@
    ||| name == "error"@
    ||| name == "float32"@
    ||| name == "float64"@
    ||| name == "int"@
    ||| name == "int8"@
    ||| name == "int16"@
    ||| name == "int32"@
    ||| name == "int64"@
    ||| name == "rune"@
    ||| name == "string"@
    ||| name == "uint"@
    ||| name == "uint8"@
    ||| name == "uint16"@
    ||| name == "uint32"@
    ||| name == "uint64"@
    ||| name == "uintptr"@
}

/// Whether a type name is never worth a reference: what the language
/// predeclares, or a stand-in for the enclosing type.
pub open spec fn ignored(grammar: Grammar, name: Seq<char>) -> bool {
    match grammar {
        Grammar::Go => predeclared(name),
        Grammar::Rust => name == "Self"@,
    }
}

/// The first `n` names, each once, without those ignored or excluded.
pub open spec fn distinct(
    grammar: Grammar,
    names: Seq<Seq<char>>,
    exclude: Option<Seq<char>>,
    n: int,
) -> Seq<Seq<char>>
    decreases n,
{
    if n <= 0 {
        seq![]
    } else {
        let before = distinct(grammar, names, exclude, n - 1);
        let name = names[n - 1];
        if ignored(grammar, name) || exclude == Some(name) || before.contains(name) {
            before
        } else {
            before.push(name)
        }
    }
}

/// The types a declaration references, in source order, each once, without
/// those ignored or excluded, and none at or past the cut.
pub open spec fn refs_in(
    grammar: Grammar,
    node: SyntaxModel,
    source: Seq<char>,
    cut: Option<nat>,
    exclude: Option<Seq<char>>,
) -> Seq<Seq<char>> {
    let names = names_in(grammar, node, source, cut);
    distinct(grammar, names, exclude, names.len() as int)
}

/// The model of an optional cut.
pub open spec fn cut_model(cut: Option<usize>) -> Option<nat> {
    match cut {
        Some(at) => Some(at as nat),
        None => None,
    }
}

/// Whether `name` is predeclared in Go.
fn is_predeclared(name: &str) -> (yes: bool)
    ensures
        yes == predeclared(name@),
{
    text::same_text(name, "any") || text::same_text(name, "bool") || text::same_text(name, "byte")
        || text::same_text(name, "comparable") || text::same_text(name, "complex64")
        || text::same_text(name, "complex128") || text::same_text(name, "error")
        || text::same_text(name, "float32") || text::same_text(name, "float64")
        || text::same_text(name, "int") || text::same_text(name, "int8")
        || text::same_text(name, "int16") || text::same_text(name, "int32")
        || text::same_text(name, "int64") || text::same_text(name, "rune")
        || text::same_text(name, "string") || text::same_text(name, "uint")
        || text::same_text(name, "uint8") || text::same_text(name, "uint16")
        || text::same_text(name, "uint32") || text::same_text(name, "uint64")
        || text::same_text(name, "uintptr")
}

/// Whether `name` is never worth a reference.
fn is_ignored(grammar: Grammar, name: &str) -> (yes: bool)
    ensures
        yes == ignored(grammar, name@),
{
    match grammar {
        Grammar::Go => is_predeclared(name),
        Grammar::Rust => text::same_text(name, "Self"),
    }
}

/// Appends the type names in a node.
fn collect_refs_into(
    grammar: Grammar,
    node: &SyntaxNode,
    source: &str,
    cut: Option<usize>,
    out: &mut Vec<String>,
)
    requires
        syntax::readable(node@, source@),
    ensures
        item::views(final(out)@) == item::views(old(out)@) + names_in(
            grammar,
            node@,
            source@,
            cut_model(cut),
        ),
    decreases node,
{
    let ghost before = item::views(out@);
    let ghost limit = cut_model(cut);
    if let Some(at) = cut {
        if node.start >= at {
            assert(before + names_in(grammar, node@, source@, limit) =~= before);
            return;
        }
    }
    let path = match grammar {
        Grammar::Go => "qualified_type",
        Grammar::Rust => "scoped_type_identifier",
    };
    if node.is(path) || node.is("type_identifier") {
        let name = syntax::text_of_node(node, source).to_owned();
        proof {
            item::lemma_views_push(out@, name);
        }
        out.push(name);
        assert(item::views(out@) =~= before + names_in(grammar, node@, source@, limit));
        return;
    }
    proof {
        syntax::lemma_children(*node);
    }
    let mut i: usize = 0;
    assert(before + names_upto(grammar, node@, source@, limit, 0) =~= before);
    while i < node.children.len()
        invariant
            i <= node.children@.len(),
            node@.children == item::views(node.children@),
            syntax::readable(node@, source@),
            limit == cut_model(cut),
            item::views(out@) == before + names_upto(grammar, node@, source@, limit, i as int),
        decreases node.children.len() - i,
    {
        proof {
            assert(node@.children[i as int] == node.children@[i as int]@);
            assert(syntax::readable(node@.children[i as int].node, source@));
        }
        collect_refs_into(grammar, &node.children[i].node, source, cut, out);
        i = i + 1;
        assert(item::views(out@) =~= before + names_upto(
            grammar,
            node@,
            source@,
            limit,
            i as int,
        ));
    }
}

/// Collects the type names a declaration references, in source order,
/// deduped, skipping ignored names, an excluded name (the item's own type),
/// and everything at or past `cut` (the body).
pub fn collect_refs(
    grammar: Grammar,
    node: &SyntaxNode,
    source: &str,
    cut: Option<usize>,
    exclude: Option<&str>,
) -> (out: Vec<TypeRef>)
    requires
        syntax::readable(node@, source@),
    ensures
        item::views(out@) == refs_in(
            grammar,
            node@,
            source@,
            cut_model(cut),
            (match exclude {
                Some(name) => Some(name@),
                None => None,
            }),
        ),
{
    let ghost left_out = match exclude {
        Some(name) => Some(name@),
        None => None,
    };
    let mut names: Vec<String> = Vec::new();
    collect_refs_into(grammar, node, source, cut, &mut names);
    let ghost all = names_in(grammar, node@, source@, cut_model(cut));
    assert(item::views(names@) =~= all);
    let mut out: Vec<TypeRef> = Vec::new();
    let mut i: usize = 0;
    assert(item::views(out@) =~= seq![]);
    while i < names.len()
        invariant
            i <= names@.len(),
            item::views(names@) == all,
            left_out == (match exclude {
                Some(name) => Some(name@),
                None => None,
            }),
            item::views(out@) == distinct(grammar, all, left_out, i as int),
        decreases names.len() - i,
    {
        let name = names[i].as_str();
        assert(all[i as int] == name@);
        let skip = is_ignored(grammar, name) || (match exclude {
            Some(own) => text::same_text(own, name),
            None => false,
        }) || is_listed(&out, name);
        if !skip {
            let reference = TypeRef(names[i].clone());
            proof {
                item::lemma_views_push(out@, reference);
            }
            out.push(reference);
        }
        i = i + 1;
    }
    out
}

/// Whether a reference to `name` is listed already.
fn is_listed(refs: &Vec<TypeRef>, name: &str) -> (yes: bool)
    ensures
        yes == item::views(refs@).contains(name@),
{
    let mut i: usize = 0;
    while i < refs.len()
        invariant
            i <= refs@.len(),
            forall|j: int| 0 <= j < i ==> #[trigger] item::views(refs@)[j] != name@,
        decreases refs.len() - i,
    {
        assert(item::views(refs@)[i as int] == refs@[i as int]@);
        if text::same_text(refs[i].0.as_str(), name) {
            return true;
        }
        i = i + 1;
    }
    false
}

/// References are listed once, and none of them is ignored or excluded.
proof fn lemma_distinct(
    grammar: Grammar,
    names: Seq<Seq<char>>,
    exclude: Option<Seq<char>>,
    n: int,
)
    requires
        0 <= n <= names.len(),
    ensures
        distinct(grammar, names, exclude, n).no_duplicates(),
        forall|k: int|
            0 <= k < distinct(grammar, names, exclude, n).len() ==> !ignored(
                grammar,
                #[trigger] distinct(grammar, names, exclude, n)[k],
            ) && exclude != Some(distinct(grammar, names, exclude, n)[k]),
        forall|i: int|
            0 <= i < n ==> ignored(grammar, #[trigger] names[i]) || exclude == Some(names[i])
                || distinct(grammar, names, exclude, n).contains(names[i]),
    decreases n,
{
    if n > 0 {
        lemma_distinct(grammar, names, exclude, n - 1);
        let before = distinct(grammar, names, exclude, n - 1);
        let now = distinct(grammar, names, exclude, n);
        let name = names[n - 1];
        assert forall|i: int| 0 <= i < n implies ignored(grammar, #[trigger] names[i]) || exclude
            == Some(names[i]) || now.contains(names[i]) by {
            if before.contains(names[i]) {
                let k = choose|k: int| 0 <= k < before.len() && before[k] == names[i];
                assert(now[k] == names[i]);
            } else if i == n - 1 && now.len() > before.len() {
                assert(now[before.len() as int] == name);
            }
        }
        assert forall|k: int| 0 <= k < now.len() implies !ignored(grammar, #[trigger] now[k])
            && exclude != Some(now[k]) by {
            if k < before.len() {
                assert(now[k] == before[k]);
            }
        }
    }
}

/// The references of a declaration are deduped, leave out what is ignored or
/// excluded, and leave out nothing else.
pub proof fn law_references_are_distinct(
    grammar: Grammar,
    node: SyntaxModel,
    source: Seq<char>,
    cut: Option<nat>,
    exclude: Option<Seq<char>>,
)
    ensures
        refs_in(grammar, node, source, cut, exclude).no_duplicates(),
        forall|k: int|
            0 <= k < refs_in(grammar, node, source, cut, exclude).len() ==> !ignored(
                grammar,
                #[trigger] refs_in(grammar, node, source, cut, exclude)[k],
            ) && exclude != Some(refs_in(grammar, node, source, cut, exclude)[k]),
        forall|i: int|
            0 <= i < names_in(grammar, node, source, cut).len() ==> ignored(
                grammar,
                #[trigger] names_in(grammar, node, source, cut)[i],
            ) || exclude == Some(names_in(grammar, node, source, cut)[i]) || refs_in(
                grammar,
                node,
                source,
                cut,
                exclude,
            ).contains(names_in(grammar, node, source, cut)[i]),
{
    let names = names_in(grammar, node, source, cut);
    lemma_distinct(grammar, names, exclude, names.len() as int);
}

} // verus!

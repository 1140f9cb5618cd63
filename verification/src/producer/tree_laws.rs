//! How trees are read: which child fills a field, which children are named,
//! what text a node covers, on which line it starts, and which types it
//! mentions.

use vstd::prelude::*;
use vstd::utf8::*;

use crate::item::{ItemModel, Kind};
use crate::layout;
use crate::producer::go;
use crate::producer::refs;
use crate::producer::syntax::{self, Grammar, SyntaxModel};
use crate::text;

verus! {

/// Whether an item is of the given file, kind, name and parent, and stands on
/// the line on which a node starts, counted from one.
pub open spec fn is_item(
    item: ItemModel,
    path: Seq<char>,
    kind: Kind,
    name: Seq<char>,
    parent: Option<Seq<char>>,
    node: SyntaxModel,
) -> bool {
    &&& item.id.path == path
    &&& item.id.kind == kind
    &&& item.id.name == name
    &&& item.parent == parent
    &&& node.row < u32::MAX ==> item.line.0 == node.row + 1
}

/// What fills a field is the first child that does; nothing does exactly if no
/// child does.
pub proof fn law_the_first_child_fills_a_field(node: SyntaxModel, field: Seq<char>, i: int)
    requires
        0 <= i < node.children.len(),
        forall|j: int| 0 <= j < i ==> (#[trigger] node.children[j]).field != Some(field),
    ensures
        node.children[i].field == Some(field) ==> syntax::child_in(node, field) == Some(
            node.children[i].node,
        ),
        i == node.children.len() - 1 && node.children[i].field != Some(field) ==> syntax::child_in(
            node,
            field,
        ) is None,
{
    lemma_skipped(node, field, i);
    assert(syntax::field_at(node, field, i + 1) is None || i + 1 < node.children.len());
}

/// Children that do not fill a field are passed over.
proof fn lemma_skipped(node: SyntaxModel, field: Seq<char>, i: int)
    requires
        0 <= i <= node.children.len(),
        forall|j: int| 0 <= j < i ==> (#[trigger] node.children[j]).field != Some(field),
    ensures
        syntax::field_at(node, field, 0) == syntax::field_at(node, field, i),
    decreases i,
{
    if i > 0 {
        lemma_skipped(node, field, i - 1);
        assert(node.children[i - 1].field != Some(field));
    }
}

/// A node without children has nothing in any field.
pub proof fn law_leaves_fill_no_field(node: SyntaxModel, field: Seq<char>)
    requires
        node.children.len() == 0,
    ensures
        syntax::child_in(node, field) is None,
{
}

/// The first child of a kind is the first that is of it; there is none exactly
/// if no child is.
pub proof fn law_the_first_of_a_kind_is_found(node: SyntaxModel, kind: Seq<char>, i: int)
    requires
        0 <= i < node.children.len(),
        forall|j: int| 0 <= j < i ==> (#[trigger] node.children[j]).node.kind != kind,
    ensures
        node.children[i].node.kind == kind ==> go::first_of_kind(node, kind, 0) == Some(
            node.children[i].node,
        ),
        i == node.children.len() - 1 && node.children[i].node.kind != kind ==> go::first_of_kind(
            node,
            kind,
            0,
        ) is None,
{
    lemma_other_kinds(node, kind, i);
    assert(go::first_of_kind(node, kind, i + 1) is None || i + 1 < node.children.len());
}

/// Children of other kinds are passed over.
proof fn lemma_other_kinds(node: SyntaxModel, kind: Seq<char>, i: int)
    requires
        0 <= i <= node.children.len(),
        forall|j: int| 0 <= j < i ==> (#[trigger] node.children[j]).node.kind != kind,
    ensures
        go::first_of_kind(node, kind, 0) == go::first_of_kind(node, kind, i),
    decreases i,
{
    if i > 0 {
        lemma_other_kinds(node, kind, i - 1);
        assert(node.children[i - 1].node.kind != kind);
    }
}

/// The named children are those that are named, each once and in order.
pub proof fn law_named_children_are_kept_in_order(node: SyntaxModel, n: int)
    requires
        0 <= n <= node.children.len(),
    ensures
        layout::in_turn(
            syntax::named_upto(node, n),
            |i: int|
                if node.children[i].node.named {
                    seq![node.children[i].node]
                } else {
                    seq![]
                },
            n,
        ),
        n == node.children.len() ==> syntax::named_of(node) == syntax::named_upto(node, n),
    decreases n,
{
    let piece = |i: int|
        if node.children[i].node.named {
            seq![node.children[i].node]
        } else {
            seq![]
        };
    if n == 0 {
        layout::lemma_no_pieces(piece);
    } else {
        law_named_children_are_kept_in_order(node, n - 1);
        let before = syntax::named_upto(node, n - 1);
        layout::lemma_one_more(before, piece, n - 1);
        assert(syntax::named_upto(node, n) =~= before + piece(n - 1));
    }
}

/// A node covers the text between its two ends: what stands before it and what
/// follows it are not in it.
pub proof fn law_nodes_cover_their_text(
    node: SyntaxModel,
    before: Seq<char>,
    covered: Seq<char>,
    after: Seq<char>,
)
    requires
        node.start == encode_utf8(before).len(),
        node.end == encode_utf8(before + covered).len(),
    ensures
        syntax::node_text(node, before + covered + after) == covered,
{
    let source = before + covered + after;
    lemma_bytes(before, covered);
    lemma_bytes(before + covered, after);
    let bytes = encode_utf8(source);
    assert(bytes.subrange(node.start as int, node.end as int) =~= encode_utf8(covered));
    encode_utf8_decode_utf8(covered);
}

/// The bytes of joined texts are joined.
proof fn lemma_bytes(a: Seq<char>, b: Seq<char>)
    ensures
        encode_utf8(a + b) == encode_utf8(a) + encode_utf8(b),
    decreases a.len(),
{
    if a.len() == 0 {
        assert(a + b =~= b);
        assert(encode_utf8(a) =~= seq![]);
        assert(encode_utf8(a) + encode_utf8(b) =~= encode_utf8(b));
    } else {
        lemma_bytes(a.drop_first(), b);
        assert((a + b).drop_first() =~= a.drop_first() + b);
        assert(encode_utf8(a + b) =~= encode_utf8(a) + encode_utf8(b));
    }
}

/// Lines are counted from one.
pub proof fn law_lines_count_from_one(node: SyntaxModel)
    requires
        node.row < u32::MAX,
    ensures
        syntax::line_of(node).0 == node.row + 1,
{
}

/// The type names of a node that is none itself are those of its children, one
/// child after the other. A type name is its own only name, and nothing at or
/// past the cut has any.
pub proof fn law_names_come_from_the_children(
    grammar: Grammar,
    node: SyntaxModel,
    source: Seq<char>,
    cut: Option<nat>,
)
    ensures
        ({
            let names = refs::names_in(grammar, node, source, cut);
            let named = node.kind == "type_identifier"@ || (match grammar {
                Grammar::Go => node.kind == "qualified_type"@,
                Grammar::Rust => node.kind == "scoped_type_identifier"@,
            });
            if cut matches Some(at) && node.start >= at {
                names.len() == 0
            } else if named {
                names == seq![syntax::node_text(node, source)]
            } else {
                layout::in_turn(
                    names,
                    |i: int| refs::names_in(grammar, node.children[i].node, source, cut),
                    node.children.len() as int,
                )
            }
        }),
{
    lemma_names(grammar, node, source, cut, node.children.len() as int);
}

/// The names of the first `n` children follow each other.
proof fn lemma_names(
    grammar: Grammar,
    node: SyntaxModel,
    source: Seq<char>,
    cut: Option<nat>,
    n: int,
)
    requires
        0 <= n <= node.children.len(),
    ensures
        layout::in_turn(
            refs::names_upto(grammar, node, source, cut, n),
            |i: int| refs::names_in(grammar, node.children[i].node, source, cut),
            n,
        ),
    decreases n,
{
    let piece = |i: int| refs::names_in(grammar, node.children[i].node, source, cut);
    if n == 0 {
        layout::lemma_no_pieces(piece);
    } else {
        lemma_names(grammar, node, source, cut, n - 1);
        layout::lemma_one_more(refs::names_upto(grammar, node, source, cut, n - 1), piece, n - 1);
    }
}

/// What a declaration references are the type names in it, each at its first
/// mention and only there, but for those left out: the language's own names,
/// and the excluded one.
pub proof fn law_references_come_in_source_order(
    grammar: Grammar,
    node: SyntaxModel,
    source: Seq<char>,
    cut: Option<nat>,
    exclude: Option<Seq<char>>,
)
    ensures
        ({
            let names = refs::names_in(grammar, node, source, cut);
            layout::in_turn(
                refs::refs_in(grammar, node, source, cut, exclude),
                |i: int|
                    if left_out(grammar, names[i]) || exclude == Some(names[i]) || (exists|j: int|
                        0 <= j < i && #[trigger] names[j] == names[i]) {
                        seq![]
                    } else {
                        seq![names[i]]
                    },
                names.len() as int,
            )
        }),
{
    let names = refs::names_in(grammar, node, source, cut);
    lemma_distinct(grammar, names, exclude, names.len() as int);
}

/// Whether a name is one that the language has of itself.
pub open spec fn left_out(grammar: Grammar, name: Seq<char>) -> bool {
    match grammar {
        Grammar::Rust => name == "Self"@,
        Grammar::Go => seq![
            "any"@,
            "bool"@,
            "byte"@,
            "comparable"@,
            "complex64"@,
            "complex128"@,
            "error"@,
            "float32"@,
            "float64"@,
            "int"@,
            "int8"@,
            "int16"@,
            "int32"@,
            "int64"@,
            "rune"@,
            "string"@,
            "uint"@,
            "uint8"@,
            "uint16"@,
            "uint32"@,
            "uint64"@,
            "uintptr"@,
        ].contains(name),
    }
}

/// The names left out are those that are ignored.
proof fn lemma_left_out(grammar: Grammar, name: Seq<char>)
    ensures
        left_out(grammar, name) == refs::ignored(grammar, name),
{
    if grammar == Grammar::Go {
        let all = seq![
            "any"@,
            "bool"@,
            "byte"@,
            "comparable"@,
            "complex64"@,
            "complex128"@,
            "error"@,
            "float32"@,
            "float64"@,
            "int"@,
            "int8"@,
            "int16"@,
            "int32"@,
            "int64"@,
            "rune"@,
            "string"@,
            "uint"@,
            "uint8"@,
            "uint16"@,
            "uint32"@,
            "uint64"@,
            "uintptr"@,
        ];
        if refs::predeclared(name) {
            assert(name == all[0] || name == all[1] || name == all[2] || name == all[3] || name
                == all[4] || name == all[5] || name == all[6] || name == all[7] || name == all[8]
                || name == all[9] || name == all[10] || name == all[11] || name == all[12] || name
                == all[13] || name == all[14] || name == all[15] || name == all[16] || name
                == all[17] || name == all[18] || name == all[19] || name == all[20] || name
                == all[21]);
        }
    }
}

/// The first `n` names, each at its first mention.
proof fn lemma_distinct(
    grammar: Grammar,
    names: Seq<Seq<char>>,
    exclude: Option<Seq<char>>,
    n: int,
)
    requires
        0 <= n <= names.len(),
    ensures
        layout::in_turn(
            refs::distinct(grammar, names, exclude, n),
            |i: int|
                if left_out(grammar, names[i]) || exclude == Some(names[i]) || (exists|j: int|
                    0 <= j < i && #[trigger] names[j] == names[i]) {
                    seq![]
                } else {
                    seq![names[i]]
                },
            n,
        ),
        forall|name: Seq<char>| #[trigger]
            refs::distinct(grammar, names, exclude, n).contains(name) <==> !left_out(grammar, name)
                && exclude != Some(name) && (exists|j: int| 0 <= j < n && #[trigger] names[j] == name),
    decreases n,
{
    let piece = |i: int|
        if left_out(grammar, names[i]) || exclude == Some(names[i]) || (exists|j: int|
            0 <= j < i && #[trigger] names[j] == names[i]) {
            seq![]
        } else {
            seq![names[i]]
        };
    let now = refs::distinct(grammar, names, exclude, n);
    if n == 0 {
        layout::lemma_no_pieces(piece);
    } else {
        lemma_distinct(grammar, names, exclude, n - 1);
        let before = refs::distinct(grammar, names, exclude, n - 1);
        let last = names[n - 1];
        layout::lemma_one_more(before, piece, n - 1);
        lemma_left_out(grammar, last);
        assert(now =~= before + piece(n - 1));
        assert forall|name: Seq<char>| #[trigger] now.contains(name) <==> !left_out(grammar, name)
            && exclude != Some(name) && (exists|j: int| 0 <= j < n && #[trigger] names[j] == name) by {
            lemma_left_out(grammar, name);
            if before.contains(name) {
                let k = choose|k: int| 0 <= k < before.len() && before[k] == name;
                assert(now[k] == name);
            }
            if now.contains(name) && !before.contains(name) {
                let k = choose|k: int| 0 <= k < now.len() && now[k] == name;
                if k < before.len() {
                    assert(before[k] == name);
                }
                assert(name == last);
                assert(names[n - 1] == name);
            }
            if !now.contains(name) && name == last {
                if now.len() > before.len() {
                    assert(now[before.len() as int] == last);
                }
            }
        }
    }
}

/// A tree fits its source exactly if its root does, covering whole characters;
/// its children fit the source and lie within it, each after the one before; and
/// its name, if it has one, comes before its body and its value.
pub proof fn law_fitting_trees_are_readable(node: SyntaxModel, source: Seq<char>)
    ensures
        syntax::readable(node, source) <==> {
            &&& text::sliceable(source, node.start as int, node.end as int)
            &&& comes_first(node, "name"@, "body"@)
            &&& comes_first(node, "name"@, "value"@)
            &&& forall|i: int|
                0 <= i < node.children.len() ==> node.start <= (
                #[trigger] node.children[i]).node.start && node.children[i].node.end <= node.end
                    && syntax::readable(node.children[i].node, source)
            &&& forall|i: int|
                0 < i < node.children.len() ==> node.children[i - 1].node.end <= (
                #[trigger] node.children[i]).node.start
        },
{
    if syntax::readable(node, source) {
        assert forall|i: int| 0 <= i < node.children.len() implies node.start <= (
        #[trigger] node.children[i]).node.start && node.children[i].node.end <= node.end
            && syntax::readable(node.children[i].node, source) by {
            assert(syntax::fits_in(node, node.children[i].node));
        }
        assert forall|i: int| 0 < i < node.children.len() implies node.children[i - 1].node.end <= (
        #[trigger] node.children[i]).node.start by {
            assert(syntax::follows(node, i));
        }
    } else {
        if forall|i: int|
            0 <= i < node.children.len() ==> node.start <= (#[trigger] node.children[i]).node.start
                && node.children[i].node.end <= node.end && syntax::readable(
                node.children[i].node,
                source,
            ) {
            assert forall|i: int| 0 <= i < node.children.len() implies syntax::fits_in(
                node,
                #[trigger] node.children[i].node,
            ) by {
                assert(node.start <= node.children[i].node.start);
            }
            assert forall|i: int| 0 <= i < node.children.len() implies syntax::readable(
                #[trigger] node.children[i].node,
                source,
            ) by {
                assert(node.start <= node.children[i].node.start);
            }
        }
        if forall|i: int|
            0 < i < node.children.len() ==> node.children[i - 1].node.end <= (
            #[trigger] node.children[i]).node.start {
            assert forall|i: int| 1 <= i < node.children.len() implies #[trigger] syntax::follows(
                node,
                i,
            ) by {
                assert(node.children[i - 1].node.end <= node.children[i].node.start);
            }
        }
    }
}

/// Whether the first child that fills one field comes before the first that fills
/// another, if both are filled.
pub open spec fn comes_first(node: SyntaxModel, one: Seq<char>, other: Seq<char>) -> bool {
    match (syntax::field_at(node, one, 0), syntax::field_at(node, other, 0)) {
        (Some(a), Some(b)) => a < b,
        _ => true,
    }
}

/// A text can be cut out between characters.
pub proof fn law_whole_characters_can_be_cut_out(
    before: Seq<char>,
    covered: Seq<char>,
    after: Seq<char>,
)
    ensures
        text::sliceable(
            before + covered + after,
            encode_utf8(before).len() as int,
            encode_utf8(before + covered).len() as int,
        ),
{
    lemma_bytes(before, covered);
    lemma_bytes(before + covered, after);
    assert(before + covered + after =~= before + (covered + after));
    lemma_boundary(before, covered + after);
    lemma_boundary(before + covered, after);
}

/// Where one text ends and the next starts is between characters.
proof fn lemma_boundary(a: Seq<char>, b: Seq<char>)
    ensures
        is_char_boundary(encode_utf8(a + b), encode_utf8(a).len() as int),
    decreases a.len(),
{
    encode_utf8_valid_utf8(a + b);
    if a.len() == 0 {
        assert(encode_utf8(a) =~= seq![]);
    } else {
        lemma_boundary(a.drop_first(), b);
        lemma_bytes(a, b);
        lemma_bytes(a.drop_first(), b);
        encode_utf8_first_scalar(a + b);
        assert((a + b)[0] == a[0]);
        assert(encode_utf8(a).len() == encode_scalar(a[0] as u32).len() + encode_utf8(
            a.drop_first(),
        ).len());
        assert((a + b).drop_first() =~= a.drop_first() + b);
        assert(pop_first_scalar(encode_utf8(a + b)) =~= encode_utf8(a.drop_first() + b));
    }
}

} // verus!

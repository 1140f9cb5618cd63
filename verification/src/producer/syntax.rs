//! Syntax trees: what a tree-sitter parse of a source text holds, read into a
//! tree of plain values.

use vstd::prelude::*;
use vstd::string::*;
use vstd::utf8::*;

use crate::item::{self, Line};
use crate::text;

verus! {

/// The grammars a parser can be set up with.
#[derive(Clone, Copy, Debug, PartialEq, Eq, Structural)]
pub enum Grammar {
    Go,
    Rust,
}

/// A node of a syntax tree.
#[derive(Debug, PartialEq, Eq)]
pub struct SyntaxNode {
    /// The node's kind in the grammar.
    pub kind: &'static str,
    /// Whether the node is named in the grammar, rather than a literal token.
    pub named: bool,
    /// The bytes of the source that the node covers.
    pub start: usize,
    pub end: usize,
    /// The line the node starts on, counted from zero.
    pub row: usize,
    pub children: Vec<SyntaxChild>,
}

/// A child of a node, with the field it fills, if any.
#[derive(Debug, PartialEq, Eq)]
pub struct SyntaxChild {
    pub field: Option<&'static str>,
    pub node: SyntaxNode,
}

/// The mathematical model of a `SyntaxNode`.
#[verifier::ext_equal]
pub struct SyntaxModel {
    pub kind: Seq<char>,
    pub named: bool,
    pub start: nat,
    pub end: nat,
    pub row: nat,
    pub children: Seq<ChildModel>,
}

/// The mathematical model of a `SyntaxChild`.
#[verifier::ext_equal]
pub struct ChildModel {
    pub field: Option<Seq<char>>,
    pub node: SyntaxModel,
}

/// The model of an optional field name.
pub open spec fn field_model(field: Option<&'static str>) -> Option<Seq<char>> {
    match field {
        Some(name) => Some(name@),
        None => None,
    }
}

impl SyntaxNode {
    /// The model of the node: that of its parts.
    pub open spec fn model(self) -> SyntaxModel
        decreases self,
    {
        SyntaxModel {
            kind: self.kind@,
            named: self.named,
            start: self.start as nat,
            end: self.end as nat,
            row: self.row as nat,
            children: Seq::new(
                self.children@.len(),
                |i: int|
                    if 0 <= i < self.children@.len() {
                        ChildModel {
                            field: field_model(self.children@[i].field),
                            node: self.children@[i].node.model(),
                        }
                    } else {
                        arbitrary()
                    },
            ),
        }
    }
}

impl View for SyntaxNode {
    type V = SyntaxModel;

    open spec fn view(&self) -> SyntaxModel {
        self.model()
    }
}

impl View for SyntaxChild {
    type V = ChildModel;

    open spec fn view(&self) -> ChildModel {
        ChildModel { field: field_model(self.field), node: self.node@ }
    }
}

/// The children of a node model as the models of its children.
pub proof fn lemma_children(node: SyntaxNode)
    ensures
        node@.children == item::views(node.children@),
{
    assert(node@.children =~= item::views(node.children@));
}

/// A tree-sitter parser.
#[verifier::external_type_specification]
#[verifier::external_body]
pub struct ExParser(tree_sitter::Parser);

/// A tree-sitter syntax tree.
#[verifier::external_type_specification]
#[verifier::external_body]
pub struct ExTree(tree_sitter::Tree);

/// A node of a tree-sitter syntax tree.
#[verifier::external_type_specification]
#[verifier::external_body]
pub struct ExNode<'tree>(tree_sitter::Node<'tree>);

/// A cursor over a tree-sitter syntax tree.
#[verifier::external_type_specification]
#[verifier::external_body]
pub struct ExTreeCursor<'cursor>(tree_sitter::TreeCursor<'cursor>);

/// The error of giving a parser a grammar it cannot work with.
#[verifier::external_type_specification]
#[verifier::external_body]
pub struct ExLanguageError(tree_sitter::LanguageError);

/// The grammar a parser was set up with, if any.
pub uninterp spec fn grammar_of(parser: tree_sitter::Parser) -> Option<Grammar>;

/// The syntax tree that tree-sitter makes of a source text under a grammar.
pub uninterp spec fn parsed(grammar: Grammar, source: Seq<char>) -> SyntaxModel;

/// Whether a source text is short enough to be parsed: tree-sitter counts bytes
/// in 32 bits.
pub open spec fn parsable(source: Seq<char>) -> bool {
    encode_utf8(source).len() <= u32::MAX
}

/// What a syntax tree holds.
pub uninterp spec fn tree_syntax(tree: tree_sitter::Tree) -> SyntaxModel;

/// What a node holds.
pub uninterp spec fn node_syntax(node: tree_sitter::Node<'_>) -> SyntaxModel;

/// A place among siblings.
#[verifier::ext_equal]
pub struct Spot {
    pub siblings: Seq<ChildModel>,
    pub at: int,
}

/// Where a cursor is: its place among its siblings, beneath the places of its
/// ancestors.
pub uninterp spec fn cursor_path(cursor: tree_sitter::TreeCursor<'_>) -> Seq<Spot>;

/// The child a cursor is on.
pub open spec fn under(path: Seq<Spot>) -> ChildModel {
    path.last().siblings[path.last().at]
}

/// `Parser::new` makes a parser without a grammar.
#[verifier::external_body]
fn new_parser() -> (parser: tree_sitter::Parser)
    ensures
        grammar_of(parser) is None,
{
    tree_sitter::Parser::new()
}

/// `Parser::set_language` with the Go grammar, whose ABI version is among those
/// it takes: that is the grammar the parser works with from there on.
#[verifier::external_body]
fn set_go(parser: &mut tree_sitter::Parser) -> (set: Result<(), tree_sitter::LanguageError>)
    ensures
        set is Ok,
        grammar_of(*final(parser)) == Some(Grammar::Go),
{
    parser.set_language(&tree_sitter_go::LANGUAGE.into())
}

/// `Parser::set_language` with the Rust grammar, whose ABI version is among
/// those it takes: that is the grammar the parser works with from there on.
#[verifier::external_body]
fn set_rust(parser: &mut tree_sitter::Parser) -> (set: Result<(), tree_sitter::LanguageError>)
    ensures
        set is Ok,
        grammar_of(*final(parser)) == Some(Grammar::Rust),
{
    parser.set_language(&tree_sitter_rust::LANGUAGE.into())
}

/// `Parser::parse` without an old tree, on a parser with a grammar: it makes a
/// tree, which depends on the grammar and the text alone, no parser being given
/// a time limit or a way to be cancelled. The parser keeps its grammar.
#[verifier::external_body]
fn parse(parser: &mut tree_sitter::Parser, source: &str) -> (tree: Option<tree_sitter::Tree>)
    requires
        grammar_of(*old(parser)) is Some,
        parsable(source@),
    ensures
        grammar_of(*final(parser)) == grammar_of(*old(parser)),
        tree matches Some(found) && tree_syntax(found) == parsed(
            grammar_of(*old(parser))->0,
            source@,
        ),
{
    parser.parse(source, None)
}

/// `Tree::walk` makes a cursor on the root of the tree, which it treats as
/// having no siblings and filling no field.
#[verifier::external_body]
fn walk(tree: &tree_sitter::Tree) -> (cursor: tree_sitter::TreeCursor<'_>)
    ensures
        cursor_path(cursor) == seq![
            Spot { siblings: seq![ChildModel { field: None, node: tree_syntax(*tree) }], at: 0 },
        ],
{
    tree.walk()
}

/// `TreeCursor::node` gives the node the cursor is on.
#[verifier::external_body]
fn cursor_node<'a>(cursor: &tree_sitter::TreeCursor<'a>) -> (node: tree_sitter::Node<'a>)
    requires
        cursor_path(*cursor).len() > 0,
    ensures
        node_syntax(node) == under(cursor_path(*cursor)).node,
{
    cursor.node()
}

/// `TreeCursor::field_name` gives the field that the node under the cursor
/// fills, if any.
#[verifier::external_body]
fn cursor_field(cursor: &tree_sitter::TreeCursor<'_>) -> (field: Option<&'static str>)
    requires
        cursor_path(*cursor).len() > 0,
    ensures
        field_model(field) == under(cursor_path(*cursor)).field,
{
    cursor.field_name()
}

/// `TreeCursor::goto_first_child` moves to the first child of the node under
/// the cursor, and reports whether there was one.
#[verifier::external_body]
fn goto_first_child(cursor: &mut tree_sitter::TreeCursor<'_>) -> (went: bool)
    requires
        cursor_path(*old(cursor)).len() > 0,
    ensures
        went == (under(cursor_path(*old(cursor))).node.children.len() > 0),
        cursor_path(*final(cursor)) == if went {
            cursor_path(*old(cursor)).push(
                Spot { siblings: under(cursor_path(*old(cursor))).node.children, at: 0 },
            )
        } else {
            cursor_path(*old(cursor))
        },
{
    cursor.goto_first_child()
}

/// `TreeCursor::goto_next_sibling` moves to the next sibling of the node under
/// the cursor, and reports whether there was one.
#[verifier::external_body]
fn goto_next_sibling(cursor: &mut tree_sitter::TreeCursor<'_>) -> (went: bool)
    requires
        cursor_path(*old(cursor)).len() > 0,
    ensures
        went == (cursor_path(*old(cursor)).last().at + 1 < cursor_path(
            *old(cursor),
        ).last().siblings.len()),
        cursor_path(*final(cursor)) == if went {
            cursor_path(*old(cursor)).drop_last().push(
                Spot {
                    siblings: cursor_path(*old(cursor)).last().siblings,
                    at: cursor_path(*old(cursor)).last().at + 1,
                },
            )
        } else {
            cursor_path(*old(cursor))
        },
{
    cursor.goto_next_sibling()
}

/// `TreeCursor::goto_parent` moves to the parent of the node under the cursor,
/// and reports whether there was one.
#[verifier::external_body]
fn goto_parent(cursor: &mut tree_sitter::TreeCursor<'_>) -> (went: bool)
    requires
        cursor_path(*old(cursor)).len() > 0,
    ensures
        went == (cursor_path(*old(cursor)).len() > 1),
        cursor_path(*final(cursor)) == if went {
            cursor_path(*old(cursor)).drop_last()
        } else {
            cursor_path(*old(cursor))
        },
{
    cursor.goto_parent()
}

/// `Node::kind` gives the node's kind in the grammar.
#[verifier::external_body]
fn node_kind(node: &tree_sitter::Node<'_>) -> (kind: &'static str)
    ensures
        kind@ == node_syntax(*node).kind,
{
    node.kind()
}

/// `Node::is_named` tells whether the node is named in the grammar.
#[verifier::external_body]
fn node_named(node: &tree_sitter::Node<'_>) -> (named: bool)
    ensures
        named == node_syntax(*node).named,
{
    node.is_named()
}

/// `Node::start_byte` gives the byte the node starts at.
#[verifier::external_body]
fn node_start(node: &tree_sitter::Node<'_>) -> (start: usize)
    ensures
        start == node_syntax(*node).start,
{
    node.start_byte()
}

/// `Node::end_byte` gives the byte the node ends before.
#[verifier::external_body]
fn node_end(node: &tree_sitter::Node<'_>) -> (end: usize)
    ensures
        end == node_syntax(*node).end,
{
    node.end_byte()
}

/// `Node::start_position` gives the row the node starts on, counted from zero.
#[verifier::external_body]
fn node_row(node: &tree_sitter::Node<'_>) -> (row: usize)
    ensures
        row == node_syntax(*node).row,
{
    node.start_position().row
}

/// Reads the node under the cursor and everything beneath it, leaving the
/// cursor where it is.
fn read(cursor: &mut tree_sitter::TreeCursor<'_>) -> (node: SyntaxNode)
    requires
        cursor_path(*old(cursor)).len() > 0,
    ensures
        node@ == under(cursor_path(*old(cursor))).node,
        cursor_path(*final(cursor)) == cursor_path(*old(cursor)),
    decreases under(cursor_path(*old(cursor))).node,
{
    let ghost path = cursor_path(*cursor);
    let ghost whole = under(path).node;
    let here = cursor_node(cursor);
    let mut children: Vec<SyntaxChild> = Vec::new();
    assert(item::views(children@) =~= seq![]);
    if goto_first_child(cursor) {
        let ghost mut at: int = 0;
        loop
            invariant_except_break
                0 <= at < whole.children.len(),
                cursor_path(*cursor) == path.push(Spot { siblings: whole.children, at }),
                item::views(children@) == whole.children.take(at),
            invariant
                path.len() > 0,
                whole == under(path).node,
                whole == under(cursor_path(*old(cursor))).node,
            ensures
                cursor_path(*cursor).len() == path.len() + 1,
                cursor_path(*cursor).drop_last() == path,
                item::views(children@) == whole.children,
            decreases whole.children.len() - at,
        {
            let field = cursor_field(cursor);
            proof {
                assert(under(cursor_path(*cursor)) == whole.children[at]);
                assert(decreases_to!(whole => whole.children[at].node));
            }
            let node = read(cursor);
            let child = SyntaxChild { field, node };
            proof {
                item::lemma_views_push(children@, child);
                assert(child@ == whole.children[at]);
            }
            children.push(child);
            assert(item::views(children@) =~= whole.children.take(at + 1));
            if !goto_next_sibling(cursor) {
                assert(whole.children.take(at + 1) =~= whole.children);
                assert(cursor_path(*cursor).drop_last() =~= path);
                break;
            }
            proof {
                assert(cursor_path(*cursor) =~= path.push(
                    Spot { siblings: whole.children, at: at + 1 },
                ));
                at = at + 1;
            }
        }
        goto_parent(cursor);
    } else {
        assert(whole.children =~= seq![]);
    }
    let node = SyntaxNode {
        kind: node_kind(&here),
        named: node_named(&here),
        start: node_start(&here),
        end: node_end(&here),
        row: node_row(&here),
        children,
    };
    proof {
        lemma_children(node);
        assert(node@ =~= whole);
    }
    node
}

/// Why a producer gave no surface.
#[derive(Clone, Copy, Debug, PartialEq, Eq, Structural)]
pub enum ProducerError {
    /// The parser does not take the grammar.
    LanguageLoad,
    /// The parser makes no tree of the source: it is too long.
    NoTree,
    /// The tree does not fit the source: a node lies outside its parent or
    /// splits a character.
    Unreadable,
}

impl ProducerError {
    /// The error in words.
    pub fn message(&self) -> (words: String)
        ensures
            words@ == match *self {
                ProducerError::LanguageLoad => "tree-sitter language load failed"@,
                ProducerError::NoTree => "tree-sitter returned no tree"@,
                ProducerError::Unreadable => "tree-sitter tree does not fit its source"@,
            },
    {
        match self {
            ProducerError::LanguageLoad => "tree-sitter language load failed".to_owned(),
            ProducerError::NoTree => "tree-sitter returned no tree".to_owned(),
            ProducerError::Unreadable => "tree-sitter tree does not fit its source".to_owned(),
        }
    }
}

/// A parser set up with a grammar.
pub struct SourceParser {
    parser: tree_sitter::Parser,
}

impl SourceParser {
    /// The grammar the parser was set up with.
    pub closed spec fn grammar(self) -> Option<Grammar> {
        grammar_of(self.parser)
    }

    /// A parser for `grammar`.
    pub fn new(grammar: Grammar) -> (made: Result<Self, ProducerError>)
        ensures
            made matches Ok(parser) && parser.grammar() == Some(grammar),
    {
        let mut parser = new_parser();
        let set = match grammar {
            Grammar::Go => set_go(&mut parser),
            Grammar::Rust => set_rust(&mut parser),
        };
        match set {
            Ok(_) => Ok(SourceParser { parser }),
            Err(_) => Err(ProducerError::LanguageLoad),
        }
    }

    /// The syntax tree of a source text, unless the text is too long.
    pub fn parse(&mut self, source: &str) -> (tree: Option<SyntaxNode>)
        requires
            old(self).grammar() is Some,
        ensures
            final(self).grammar() == old(self).grammar(),
            match tree {
                Some(root) => parsable(source@) && root@ == parsed(
                    old(self).grammar()->0,
                    source@,
                ),
                None => !parsable(source@),
            },
    {
        if source.as_bytes().len() > u32::MAX as usize {
            return None;
        }
        match parse(&mut self.parser, source) {
            Some(found) => {
                let mut cursor = walk(&found);
                Some(read(&mut cursor))
            },
            None => None,
        }
    }
}

/// Where the first child that fills `field` is, from `i` on.
pub open spec fn field_at(node: SyntaxModel, field: Seq<char>, i: int) -> Option<int>
    decreases node.children.len() - i,
{
    if i >= node.children.len() {
        None
    } else if node.children[i].field == Some(field) {
        Some(i)
    } else {
        field_at(node, field, i + 1)
    }
}

/// The first child that fills `field`.
pub open spec fn child_in(node: SyntaxModel, field: Seq<char>) -> Option<SyntaxModel> {
    match field_at(node, field, 0) {
        Some(i) => Some(node.children[i].node),
        None => None,
    }
}

/// The named ones of the first `n` children.
pub open spec fn named_upto(node: SyntaxModel, n: int) -> Seq<SyntaxModel>
    decreases n,
{
    if n <= 0 {
        seq![]
    } else if node.children[n - 1].node.named {
        named_upto(node, n - 1).push(node.children[n - 1].node)
    } else {
        named_upto(node, n - 1)
    }
}

/// The named children.
pub open spec fn named_of(node: SyntaxModel) -> Seq<SyntaxModel> {
    named_upto(node, node.children.len() as int)
}

/// Whether the name of a declaration, if it has one, comes before the part
/// that fills `tail`, if it has one.
pub open spec fn name_before(node: SyntaxModel, tail: Seq<char>) -> bool {
    match (field_at(node, "name"@, 0), field_at(node, tail, 0)) {
        (Some(name), Some(rest)) => name < rest,
        _ => true,
    }
}

/// Whether a tree fits a source text: every node covers whole characters,
/// children lie within their parent and follow each other, and names come
/// before bodies and values.
pub open spec fn readable(node: SyntaxModel, source: Seq<char>) -> bool
    decreases node,
{
    &&& text::sliceable(source, node.start as int, node.end as int)
    &&& name_before(node, "body"@)
    &&& name_before(node, "value"@)
    &&& forall|i: int|
        0 <= i < node.children.len() ==> fits_in(node, #[trigger] node.children[i].node)
    &&& forall|i: int|
        0 <= i < node.children.len() ==> readable(#[trigger] node.children[i].node, source)
    &&& forall|i: int|
        1 <= i < node.children.len() ==> #[trigger] follows(node, i)
}

/// Whether `child` lies within `node`.
pub open spec fn fits_in(node: SyntaxModel, child: SyntaxModel) -> bool {
    node.start <= child.start && child.end <= node.end
}

/// Whether child `i` starts after the child before it ends.
pub open spec fn follows(node: SyntaxModel, i: int) -> bool {
    node.children[i - 1].node.end <= node.children[i].node.start
}

impl SyntaxNode {
    /// The first child that fills `field`.
    pub fn child_by_field(&self, field: &str) -> (child: Option<&SyntaxNode>)
        ensures
            match child {
                Some(found) => child_in(self@, field@) == Some(found@),
                None => child_in(self@, field@) is None,
            },
    {
        match self.field_index(field) {
            Some(i) => {
                proof {
                    lemma_children(*self);
                    assert(self@.children[i as int] == self.children@[i as int]@);
                }
                Some(&self.children[i].node)
            },
            None => None,
        }
    }

    /// Where the first child that fills `field` is.
    fn field_index(&self, field: &str) -> (at: Option<usize>)
        ensures
            match at {
                Some(i) => i < self.children@.len() && field_at(self@, field@, 0) == Some(i as int),
                None => field_at(self@, field@, 0) is None,
            },
    {
        proof {
            lemma_children(*self);
        }
        let mut i: usize = 0;
        while i < self.children.len()
            invariant
                i <= self.children@.len(),
                self@.children == item::views(self.children@),
                field_at(self@, field@, 0) == field_at(self@, field@, i as int),
            decreases self.children.len() - i,
        {
            assert(self@.children[i as int] == self.children@[i as int]@);
            if let Some(name) = self.children[i].field {
                if text::same_text(name, field) {
                    return Some(i);
                }
            }
            i = i + 1;
        }
        None
    }

    /// The named children.
    pub fn named_children(&self) -> (named: Vec<&SyntaxNode>)
        ensures
            item::views(named@) == named_of(self@),
    {
        proof {
            lemma_children(*self);
        }
        let mut named: Vec<&SyntaxNode> = Vec::new();
        let mut i: usize = 0;
        assert(item::views(named@) =~= seq![]);
        while i < self.children.len()
            invariant
                i <= self.children@.len(),
                self@.children == item::views(self.children@),
                item::views(named@) == named_upto(self@, i as int),
            decreases self.children.len() - i,
        {
            assert(self@.children[i as int] == self.children@[i as int]@);
            if self.children[i].node.named {
                proof {
                    item::lemma_views_push(named@, &self.children@[i as int].node);
                }
                named.push(&self.children[i].node);
            }
            i = i + 1;
        }
        named
    }

    /// Whether the node is of the given kind.
    pub fn is(&self, kind: &str) -> (yes: bool)
        ensures
            yes == (self@.kind == kind@),
    {
        text::same_text(self.kind, kind)
    }

    /// Whether the tree fits the source text.
    pub fn is_readable(&self, source: &str) -> (yes: bool)
        ensures
            yes == readable(self@, source@),
        decreases self,
    {
        proof {
            lemma_children(*self);
        }
        if !can_slice(source, self.start, self.end) {
            return false;
        }
        if !self.name_comes_before("body") || !self.name_comes_before("value") {
            return false;
        }
        let mut i: usize = 0;
        while i < self.children.len()
            invariant
                i <= self.children@.len(),
                self@.children == item::views(self.children@),
                text::sliceable(source@, self@.start as int, self@.end as int),
                name_before(self@, "body"@),
                name_before(self@, "value"@),
                forall|j: int|
                    0 <= j < i ==> fits_in(self@, #[trigger] self@.children[j].node),
                forall|j: int| 0 <= j < i ==> readable(#[trigger] self@.children[j].node, source@),
                forall|j: int| 1 <= j < i ==> #[trigger] follows(self@, j),
            decreases self.children.len() - i,
        {
            let child = &self.children[i].node;
            assert(self@.children[i as int].node == child@);
            if !(self.start <= child.start && child.end <= self.end) {
                assert(!fits_in(self@, self@.children[i as int].node));
                return false;
            }
            if i > 0 {
                assert(self@.children[i - 1].node == self.children@[i - 1].node@);
                if self.children[i - 1].node.end > child.start {
                    assert(!follows(self@, i as int));
                    return false;
                }
            }
            if !child.is_readable(source) {
                assert(!readable(self@.children[i as int].node, source@));
                return false;
            }
            i = i + 1;
        }
        true
    }

    /// Whether the name, if any, comes before what fills `tail`, if anything.
    fn name_comes_before(&self, tail: &str) -> (yes: bool)
        ensures
            yes == name_before(self@, tail@),
    {
        match (self.field_index("name"), self.field_index(tail)) {
            (Some(name), Some(rest)) => name < rest,
            _ => true,
        }
    }
}

/// Whether a byte range can be sliced out of a source text.
fn can_slice(source: &str, start: usize, end: usize) -> (can: bool)
    ensures
        can == text::sliceable(source@, start as int, end as int),
{
    let length: usize = source.as_bytes().len();
    proof {
        encode_utf8_decode_utf8(source@);
        assert(source.spec_bytes() == encode_utf8(source@));
    }
    start <= end && end <= length && source.is_char_boundary(start) && source.is_char_boundary(end)
}

/// The 1-based line a node's declaration starts on, as far as lines are
/// counted.
pub open spec fn line_of(node: SyntaxModel) -> Line {
    if node.row + 1 > u32::MAX {
        Line(u32::MAX)
    } else {
        Line((node.row + 1) as u32)
    }
}

/// The 1-based line a node's declaration starts on.
pub fn start_line(node: &SyntaxNode) -> (line: Line)
    ensures
        line == line_of(node@),
{
    if node.row >= u32::MAX as usize {
        Line(u32::MAX)
    } else {
        Line((node.row + 1) as u32)
    }
}

/// The source text a node covers.
pub open spec fn node_text(node: SyntaxModel, source: Seq<char>) -> Seq<char> {
    text::byte_text(source, node.start as int, node.end as int)
}

/// The source text a node covers.
pub fn text_of_node<'a>(node: &SyntaxNode, source: &'a str) -> (covered: &'a str)
    requires
        readable(node@, source@),
    ensures
        covered@ == node_text(node@, source@),
{
    text::byte_slice(source, node.start, node.end)
}

/// A child that fills a field of a readable node is readable and within it.
pub proof fn lemma_child_readable(node: SyntaxModel, field: Seq<char>, source: Seq<char>)
    requires
        readable(node, source),
    ensures
        child_in(node, field) matches Some(child) ==> readable(child, source) && fits_in(
            node,
            child,
        ),
{
    lemma_field_at(node, field, 0);
    if let Some(i) = field_at(node, field, 0) {
        assert(readable(node.children[i].node, source));
        assert(fits_in(node, node.children[i].node));
    }
}

/// A field found is filled by a child.
pub proof fn lemma_field_at(node: SyntaxModel, field: Seq<char>, i: int)
    requires
        0 <= i,
    ensures
        field_at(node, field, i) matches Some(at) ==> i <= at < node.children.len()
            && node.children[at].field == Some(field),
    decreases node.children.len() - i,
{
    if i < node.children.len() {
        lemma_field_at(node, field, i + 1);
    }
}

/// Named children of a readable node are readable and within it.
pub proof fn lemma_named_readable(node: SyntaxModel, source: Seq<char>, n: int)
    requires
        readable(node, source),
        0 <= n <= node.children.len(),
    ensures
        forall|k: int|
            0 <= k < named_upto(node, n).len() ==> readable(
                #[trigger] named_upto(node, n)[k],
                source,
            ),
    decreases n,
{
    if n > 0 {
        lemma_named_readable(node, source, n - 1);
        let before = named_upto(node, n - 1);
        assert forall|k: int| 0 <= k < named_upto(node, n).len() implies readable(
            #[trigger] named_upto(node, n)[k],
            source,
        ) by {
            if k < before.len() {
                assert(named_upto(node, n)[k] == before[k]);
            } else {
                assert(readable(node.children[n - 1].node, source));
            }
        }
    }
}

/// Of two children of a readable node the earlier ends before the later
/// starts.
pub proof fn lemma_in_order(node: SyntaxModel, source: Seq<char>, i: int, j: int)
    requires
        readable(node, source),
        0 <= i < j < node.children.len(),
    ensures
        node.children[i].node.end <= node.children[j].node.start,
    decreases j - i,
{
    assert(follows(node, j));
    if i < j - 1 {
        lemma_in_order(node, source, i, j - 1);
        assert(readable(node.children[j - 1].node, source));
    }
}

} // verus!

//! Bodies and places do not show: only the shape of a file does.

use absolem::item::{Item, Kind};
use absolem::producer::go;
use absolem::producer::registry::Registry;
use absolem::producer::rust;
use absolem::producer::syntax::{Grammar, SourceParser, SyntaxNode};
use absolem::review::{build_review, SourceFile, Sources};
use absolem::surface::Surface;

const GO_BASE: &str = "package x

import \"io\"

func First(r io.Reader) int { return 1 }

func (c *Client) Close() error { return nil }

type (
\tClient struct {
\t\ttimeout, retries int
\t\t*Base
\t}
\tDoer interface {
\t\tDo(r Request) error
\t\tio.Closer
\t}
\tID = string
)

const (
\tA = 1
\tB = 2
)

var (
\tx Client
\ty int
)
";

const RUST_BASE: &str = "use std::fmt;

fn first(a: u8) -> u8 { a }

struct Point { pub x: i32, y: Other }

struct Pair(pub u8, /* kept */ Other);

enum Shape { Round(f32), Flat { side: u8 } }

trait Area: fmt::Debug {
    const SIDES: usize = 4;
    type Unit;
    fn area(&self) -> u8 { 1 }
    fn name(&self) -> String;
}

impl Area for Point {
    const SIDES: usize = 2;
    type Unit = u8;
    fn area(&self) -> u8 { 2 }
    fn name(&self) -> String { String::new() }
}

impl Point {
    pub fn at(x: i32) -> Self { todo() }
    // Between two methods.
    fn other(&self) -> Other { self.y }
}

type Alias = Vec<Point>;
const LIMIT: usize = 3;
static NAME: &str = \"n\";

mod tests {
    fn inner() { check(1) }
}
";

fn with(source: &str, edits: &[(&str, &str)]) -> String {
    let mut text = source.to_owned();
    for (from, to) in edits {
        assert_eq!(text.matches(from).count(), 1, "{from}");
        text = text.replace(from, to);
    }
    text
}

fn changes(path: &str, base: &str, head: &str) -> usize {
    let mut registry = Registry::with_defaults().unwrap();
    let files = vec![SourceFile {
        path: path.to_owned(),
        sources: Sources::Modified {
            base: base.to_owned(),
            head: head.to_owned(),
        },
    }];
    build_review(&mut registry, &files).unwrap().len()
}

fn tree(grammar: Grammar, source: &str) -> SyntaxNode {
    let root = SourceParser::new(grammar).unwrap().parse(source).unwrap();
    assert!(root.is_readable(source));
    root
}

fn go_items(source: &str) -> Vec<Item> {
    let mut out = Surface::new();
    for child in &tree(Grammar::Go, source).children {
        go::extract_into(&child.node, source, "f.go", &mut out);
    }
    out.iter().to_vec()
}

fn rust_items(source: &str) -> Vec<Item> {
    let mut out = Surface::new();
    for child in &tree(Grammar::Rust, source).children {
        rust::extract_into(&child.node, source, "f.rs", &mut out);
    }
    out.iter().to_vec()
}

/// Asserts that two lists of items differ in lines alone, and do differ there.
fn assert_moved(before: &[Item], after: &[Item]) {
    assert_eq!(before.len(), after.len());
    for (a, b) in before.iter().zip(after) {
        assert_eq!(a.id, b.id);
        assert_eq!(a.signature, b.signature);
        assert_eq!(a.parent, b.parent);
        assert_eq!(a.refs, b.refs);
    }
    assert!(before.iter().zip(after).any(|(a, b)| a.line != b.line));
}

#[test]
fn go_bodies_that_grow_move_what_stands_below_and_change_nothing() {
    let head = with(
        GO_BASE,
        &[
            ("{ return 1 }", "{\n\ttype local struct{ z int }\n\treturn 22\n}"),
            ("{ return nil }", "{\n\treturn c.base.Close()\n}"),
        ],
    );
    let before = go_items(GO_BASE);
    assert_eq!(before.len(), 13);
    assert_moved(&before, &go_items(&head));
    assert_eq!(changes("f.go", GO_BASE, &head), 0);
}

#[test]
fn go_declarations_that_move_keep_their_items() {
    let head = with(GO_BASE, &[("import \"io\"\n", "import \"io\"\n\n// Moved down.\n\n")]);
    assert_moved(&go_items(GO_BASE), &go_items(&head));
    assert_eq!(changes("f.go", GO_BASE, &head), 0);
}

#[test]
fn a_go_parameter_that_changes_beside_a_body_is_a_change() {
    let head = with(
        GO_BASE,
        &[("First(r io.Reader) int { return 1 }", "First(r io.Writer) int { return 2 }")],
    );
    assert_eq!(changes("f.go", GO_BASE, &head), 1);
}

#[test]
fn rust_bodies_that_grow_move_what_stands_below_and_change_nothing() {
    let head = with(
        RUST_BASE,
        &[
            ("{ a }", "{\n    let b: Hidden = a;\n    b\n}"),
            ("{ 1 }", "{\n        10\n    }"),
            ("{ 2 }", "{\n        let w: Hidden = 20;\n        w\n    }"),
            ("{ todo() }", "{\n        Point { x, y: Other }\n    }"),
            ("{ check(1) }", "{ check(2) }"),
        ],
    );
    let before = rust_items(RUST_BASE);
    assert_eq!(before.len(), 24);
    assert_moved(&before, &rust_items(&head));
    assert_eq!(changes("f.rs", RUST_BASE, &head), 0);
}

#[test]
fn rust_impl_method_bodies_do_not_show() {
    let head = with(RUST_BASE, &[("{ 2 }", "{\n        2 + 2\n    }"), ("{ self.y }", "{ y }")]);
    assert_moved(&rust_items(RUST_BASE), &rust_items(&head));
    assert_eq!(changes("f.rs", RUST_BASE, &head), 0);
}

#[test]
fn rust_default_method_bodies_do_not_show() {
    let head = with(RUST_BASE, &[("{ 1 }", "{\n        1 + 1\n    }")]);
    assert_moved(&rust_items(RUST_BASE), &rust_items(&head));
    assert_eq!(changes("f.rs", RUST_BASE, &head), 0);
}

#[test]
fn rust_declarations_that_move_keep_their_items() {
    let head = with(RUST_BASE, &[("use std::fmt;\n", "use std::fmt;\n\n// Moved down.\n\n")]);
    assert_moved(&rust_items(RUST_BASE), &rust_items(&head));
    assert_eq!(changes("f.rs", RUST_BASE, &head), 0);
}

#[test]
fn comments_and_imports_that_come_with_a_body_do_not_show() {
    let go_head = with(
        GO_BASE,
        &[
            ("import \"io\"\n", "import \"fmt\"\nimport \"io\"\n"),
            ("{ return 1 }", "{ fmt.Println(); return 1 }\n\n// Close closes."),
        ],
    );
    assert_moved(&go_items(GO_BASE), &go_items(&go_head));
    assert_eq!(changes("f.go", GO_BASE, &go_head), 0);
    let rust_head = with(
        RUST_BASE,
        &[
            ("use std::fmt;\n", "use std::fmt;\nuse std::io;\n"),
            ("{ 1 }", "{ 10 }\n    // The name.\n"),
            ("{ todo() }", "{ io() }\n    /* One more. */"),
        ],
    );
    assert_moved(&rust_items(RUST_BASE), &rust_items(&rust_head));
    assert_eq!(changes("f.rs", RUST_BASE, &rust_head), 0);
}

#[test]
fn a_method_signature_that_changes_beside_a_body_is_a_change() {
    let head = with(
        RUST_BASE,
        &[("other(&self) -> Other { self.y }", "other(&self) -> u8 { 0 }")],
    );
    assert_eq!(changes("f.rs", RUST_BASE, &head), 1);
}

/// The nodes of a tree of one of the kinds.
fn of_kind<'a>(node: &'a SyntaxNode, kinds: &[&str], found: &mut Vec<&'a SyntaxNode>) {
    if kinds.contains(&node.kind) {
        found.push(node);
    }
    for child in &node.children {
        of_kind(&child.node, kinds, found);
    }
}

#[test]
fn bodies_come_last_in_what_has_them() {
    let mut found = Vec::new();
    let go_tree = tree(Grammar::Go, GO_BASE);
    of_kind(&go_tree, &["function_declaration", "method_declaration"], &mut found);
    let rust_tree = tree(Grammar::Rust, RUST_BASE);
    of_kind(&rust_tree, &["function_item", "impl_item", "trait_item"], &mut found);
    assert_eq!(found.len(), 12);
    for node in found {
        let (last, before) = node.children.split_last().unwrap();
        assert_eq!(last.field, Some("body"));
        assert!(before.iter().all(|child| child.field != Some("body")));
    }
}

#[test]
fn one_declaration_is_read_on_its_own() {
    let source = "package x\n\nfunc (c *Client) Get(id ID) Row { return Row{} }\n";
    let root = tree(Grammar::Go, source);
    let method = root
        .children
        .iter()
        .find(|child| child.node.kind == "method_declaration")
        .unwrap();
    let mut out = Surface::new();
    go::extract_into(&method.node, source, "f.go", &mut out);
    let items = out.iter();
    assert_eq!(items.len(), 1);
    assert_eq!(items[0].id.kind, Kind::Method);
    assert_eq!(items[0].id.name, "Client.Get");
    assert_eq!(items[0].signature, "func (c *Client) Get(id ID) Row");
    assert_eq!(items[0].line.0, 3);
    let refs: Vec<&str> = items[0].refs.iter().map(|r| r.0.as_str()).collect();
    assert_eq!(refs, vec!["ID", "Row"]);
}

//! Surfaces, the shape of a diff, and the index over a tree.

use absolem::changes::{diff, ItemStatus, ItemView};
use absolem::index::TypeIndex;
use absolem::item::{Item, ItemId, Kind, Line, TypeRef};
use absolem::producer::go::GoProducer;
use absolem::producer::rust::RustProducer;
use absolem::surface::Surface;

fn item(name: &str, kind: Kind, sig: &str) -> Item {
    Item {
        id: ItemId {
            path: "f.rs".to_owned(),
            kind,
            name: name.to_owned(),
        },
        signature: sig.to_owned(),
        line: Line(1),
        parent: None,
        refs: Vec::new(),
    }
}

fn member(parent: &str, name: &str, kind: Kind, sig: &str) -> Item {
    let mut made = item(name, kind, sig);
    made.parent = Some(parent.to_owned());
    made
}

fn surface(items: Vec<Item>) -> Surface {
    let mut made = Surface::new();
    for item in items {
        made.push(item);
    }
    made
}

fn go(source: &str) -> Vec<Item> {
    let mut producer = GoProducer::new().unwrap();
    producer.extract("f.go", source).unwrap().iter().to_vec()
}

fn rust(source: &str) -> Vec<Item> {
    let mut producer = RustProducer::new().unwrap();
    producer.extract("f.rs", source).unwrap().iter().to_vec()
}

fn refs(item: &Item) -> Vec<&str> {
    item.refs.iter().map(|r| r.0.as_str()).collect()
}

#[test]
fn the_last_item_with_an_id_is_found() {
    let first = item("F", Kind::Function, "fn F()");
    let second = item("F", Kind::Function, "fn F(x: u8)");
    let made = surface(vec![first.clone(), second.clone()]);
    assert_eq!(made.by_id(&first.id), Some(&second));
    assert_eq!(made.by_id(&item("G", Kind::Function, "").id), None);
    assert_eq!(made.iter().len(), 2);
    assert_eq!(Surface::default(), Surface::new());
    assert_eq!(made.clone(), made);
}

#[test]
fn kinds_and_statuses_have_names() {
    assert_eq!(Kind::InterfaceMethod.as_str(), "interface_method");
    assert_eq!(Kind::Function.as_str(), "function");
    assert_eq!(ItemStatus::Added.as_str(), "added");
    assert_eq!(ItemStatus::Removed.as_str(), "removed");
    assert_eq!(ItemStatus::Unchanged.as_str(), "unchanged");
    assert_eq!(
        ItemStatus::Modified {
            before: item("F", Kind::Function, "fn F()"),
        }
        .as_str(),
        "modified"
    );
}

#[test]
fn a_surface_does_not_differ_from_itself() {
    let made = surface(vec![
        item("S", Kind::Struct, "struct S"),
        member("S", "S::a", Kind::Field, "S::a: u8"),
        member("Elsewhere", "Elsewhere::m", Kind::Method, "fn Elsewhere::m()"),
    ]);
    assert!(diff(&made, &made).is_empty());
}

#[test]
fn duplicates_that_disagree_differ_even_from_themselves() {
    // The last declaration of an id stands for it on either side.
    let made = surface(vec![
        item("F", Kind::Function, "fn F()"),
        item("F", Kind::Function, "fn F(x: u8)"),
    ]);
    let changes = diff(&made, &made);
    assert_eq!(changes.blocks.len(), 1);
    assert_eq!(changes.blocks[0].item.signature, "fn F()");
    assert!(changes.blocks[0].is_changed());
}

#[test]
fn removals_trail_what_the_head_still_has() {
    let base = surface(vec![
        item("Gone", Kind::Function, "fn Gone()"),
        item("S", Kind::Struct, "struct S"),
        member("S", "S::gone", Kind::Field, "S::gone: u8"),
        member("Lost", "Lost::m", Kind::Method, "fn Lost::m()"),
    ]);
    let head = surface(vec![
        item("S", Kind::Struct, "struct S"),
        item("New", Kind::Function, "fn New()"),
    ]);
    let changes = diff(&base, &head);
    let names: Vec<&str> = changes
        .blocks
        .iter()
        .map(|block| block.item.id.name.as_str())
        .collect();
    assert_eq!(names, ["S", "New", "Gone", "Lost::m"]);
    assert_eq!(changes.blocks[0].members.len(), 1);
    assert_eq!(changes.blocks[0].members[0].status, ItemStatus::Removed);
    assert_eq!(changes.blocks[2].status, ItemStatus::Removed);
}

#[test]
fn only_changed_views_count_as_changed() {
    let quiet = ItemView::leaf(ItemStatus::Unchanged, item("F", Kind::Function, "fn F()"));
    assert!(!quiet.is_changed());
    let mut block = ItemView::leaf(ItemStatus::Unchanged, item("S", Kind::Struct, "struct S"));
    block.members.push(ItemView::leaf(
        ItemStatus::Added,
        member("S", "S::a", Kind::Field, "S::a: u8"),
    ));
    assert!(block.is_changed());
}

#[test]
fn the_index_prefers_the_referencing_file_for_members_too() {
    let mut near = item("Config", Kind::Struct, "struct Config");
    near.id.path = "near.rs".to_owned();
    let mut far = item("Config", Kind::Struct, "struct Config");
    far.id.path = "far.rs".to_owned();
    let mut method = member("Config", "Config::load", Kind::Method, "fn Config::load()");
    method.id.path = "near.rs".to_owned();
    let index = TypeIndex::build(&[
        surface(vec![far]),
        surface(vec![near]),
        surface(vec![method]),
    ]);
    let found = index.lookup("Config", "near.rs").unwrap();
    assert_eq!(found.candidates, 2);
    assert_eq!(found.def.members.len(), 1);
    let other = index.lookup("Config", "far.rs").unwrap();
    assert!(other.def.members.is_empty());
    // From anywhere else the first definition is picked.
    let elsewhere = index.lookup("Config", "x.rs").unwrap();
    assert_eq!(elsewhere.def.item.id.path, "far.rs");
}

#[test]
fn every_top_level_item_is_indexed_and_no_member_is() {
    let index = TypeIndex::build(&[surface(vec![
        item("F", Kind::Function, "fn F()"),
        member("S", "S::m", Kind::Method, "fn S::m()"),
    ])]);
    assert_eq!(index.lookup("F", "f.rs").unwrap().candidates, 1);
    assert!(index.lookup("S::m", "f.rs").is_none());
    assert!(index.users_of("F").is_empty());
    assert!(TypeIndex::default().lookup("F", "f.rs").is_none());
}

#[test]
fn references_are_distinct_and_in_order() {
    let items = go("package p\n\nfunc F(a Config, b Config) (*Client, error) { return nil, nil }\n");
    assert_eq!(refs(&items[0]), ["Config", "Client"]);
    let items = rust("pub fn f(a: Config, b: &Config) -> Result<Client, io::Error> { todo!() }\n");
    assert_eq!(refs(&items[0]), ["Config", "Result", "Client", "io::Error"]);
}

#[test]
fn rust_members_carry_their_parent_but_no_reference_to_it() {
    let items = rust(
        "pub struct Node {\n    next: Option<Box<Node>>,\n}\nimpl Node {\n    pub fn link(&mut self, to: Edge) -> Self { todo!() }\n}\n",
    );
    assert_eq!(items[0].parent, None);
    assert_eq!(items[1].parent.as_deref(), Some("Node"));
    assert_eq!(refs(&items[1]), ["Option", "Box"]);
    assert_eq!(items[2].parent.as_deref(), Some("Node"));
    assert_eq!(refs(&items[2]), ["Edge"]);
}

#[test]
fn bodies_do_not_show() {
    assert_eq!(
        go("package p\nfunc F(x int) int { return x }\n"),
        go("package p\nfunc F(x int) int { return x + 1 }\n")
    );
    assert_eq!(
        rust("pub fn f(x: u8) -> u8 { x }\n"),
        rust("pub fn f(x: u8) -> u8 { let y = x; y }\n")
    );
    assert_eq!(
        rust("impl S {\n    fn m(&self) -> u8 { 0 }\n}\n"),
        rust("impl S {\n    fn m(&self) -> u8 { 1 }\n}\n")
    );
}

#[test]
fn broken_sources_still_yield_what_parses() {
    let items = go("package p\n\nfunc A() {}\n\nfunc B( {\n");
    assert_eq!(items[0].id.name, "A");
    let items = rust("pub fn a() {}\npub struct {\n");
    assert_eq!(items[0].id.name, "a");
}

#[test]
fn sources_beyond_ascii_are_cut_at_characters() {
    let items = rust("/// Größe\npub fn größe(ä: &str) -> Größe { \"→\" }\n");
    assert_eq!(items[0].id.name, "größe");
    assert_eq!(items[0].signature, "pub fn größe(ä: &str) -> Größe");
    assert_eq!(refs(&items[0]), ["Größe"]);
    assert_eq!(items[0].line, Line(2));
}

#[test]
fn lookups_fall_back_to_the_last_segment() {
    let mut made = item("Client", Kind::Struct, "struct Client");
    made.refs = vec![TypeRef("pkg::Conn".to_owned())];
    let index = TypeIndex::build(&[surface(vec![made])]);
    assert!(index.lookup("net::http::Client", "f.rs").is_some());
    assert!(index.lookup("Clients", "f.rs").is_none());
    assert_eq!(index.users_of("Conn").len(), 1);
    assert!(index.users_of("pkg::Conn").is_empty());
}

//! Diffing two surfaces, and resolving names across surfaces.

use absolem::changes::{diff, ChangeSet, ItemStatus};
use absolem::index::TypeIndex;
use absolem::item::{Item, ItemId, Kind, Line, TypeRef};
use absolem::surface::Surface;

fn item(name: &str, kind: Kind, sig: &str) -> Item {
    Item {
        id: ItemId {
            path: "f.go".to_owned(),
            kind,
            name: name.into(),
        },
        signature: sig.into(),
        line: Line(1),
        parent: None,
        refs: Vec::new(),
    }
}

fn member(parent: &str, name: &str, kind: Kind, sig: &str) -> Item {
    let mut i = item(name, kind, sig);
    i.parent = Some(parent.into());
    i
}

fn surface(items: Vec<Item>) -> Surface {
    let mut s = Surface::new();
    for i in items {
        s.push(i);
    }
    s
}

fn tag(s: &ItemStatus) -> &'static str {
    match s {
        ItemStatus::Added => "added",
        ItemStatus::Removed => "removed",
        ItemStatus::Modified { .. } => "modified",
        ItemStatus::Unchanged => "unchanged",
    }
}

fn statuses(cs: &ChangeSet) -> Vec<(&str, &'static str)> {
    cs.blocks
        .iter()
        .map(|b| (b.item.id.name.as_str(), tag(&b.status)))
        .collect()
}

#[test]
fn empty_vs_empty_yields_no_changes() {
    assert!(diff(&Surface::new(), &Surface::new()).is_empty());
}

#[test]
fn added_item_in_head_only() {
    let head = surface(vec![item("A", Kind::Function, "func A()")]);
    let cs = diff(&Surface::new(), &head);
    assert_eq!(statuses(&cs), vec![("A", "added")]);
}

#[test]
fn removed_item_in_base_only() {
    let base = surface(vec![item("A", Kind::Function, "func A()")]);
    let cs = diff(&base, &Surface::new());
    assert_eq!(statuses(&cs), vec![("A", "removed")]);
}

#[test]
fn identical_signatures_yield_no_blocks() {
    let s = surface(vec![item("A", Kind::Function, "func A()")]);
    assert!(diff(&s, &s).is_empty());
}

#[test]
fn same_id_different_signature_is_modified() {
    let base = surface(vec![item("A", Kind::Function, "func A()")]);
    let head = surface(vec![item("A", Kind::Function, "func A(x int)")]);
    let cs = diff(&base, &head);
    match &cs.blocks[0].status {
        ItemStatus::Modified { before } => assert_eq!(before.signature, "func A()"),
        other => panic!("expected Modified, got {other:?}"),
    }
}

#[test]
fn different_kind_with_same_name_is_add_plus_remove() {
    let base = surface(vec![item("Foo", Kind::Struct, "type Foo struct")]);
    let head = surface(vec![item("Foo", Kind::Function, "func Foo()")]);
    let cs = diff(&base, &head);
    assert_eq!(statuses(&cs), vec![("Foo", "added"), ("Foo", "removed")]);
}

#[test]
fn head_order_drives_blocks_removals_last() {
    let base = surface(vec![
        item("Old", Kind::Function, "func Old()"),
        item("B", Kind::Function, "func B()"),
    ]);
    let head = surface(vec![
        item("A", Kind::Function, "func A()"),
        item("B", Kind::Function, "func B(x int)"),
    ]);
    let cs = diff(&base, &head);
    assert_eq!(
        statuses(&cs),
        vec![("A", "added"), ("B", "modified"), ("Old", "removed")]
    );
}

#[test]
fn changed_member_pulls_whole_block_with_context() {
    let base = surface(vec![
        item("Kind", Kind::Enum, "pub enum Kind"),
        member("Kind", "Kind::Function", Kind::Variant, "Kind::Function"),
    ]);
    let head = surface(vec![
        item("Kind", Kind::Enum, "pub enum Kind"),
        member("Kind", "Kind::Function", Kind::Variant, "Kind::Function"),
        member("Kind", "Kind::Field", Kind::Variant, "Kind::Field"),
    ]);
    let cs = diff(&base, &head);
    assert_eq!(cs.blocks.len(), 1);
    let block = &cs.blocks[0];
    // The unchanged parent is kept as the block header…
    assert_eq!(block.status, ItemStatus::Unchanged);
    assert_eq!(block.item.id.name, "Kind");
    // …and the unchanged sibling variant is kept as context.
    assert_eq!(block.members.len(), 2);
    assert_eq!(block.members[0].status, ItemStatus::Unchanged);
    assert_eq!(block.members[0].item.id.name, "Kind::Function");
    assert_eq!(block.members[1].status, ItemStatus::Added);
    assert_eq!(block.members[1].item.id.name, "Kind::Field");
}

#[test]
fn fully_unchanged_block_is_dropped() {
    let s = surface(vec![
        item("Kind", Kind::Enum, "pub enum Kind"),
        member("Kind", "Kind::Function", Kind::Variant, "Kind::Function"),
        item("F", Kind::Function, "fn F()"),
    ]);
    let mut head_items: Vec<Item> = s.iter().to_vec();
    head_items[2].signature = "fn F(x: u8)".into();
    let cs = diff(&s, &surface(head_items));
    // Only the function block survives; the untouched enum is gone.
    assert_eq!(statuses(&cs), vec![("F", "modified")]);
}

#[test]
fn removed_member_trails_its_block() {
    let base = surface(vec![
        item("S", Kind::Struct, "struct S"),
        member("S", "S::gone", Kind::Field, "S::gone: u8"),
        member("S", "S::kept", Kind::Field, "S::kept: u8"),
    ]);
    let head = surface(vec![
        item("S", Kind::Struct, "struct S"),
        member("S", "S::kept", Kind::Field, "S::kept: u8"),
    ]);
    let cs = diff(&base, &head);
    assert_eq!(cs.blocks.len(), 1);
    let names: Vec<_> = cs.blocks[0]
        .members
        .iter()
        .map(|m| m.item.id.name.as_str())
        .collect();
    assert_eq!(names, vec!["S::kept", "S::gone"]);
    assert_eq!(cs.blocks[0].members[1].status, ItemStatus::Removed);
}

#[test]
fn removed_composite_folds_its_members() {
    let base = surface(vec![
        item("S", Kind::Struct, "struct S"),
        member("S", "S::x", Kind::Field, "S::x: u8"),
    ]);
    let cs = diff(&base, &Surface::new());
    // One removal row for the struct; the field is folded in.
    assert_eq!(statuses(&cs), vec![("S", "removed")]);
    assert!(cs.blocks[0].members.is_empty());
}

#[test]
fn orphan_member_degrades_to_its_own_block() {
    // An impl member for a type declared in another file.
    let head = surface(vec![member(
        "Elsewhere",
        "Elsewhere::m",
        Kind::Method,
        "fn Elsewhere::m()",
    )]);
    let cs = diff(&Surface::new(), &head);
    assert_eq!(statuses(&cs), vec![("Elsewhere::m", "added")]);
}

#[test]
fn moving_an_item_without_changing_its_signature_is_not_a_change() {
    let base = surface(vec![item("A", Kind::Function, "func A()")]);
    let mut moved = item("A", Kind::Function, "func A()");
    moved.line = Line(40);
    let head = surface(vec![moved]);
    assert!(diff(&base, &head).is_empty());
}

#[test]
fn type_index_resolves_names_and_attaches_cross_file_members() {
    let mut client = item("Client", Kind::Struct, "type Client struct");
    client.id.path = "client.go".to_owned();
    let mut field = member(
        "Client",
        "Client.timeout",
        Kind::Field,
        "Client.timeout int",
    );
    field.id.path = "client.go".to_owned();
    // A method on Client declared in a different file.
    let mut method = member(
        "Client",
        "Client.Close",
        Kind::Method,
        "func (c *Client) Close() error",
    );
    method.id.path = "client_ext.go".to_owned();

    let index = TypeIndex::build(&[surface(vec![client, field]), surface(vec![method])]);
    let from = "elsewhere.go";
    let resolved = index.lookup("Client", from).unwrap();
    assert_eq!(resolved.def.item.id.name, "Client");
    assert_eq!(resolved.candidates, 1);
    let members: Vec<_> = resolved
        .def
        .members
        .iter()
        .map(|m| m.item.id.name.as_str())
        .collect();
    assert_eq!(members, vec!["Client.timeout", "Client.Close"]);
    // Qualified names fall back to their final segment.
    assert!(index.lookup("pkg.Client", from).is_some());
    assert!(index.lookup("Missing", from).is_none());
}

#[test]
fn users_of_inverts_references() {
    let client = item("Client", Kind::Struct, "type Client struct");
    let mut connect = item("Connect", Kind::Function, "func Connect() *Client");
    connect.refs = vec![TypeRef("Client".into())];
    let mut field = member("Pool", "Pool.client", Kind::Field, "Pool.client sdk.Client");
    field.refs = vec![TypeRef("sdk.Client".into())];
    let index = TypeIndex::build(&[surface(vec![client, connect, field])]);

    let users: Vec<_> = index
        .users_of("Client")
        .iter()
        .map(|u| u.item.id.name.as_str())
        .collect();
    // Qualified references count by their final segment.
    assert_eq!(users, vec!["Connect", "Pool.client"]);
    assert!(index.users_of("Nobody").is_empty());
}

#[test]
fn colliding_names_prefer_the_referencing_file() {
    let mut a = item("Config", Kind::Struct, "type Config struct");
    a.id.path = "server/config.go".to_owned();
    let mut b = item("Config", Kind::Struct, "type Config struct");
    b.id.path = "client/config.go".to_owned();
    let index = TypeIndex::build(&[surface(vec![a]), surface(vec![b])]);

    let near = index
        .lookup("Config", "client/config.go")
        .unwrap();
    assert_eq!(near.def.item.id.path, "client/config.go".to_owned());
    assert_eq!(near.candidates, 2);

    // From an unrelated file the pick is arbitrary but the contest
    // is reported.
    let far = index.lookup("Config", "other.go").unwrap();
    assert_eq!(far.candidates, 2);
}

#[test]
fn path_is_part_of_identity() {
    let a = item("F", Kind::Function, "func F()");
    let mut b = item("F", Kind::Function, "func F()");
    b.id.path = "b.go".to_owned();
    let cs = diff(&surface(vec![a]), &surface(vec![b]));
    assert_eq!(cs.blocks.len(), 2);
}

/// Every row of a diff, headers and members alike, by name.
fn rows(cs: &ChangeSet) -> Vec<&str> {
    let mut names = Vec::new();
    for block in &cs.blocks {
        names.push(block.item.id.name.as_str());
        for member in &block.members {
            names.push(member.item.id.name.as_str());
        }
    }
    names
}

#[test]
fn no_item_is_shown_twice() {
    let base = surface(vec![
        item("T", Kind::Struct, "type T struct"),
        member("T", "T.a", Kind::Field, "T.a int"),
        member("T", "T.b", Kind::Field, "T.b int"),
        item("F", Kind::Function, "func F()"),
        item("Gone", Kind::Struct, "type Gone struct"),
        member("Gone", "Gone.x", Kind::Field, "Gone.x int"),
    ]);
    let head = surface(vec![
        member("T", "T.early", Kind::Method, "func (t T) early()"),
        item("T", Kind::Struct, "type T struct"),
        member("T", "T.a", Kind::Field, "T.a uint"),
        item("F", Kind::Function, "func F(x int)"),
        member("T", "T.late", Kind::Method, "func (t T) late()"),
    ]);
    let cs = diff(&base, &head);
    let shown = rows(&cs);
    assert_eq!(
        shown,
        vec!["T.early", "T", "T.a", "T.late", "T.b", "F", "Gone"]
    );
    let mut once = shown.clone();
    once.sort();
    once.dedup();
    assert_eq!(once.len(), shown.len());
}

#[test]
fn an_item_declared_twice_is_shown_no_more_than_twice() {
    let head = surface(vec![
        item("init", Kind::Function, "func init()"),
        item("init", Kind::Function, "func init()"),
    ]);
    let cs = diff(&Surface::new(), &head);
    assert_eq!(rows(&cs), vec!["init", "init"]);
    let gone = diff(&head, &Surface::new());
    assert_eq!(rows(&gone), vec!["init", "init"]);
}

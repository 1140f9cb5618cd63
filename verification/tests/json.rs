//! The JSON frontend.

use absolem::changes::{ChangeSet, FileChange, FileChangeKind, ItemStatus, ItemView};
use absolem::item::{Item, ItemId, Kind, Line, TypeRef};
use absolem::json::{file_json, render_json, view_json};
use serde_json::Value;

fn item(name: &str, kind: Kind, sig: &str, line: u32) -> Item {
    Item {
        id: ItemId {
            path: "f.go".to_owned(),
            kind,
            name: name.into(),
        },
        signature: sig.into(),
        line: Line(line),
        parent: None,
        refs: Vec::new(),
    }
}

fn written(review: &[FileChange]) -> String {
    let mut out = String::new();
    render_json(&mut out, review);
    out
}

fn render(review: &[FileChange]) -> Value {
    serde_json::from_str(&written(review)).unwrap()
}

fn json(text: &str) -> Value {
    serde_json::from_str(text).unwrap()
}

#[test]
fn empty_review_is_versioned_with_no_files() {
    assert_eq!(render(&[]), json(r#"{ "version": 2, "files": [] }"#));
}

#[test]
fn output_ends_with_a_newline() {
    assert_eq!(written(&[]).as_bytes().last(), Some(&b'\n'));
}

#[test]
fn blocks_nest_members_with_statuses_and_refs() {
    let mut func = item("F", Kind::Function, "func F() *Client", 3);
    func.refs = vec![TypeRef("Client".into())];
    let block = ItemView {
        status: ItemStatus::Unchanged,
        item: item("Kind", Kind::Enum, "pub enum Kind", 10),
        members: vec![ItemView {
            status: ItemStatus::Modified {
                before: item("Kind::A", Kind::Variant, "Kind::A", 11),
            },
            item: item("Kind::A", Kind::Variant, "Kind::A(u8)", 12),
            members: Vec::new(),
        }],
    };
    let review = vec![FileChange {
        path: "f.go".to_owned(),
        kind: FileChangeKind::Changed(ChangeSet {
            blocks: vec![
                ItemView {
                    status: ItemStatus::Added,
                    item: func,
                    members: Vec::new(),
                },
                block,
            ],
        }),
    }];
    assert_eq!(
        render(&review),
        json(
            r#"{
                "version": 2,
                "files": [{
                    "path": "f.go",
                    "status": "changed",
                    "items": [
                        {
                            "status": "added",
                            "kind": "function",
                            "name": "F",
                            "signature": "func F() *Client",
                            "line": 3,
                            "refs": ["Client"],
                            "members": []
                        },
                        {
                            "status": "unchanged",
                            "kind": "enum",
                            "name": "Kind",
                            "signature": "pub enum Kind",
                            "line": 10,
                            "refs": [],
                            "members": [{
                                "status": "modified",
                                "kind": "variant",
                                "name": "Kind::A",
                                "signature": "Kind::A(u8)",
                                "line": 12,
                                "refs": [],
                                "members": [],
                                "before": { "signature": "Kind::A", "line": 11 }
                            }]
                        }
                    ]
                }]
            }"#
        )
    );
}

#[test]
fn deleted_file_has_deleted_status_and_no_items() {
    let review = vec![FileChange {
        path: "gone.rs".to_owned(),
        kind: FileChangeKind::Deleted,
    }];
    assert_eq!(
        render(&review),
        json(
            r#"{
                "version": 2,
                "files": [{ "path": "gone.rs", "status": "deleted", "items": [] }]
            }"#
        )
    );
}

#[test]
fn the_document_is_one_compact_line_with_sorted_keys() {
    assert_eq!(written(&[]), "{\"files\":[],\"version\":2}\n");
    let review = vec![FileChange {
        path: "gone.rs".to_owned(),
        kind: FileChangeKind::Deleted,
    }];
    assert_eq!(
        written(&review),
        "{\"files\":[{\"items\":[],\"path\":\"gone.rs\",\"status\":\"deleted\"}],\"version\":2}\n"
    );
}

#[test]
fn rendering_appends_to_what_is_there() {
    let mut out = "before\n".to_owned();
    render_json(&mut out, &[]);
    assert_eq!(out, "before\n{\"files\":[],\"version\":2}\n");
}

#[test]
fn signatures_are_escaped_and_read_back() {
    let signature = "U.Name string `json:\"name\"` \\ \u{2014}\n\t";
    let view = ItemView {
        status: ItemStatus::Removed,
        item: item("U.Name", Kind::Field, signature, 7),
        members: Vec::new(),
    };
    let value = view_json(&view);
    assert_eq!(value["signature"].as_str(), Some(signature));
    assert_eq!(value["status"].as_str(), Some("removed"));
    assert_eq!(value["kind"].as_str(), Some("field"));
    assert_eq!(value["line"].as_u64(), Some(7));
    let review = vec![FileChange {
        path: "a.go".to_owned(),
        kind: FileChangeKind::Changed(ChangeSet { blocks: vec![view] }),
    }];
    assert_eq!(
        render(&review)["files"][0]["items"][0]["signature"].as_str(),
        Some(signature)
    );
}

#[test]
fn only_modified_items_say_what_they_were() {
    let after = item("F", Kind::Function, "func F(x int)", 9);
    let statuses = vec![
        (ItemStatus::Added, false),
        (ItemStatus::Removed, false),
        (ItemStatus::Unchanged, false),
        (
            ItemStatus::Modified {
                before: item("F", Kind::Function, "func F()", 4),
            },
            true,
        ),
    ];
    for (status, expected) in statuses {
        let view = ItemView {
            status,
            item: after.clone(),
            members: Vec::new(),
        };
        let value = view_json(&view);
        assert_eq!(value.get("before").is_some(), expected);
        if expected {
            assert_eq!(value["before"]["signature"].as_str(), Some("func F()"));
            assert_eq!(value["before"]["line"].as_u64(), Some(4));
        }
    }
}

#[test]
fn a_file_document_lists_its_blocks_in_order() {
    let file = FileChange {
        path: "dir/a.go".to_owned(),
        kind: FileChangeKind::Changed(ChangeSet {
            blocks: vec![
                ItemView {
                    status: ItemStatus::Added,
                    item: item("B", Kind::Function, "func B()", 1),
                    members: Vec::new(),
                },
                ItemView {
                    status: ItemStatus::Added,
                    item: item("A", Kind::Function, "func A()", 2),
                    members: Vec::new(),
                },
            ],
        }),
    };
    let value = file_json(&file);
    assert_eq!(value["path"].as_str(), Some("dir/a.go"));
    assert_eq!(value["status"].as_str(), Some("changed"));
    assert_eq!(value["items"].as_array().unwrap().len(), 2);
    assert_eq!(value["items"][0]["name"].as_str(), Some("B"));
    assert_eq!(value["items"][1]["name"].as_str(), Some("A"));
}

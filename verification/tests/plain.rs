//! The plain-text frontend.

use absolem::changes::{ChangeSet, FileChange, FileChangeKind, ItemStatus, ItemView};
use absolem::item::{Item, ItemId, Kind, Line};
use absolem::render::render_review;

fn item(name: &str, kind: Kind, sig: &str) -> Item {
    Item {
        id: ItemId {
            path: "f.go".to_owned(),
            kind,
            name: name.into(),
        },
        signature: sig.into(),
        line: Line(1),
        parent: None,
        refs: Vec::new(),
    }
}

fn leaf(status: ItemStatus, name: &str, kind: Kind, sig: &str) -> ItemView {
    ItemView {
        status,
        item: item(name, kind, sig),
        members: Vec::new(),
    }
}

fn added(name: &str, sig: &str) -> ItemView {
    leaf(ItemStatus::Added, name, Kind::Function, sig)
}

fn changed(path: &str, blocks: Vec<ItemView>) -> FileChange {
    FileChange {
        path: path.to_owned(),
        kind: FileChangeKind::Changed(ChangeSet { blocks }),
    }
}

fn render(review: &[FileChange]) -> String {
    let mut out = String::new();
    render_review(&mut out, review);
    out
}

#[test]
fn empty_review_says_the_surface_is_untouched() {
    assert_eq!(
        render(&[]),
        "No structural changes — the API surface is untouched.\n"
    );
}

#[test]
fn deleted_prints_marker() {
    let review = vec![FileChange {
        path: "foo.go".to_owned(),
        kind: FileChangeKind::Deleted,
    }];
    assert_eq!(render(&review), "DELETED foo.go\n");
}

#[test]
fn leaf_blocks_render_tight() {
    let review = vec![changed(
        "a.go",
        vec![
            added("A", "func A()"),
            leaf(
                ItemStatus::Modified {
                    before: item("B", Kind::Function, "func B()"),
                },
                "B",
                Kind::Function,
                "func B(x int)",
            ),
            leaf(ItemStatus::Removed, "C", Kind::Function, "func C()"),
        ],
    )];
    assert_eq!(
        render(&review),
        [
            "a.go\n",
            "  + func A()\n",
            "  ~ func B(x int)\n",
            "      was: func B()\n",
            "  - func C()\n",
        ].concat()
    );
}

#[test]
fn composite_renders_whole_as_a_paragraph() {
    let members = vec![
        leaf(
            ItemStatus::Unchanged,
            "Kind::Function",
            Kind::Variant,
            "Kind::Function",
        ),
        leaf(
            ItemStatus::Added,
            "Kind::Field",
            Kind::Variant,
            "Kind::Field",
        ),
        leaf(
            ItemStatus::Removed,
            "Kind::Gone",
            Kind::Variant,
            "Kind::Gone",
        ),
    ];
    let block = ItemView {
        status: ItemStatus::Unchanged,
        item: item("Kind", Kind::Enum, "pub enum Kind"),
        members,
    };
    let review = vec![changed(
        "item.rs",
        vec![added("f", "fn f()"), block, added("g", "fn g()")],
    )];
    assert_eq!(
        render(&review),
        [
            "item.rs\n",
            "  + fn f()\n",
            "\n",
            "    pub enum Kind\n",
            "        Kind::Function\n",
            "      + Kind::Field\n",
            "      - Kind::Gone\n",
            "\n",
            "  + fn g()\n",
        ].concat()
    );
}

#[test]
fn render_files_separated_by_blank_line() {
    let review = vec![
        changed("a.go", vec![added("A", "func A()")]),
        FileChange {
            path: "b.go".to_owned(),
            kind: FileChangeKind::Deleted,
        },
    ];
    assert_eq!(render(&review), "a.go\n  + func A()\n\nDELETED b.go\n");
}

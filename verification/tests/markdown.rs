//! The Markdown frontend.

use absolem::changes::{ChangeSet, FileChange, FileChangeKind, ItemStatus, ItemView};
use absolem::item::{Item, ItemId, Kind, Line};
use absolem::markdown::render_markdown;

fn item(name: &str, sig: &str) -> Item {
    Item {
        id: ItemId {
            path: "f.go".to_owned(),
            kind: Kind::Function,
            name: name.into(),
        },
        signature: sig.into(),
        line: Line(1),
        parent: None,
        refs: Vec::new(),
    }
}

fn leaf(status: ItemStatus, name: &str, sig: &str) -> ItemView {
    ItemView {
        status,
        item: item(name, sig),
        members: Vec::new(),
    }
}

fn changed(path: &str, blocks: Vec<ItemView>) -> FileChange {
    FileChange {
        path: path.to_owned(),
        kind: FileChangeKind::Changed(ChangeSet { blocks }),
    }
}

fn render(review: &[FileChange]) -> String {
    let mut out = String::new();
    render_markdown(&mut out, review);
    out
}

#[test]
fn empty_review_says_so() {
    assert_eq!(
        render(&[]),
        "### absolem — shape of the change\n\n_No structural changes — the API surface is untouched._\n"
    );
}

#[test]
fn leaf_changes_render_as_diff_lines() {
    let review = vec![changed(
        "a.go",
        vec![
            leaf(ItemStatus::Added, "A", "func A()"),
            leaf(
                ItemStatus::Modified {
                    before: item("B", "func B()"),
                },
                "B",
                "func B(x int)",
            ),
            leaf(ItemStatus::Removed, "C", "func C()"),
        ],
    )];
    assert_eq!(
        render(&review),
        [
            "### absolem — shape of the change\n",
            "\n",
            "**`a.go`**\n",
            "\n",
            "```diff\n",
            "+ func A()\n",
            "- func B()\n",
            "+ func B(x int)\n",
            "- func C()\n",
            "```\n",
        ].concat()
    );
}

#[test]
fn composite_renders_with_context_rows() {
    let block = ItemView {
        status: ItemStatus::Unchanged,
        item: item("Kind", "pub enum Kind"),
        members: vec![
            leaf(ItemStatus::Unchanged, "Kind::Function", "Kind::Function"),
            leaf(ItemStatus::Added, "Kind::Field", "Kind::Field"),
        ],
    };
    let review = vec![changed(
        "item.rs",
        vec![leaf(ItemStatus::Added, "f", "fn f()"), block],
    )];
    assert_eq!(
        render(&review),
        [
            "### absolem — shape of the change\n",
            "\n",
            "**`item.rs`**\n",
            "\n",
            "```diff\n",
            "+ fn f()\n",
            "\n",
            "  pub enum Kind\n",
            "    Kind::Function\n",
            "+   Kind::Field\n",
            "```\n",
        ].concat()
    );
}

#[test]
fn deleted_file_renders_without_a_fence() {
    let review = vec![
        changed("a.go", vec![leaf(ItemStatus::Added, "A", "func A()")]),
        FileChange {
            path: "gone.go".to_owned(),
            kind: FileChangeKind::Deleted,
        },
    ];
    assert_eq!(
        render(&review),
        [
            "### absolem — shape of the change\n",
            "\n",
            "**`a.go`**\n",
            "\n",
            "```diff\n",
            "+ func A()\n",
            "```\n",
            "\n",
            "**`gone.go`** — deleted\n",
        ].concat()
    );
}

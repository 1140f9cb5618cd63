//! Building a review from the files that changed.

use std::collections::HashMap;

use absolem::git::{ChangeStatus, ChangedFile, DiffMode, Entry, RefRange, Rev};
use absolem::item::Kind;
use absolem::producer::registry::Registry;
use absolem::range::{self, BaseRev, BaseStep, OutputMode, RangeStep};
use absolem::render;
use absolem::review::{
    base_path_of, build_index, build_review, head_path_of, keep_supported, HeadFile, SourceFile,
    Sources,
};

#[derive(Default)]
struct FakeGit {
    main_exists: bool,
    master_exists: bool,
    files: Vec<ChangedFile>,
    contents: HashMap<String, String>,
}

impl FakeGit {
    fn ref_exists(&self, ref_name: &str) -> bool {
        match ref_name {
            "origin/main" => self.main_exists,
            "origin/master" => self.master_exists,
            _ => false,
        }
    }

    fn read_at(&self, rev: &str, path: &str) -> String {
        self.contents[&format!("{rev}:{path}")].clone()
    }
}

fn resolve_base(git: &FakeGit) -> Option<String> {
    let mut answers: Vec<bool> = Vec::new();
    loop {
        match range::resolve_base(&answers) {
            BaseStep::Ask(name) => answers.push(git.ref_exists(&name)),
            BaseStep::Found(name) => return Some(name),
            BaseStep::Missing => return None,
        }
    }
}

fn resolve_range(git: &FakeGit, raw: Option<&str>) -> Option<RefRange> {
    let mut answers: Vec<bool> = Vec::new();
    loop {
        match range::resolve_range(raw, &answers) {
            RangeStep::Ask(name) => answers.push(git.ref_exists(&name)),
            RangeStep::Range(range) => return Some(range),
            RangeStep::Missing => return None,
        }
    }
}

fn sources(git: &FakeGit) -> Vec<SourceFile> {
    git.files
        .iter()
        .map(|file| {
            let path = file.path.as_str();
            let sources = match file.status {
                ChangeStatus::Deleted => Sources::Deleted,
                ChangeStatus::Added => Sources::Added {
                    head: git.read_at("HEAD", path),
                },
                ChangeStatus::Modified => Sources::Modified {
                    base: git.read_at("origin/main", path),
                    head: git.read_at("HEAD", path),
                },
            };
            SourceFile {
                path: path.to_owned(),
                sources,
            }
        })
        .collect()
}

fn render_all(git: &FakeGit) -> String {
    let mut registry = Registry::with_defaults().unwrap();
    let review = build_review(&mut registry, &sources(git)).unwrap();
    let mut out = String::new();
    render::render_review(&mut out, &review);
    out
}

fn sides(raw: &str) -> (Option<String>, Option<String>, DiffMode) {
    range::parse_range(raw)
}

fn some(s: &str) -> Option<String> {
    Some(s.to_owned())
}

#[test]
fn resolves_origin_main_when_present() {
    let git = FakeGit {
        main_exists: true,
        ..Default::default()
    };
    assert_eq!(resolve_base(&git).unwrap(), "origin/main");
}

#[test]
fn falls_back_to_origin_master() {
    let git = FakeGit {
        master_exists: true,
        ..Default::default()
    };
    assert_eq!(resolve_base(&git).unwrap(), "origin/master");
}

#[test]
fn errors_when_neither_base_exists() {
    let git = FakeGit::default();
    assert!(resolve_base(&git).is_none());
}

#[test]
fn parse_range_splits_two_and_three_dot() {
    assert_eq!(sides("a..b"), (some("a"), some("b"), DiffMode::Direct));
    assert_eq!(sides("a...b"), (some("a"), some("b"), DiffMode::MergeBase));
    assert_eq!(sides("main"), (some("main"), None, DiffMode::MergeBase));
    assert_eq!(sides("main.."), (some("main"), None, DiffMode::Direct));
    assert_eq!(
        sides("..feature"),
        (None, some("feature"), DiffMode::Direct)
    );
    assert_eq!(
        sides("...feature"),
        (None, some("feature"), DiffMode::MergeBase)
    );
}

#[test]
fn resolve_range_defaults_missing_sides() {
    let git = FakeGit {
        main_exists: true,
        ..Default::default()
    };
    assert_eq!(
        resolve_range(&git, None).unwrap(),
        RefRange {
            base: "origin/main".into(),
            head: Rev::Ref("HEAD".into()),
            mode: DiffMode::MergeBase,
        }
    );
    assert_eq!(
        resolve_range(&git, Some("v1.0..v2.0")).unwrap(),
        RefRange {
            base: "v1.0".into(),
            head: Rev::Ref("v2.0".into()),
            mode: DiffMode::Direct,
        }
    );
    assert_eq!(
        resolve_range(&git, Some("release")).unwrap(),
        RefRange {
            base: "release".into(),
            head: Rev::Ref("HEAD".into()),
            mode: DiffMode::MergeBase,
        }
    );
    // An empty base side falls back to the resolved default base.
    assert_eq!(
        resolve_range(&git, Some("...feature")).unwrap(),
        RefRange {
            base: "origin/main".into(),
            head: Rev::Ref("feature".into()),
            mode: DiffMode::MergeBase,
        }
    );
}

#[test]
fn prefers_origin_main_over_master() {
    let git = FakeGit {
        main_exists: true,
        master_exists: true,
        ..Default::default()
    };
    assert_eq!(resolve_base(&git).unwrap(), "origin/main");
}

#[test]
fn added_file_renders_all_items_as_added() {
    let mut contents = HashMap::new();
    contents.insert("HEAD:new.go".into(), "package x\nfunc F() {}\n".into());
    let git = FakeGit {
        files: vec![ChangedFile {
            path: "new.go".to_owned(),
            status: ChangeStatus::Added,
        }],
        contents,
        ..Default::default()
    };
    assert_eq!(render_all(&git), "new.go\n  + func F()\n");
}

#[test]
fn deleted_file_prints_deleted_marker() {
    let git = FakeGit {
        files: vec![ChangedFile {
            path: "gone.go".to_owned(),
            status: ChangeStatus::Deleted,
        }],
        contents: HashMap::from([(
            "origin/main:gone.go".into(),
            "package x\nfunc F() {}\n".into(),
        )]),
        ..Default::default()
    };
    assert_eq!(render_all(&git), "DELETED gone.go\n");
}

#[test]
fn modified_file_emits_only_shape_changes() {
    let mut contents = HashMap::new();
    contents.insert(
        "origin/main:f.go".into(),
        "package x\nfunc F() {}\nfunc G() {}\n".into(),
    );
    contents.insert(
        "HEAD:f.go".into(),
        "package x\nfunc F(x int) {}\nfunc G() {}\nfunc H() {}\n".into(),
    );
    let git = FakeGit {
        files: vec![ChangedFile {
            path: "f.go".to_owned(),
            status: ChangeStatus::Modified,
        }],
        contents,
        ..Default::default()
    };
    assert_eq!(
        render_all(&git),
        "f.go\n  ~ func F(x int)\n      was: func F()\n  + func H()\n"
    );
}

#[test]
fn multiple_files_separated_by_blank_line() {
    let mut contents = HashMap::new();
    contents.insert("HEAD:a.go".into(), "package x\nfunc A() {}\n".into());
    contents.insert("HEAD:b.go".into(), "package x\nfunc B() {}\n".into());
    let git = FakeGit {
        files: vec![
            ChangedFile {
                path: "a.go".to_owned(),
                status: ChangeStatus::Added,
            },
            ChangedFile {
                path: "b.go".to_owned(),
                status: ChangeStatus::Added,
            },
        ],
        contents,
        ..Default::default()
    };
    assert_eq!(
        render_all(&git),
        "a.go\n  + func A()\n\nb.go\n  + func B()\n"
    );
}

#[test]
fn unchanged_file_does_not_emit_separator() {
    let mut contents = HashMap::new();
    contents.insert(
        "origin/main:unchanged.go".into(),
        "package x\nfunc F() int { return 1 }\n".into(),
    );
    contents.insert(
        "HEAD:unchanged.go".into(),
        "package x\nfunc F() int { return 2 }\n".into(),
    );
    contents.insert("HEAD:b.go".into(), "package x\nfunc B() {}\n".into());
    let git = FakeGit {
        files: vec![
            ChangedFile {
                path: "unchanged.go".to_owned(),
                status: ChangeStatus::Modified,
            },
            ChangedFile {
                path: "b.go".to_owned(),
                status: ChangeStatus::Added,
            },
        ],
        contents,
        ..Default::default()
    };
    assert_eq!(render_all(&git), "b.go\n  + func B()\n");
}

#[test]
fn a_body_only_change_leaves_the_review_empty() {
    let mut registry = Registry::with_defaults().unwrap();
    let files = vec![SourceFile {
        path: "f.go".to_owned(),
        sources: Sources::Modified {
            base: "package x\nfunc F() int { return 1 }\n".to_owned(),
            head: "package x\nfunc F() int { return 2 }\n".to_owned(),
        },
    }];
    assert!(build_review(&mut registry, &files).unwrap().is_empty());
}

#[test]
fn files_no_producer_claims_contribute_nothing() {
    let mut registry = Registry::with_defaults().unwrap();
    let files = vec![
        SourceFile {
            path: "notes.md".to_owned(),
            sources: Sources::Added {
                head: "# Notes\n".to_owned(),
            },
        },
        SourceFile {
            path: "setup.py".to_owned(),
            sources: Sources::Modified {
                base: "a = 1\n".to_owned(),
                head: "b = 2\n".to_owned(),
            },
        },
    ];
    assert!(build_review(&mut registry, &files).unwrap().is_empty());
}

fn entry(path: &str, status: ChangeStatus, from: Option<&str>) -> Entry {
    Entry {
        file: ChangedFile {
            path: path.to_owned(),
            status,
        },
        from: from.map(str::to_owned),
    }
}

#[test]
fn unsupported_files_are_dropped_deleted_ones_included() {
    let registry = Registry::with_defaults().unwrap();
    let kept = keep_supported(
        &registry,
        vec![
            entry("a.go", ChangeStatus::Added, None),
            entry("README.md", ChangeStatus::Deleted, None),
            entry("new.rs", ChangeStatus::Modified, Some("old.rs")),
        ],
    );
    assert_eq!(
        kept,
        vec![
            entry("a.go", ChangeStatus::Added, None),
            entry("new.rs", ChangeStatus::Modified, Some("old.rs")),
        ]
    );
}

#[test]
fn a_renamed_file_reads_its_base_under_the_old_path() {
    let renamed = entry("new.go", ChangeStatus::Modified, Some("old.go"));
    assert_eq!(base_path_of(&renamed), some("old.go"));
    assert_eq!(head_path_of(&renamed), some("new.go"));
    let modified = entry("f.go", ChangeStatus::Modified, None);
    assert_eq!(base_path_of(&modified), some("f.go"));
    let added = entry("f.go", ChangeStatus::Added, None);
    assert_eq!(base_path_of(&added), None);
    assert_eq!(head_path_of(&added), some("f.go"));
    let deleted = entry("f.go", ChangeStatus::Deleted, None);
    assert_eq!(base_path_of(&deleted), None);
    assert_eq!(head_path_of(&deleted), None);
}

#[test]
fn the_index_covers_every_supported_head_file() {
    let mut registry = Registry::with_defaults().unwrap();
    let files = vec![
        HeadFile {
            path: "client.go".to_owned(),
            source: "package p\ntype Client struct {\n    conn Conn\n}\n".to_owned(),
        },
        HeadFile {
            path: "README.md".to_owned(),
            source: "type Ghost struct {}\n".to_owned(),
        },
        HeadFile {
            path: "dial.go".to_owned(),
            source: "package p\nfunc Dial() *Client { return nil }\n".to_owned(),
        },
    ];
    let index = build_index(&mut registry, &files);
    let found = index.lookup("Client", "dial.go").unwrap();
    assert_eq!(found.def.item.id.kind, Kind::Struct);
    assert_eq!(found.def.members.len(), 1);
    let users: Vec<&str> = index
        .users_of("Client")
        .iter()
        .map(|view| view.item.id.name.as_str())
        .collect();
    assert_eq!(users, vec!["Dial"]);
    assert!(index.lookup("Ghost", "dial.go").is_none());
}

#[test]
fn the_base_is_the_first_candidate_that_exists() {
    assert_eq!(
        range::resolve_base(&[]),
        BaseStep::Ask("origin/main".to_owned())
    );
    assert_eq!(
        range::resolve_base(&[false]),
        BaseStep::Ask("origin/master".to_owned())
    );
    assert_eq!(
        range::resolve_base(&[false, false]),
        BaseStep::Ask("main".to_owned())
    );
    assert_eq!(
        range::resolve_base(&[false, false, true]),
        BaseStep::Found("main".to_owned())
    );
    assert_eq!(
        range::resolve_base(&[false, false, false]),
        BaseStep::Ask("master".to_owned())
    );
    assert_eq!(
        range::resolve_base(&[false, false, false, true]),
        BaseStep::Found("master".to_owned())
    );
    assert_eq!(
        range::resolve_base(&[false, false, false, false]),
        BaseStep::Missing
    );
}

#[test]
fn a_range_with_a_base_asks_nothing() {
    assert_eq!(
        range::resolve_range(Some("main"), &[]),
        RangeStep::Range(RefRange {
            base: "main".into(),
            head: Rev::Ref("HEAD".into()),
            mode: DiffMode::MergeBase,
        })
    );
    assert_eq!(
        range::resolve_range(None, &[]),
        RangeStep::Ask("origin/main".to_owned())
    );
    assert_eq!(
        range::resolve_range(Some(".."), &[false, false, false, false]),
        RangeStep::Missing
    );
}

#[test]
fn written_ranges_read_back() {
    for mode in [DiffMode::MergeBase, DiffMode::Direct] {
        let range = RefRange {
            base: "release-1.2".into(),
            head: Rev::Ref("feature/x".into()),
            mode,
        };
        assert_eq!(
            sides(&range.to_git_range()),
            (some("release-1.2"), some("feature/x"), mode)
        );
    }
}

#[test]
fn base_content_is_read_at_the_merge_base_of_three_dot_reviews() {
    let three = RefRange {
        base: "main".into(),
        head: Rev::Ref("feature".into()),
        mode: DiffMode::MergeBase,
    };
    assert_eq!(
        range::base_rev(&three),
        BaseRev::MergeBaseOf("main".into(), "feature".into())
    );
    assert_eq!(
        range::base_rev(&three.clone().with_head(Rev::WorkingTree)),
        BaseRev::MergeBaseOf("main".into(), "HEAD".into())
    );
    let two = RefRange {
        base: "main".into(),
        head: Rev::Ref("feature".into()),
        mode: DiffMode::Direct,
    };
    assert_eq!(range::base_rev(&two), BaseRev::At("main".into()));
}

#[test]
fn the_interactive_view_needs_a_terminal_and_no_flag() {
    assert_eq!(
        range::output_mode(false, false, false, true),
        OutputMode::Interactive
    );
    assert_eq!(
        range::output_mode(false, false, false, false),
        OutputMode::Plain
    );
    assert_eq!(
        range::output_mode(false, false, true, true),
        OutputMode::Plain
    );
    assert_eq!(
        range::output_mode(true, false, false, true),
        OutputMode::Json
    );
    assert_eq!(
        range::output_mode(false, true, false, true),
        OutputMode::Markdown
    );
}

//! Whole reviews, from the arguments to the output: the questions absolem asks
//! are answered by a repository that lives in memory and speaks git's grammar.

use std::collections::BTreeMap;

use absolem::git::{changed_files, GitOutput, GitQuery, RealGit, RefRange, Rev};
use absolem::json::render_json;
use absolem::markdown::render_markdown;
use absolem::producer::registry::Registry;
use absolem::range::{base_rev, output_mode, resolve_range, BaseRev, OutputMode, RangeStep};
use absolem::render::render_review;
use absolem::review::{
    base_path_of, build_review, head_path_of, keep_supported, SourceFile, Sources,
};

type Files = BTreeMap<String, String>;

/// A repository with a `main` and a `feature` branch, the commit where they
/// parted, and a working tree on the branch that is checked out.
struct Repo {
    branches: Vec<(&'static str, Files)>,
    fork: Files,
    head: &'static str,
    worktree: Files,
    /// Old and new paths that git tells are renames.
    renames: Vec<(&'static str, &'static str)>,
}

fn tree(files: &[(&str, &str)]) -> Files {
    files
        .iter()
        .map(|(path, content)| (path.to_string(), content.to_string()))
        .collect()
}

impl Repo {
    /// One commit on `main`, nothing else.
    fn on_main(files: &[(&str, &str)]) -> Self {
        Repo {
            branches: vec![("main", tree(files))],
            fork: tree(files),
            head: "main",
            worktree: tree(files),
            renames: Vec::new(),
        }
    }

    /// A `feature` branch, checked out, with one commit on top of `main`.
    fn with_feature(base: &[(&str, &str)], feature: &[(&str, &str)]) -> Self {
        Repo {
            branches: vec![("main", tree(base)), ("feature", tree(feature))],
            fork: tree(base),
            head: "feature",
            worktree: tree(feature),
            renames: Vec::new(),
        }
    }

    fn tree_at(&self, rev: &str) -> Option<&Files> {
        if rev == "fork-point" {
            return Some(&self.fork);
        }
        let name = if rev == "HEAD" { self.head } else { rev };
        self.branches
            .iter()
            .find(|(branch, _)| *branch == name)
            .map(|(_, tree)| tree)
    }

    fn merge_base(&self, a: &str, b: &str) -> &Files {
        let (a, b) = (self.tree_at(a).unwrap(), self.tree_at(b).unwrap());
        if a == b {
            a
        } else {
            &self.fork
        }
    }

    fn name_status(&self, old: &Files, new: &Files) -> String {
        let mut out = String::new();
        for (path, content) in new {
            let renamed = self.renames.iter().find(|(_, to)| to == path);
            match (old.get(path), renamed) {
                (Some(before), _) if before == content => {}
                (Some(_), _) => out.push_str(&format!("M\0{path}\0")),
                (None, Some((from, to))) => out.push_str(&format!("R080\0{from}\0{to}\0")),
                (None, None) => out.push_str(&format!("A\0{path}\0")),
            }
        }
        for path in old.keys() {
            let renamed = self.renames.iter().any(|(from, _)| from == path);
            if !new.contains_key(path) && !renamed {
                out.push_str(&format!("D\0{path}\0"));
            }
        }
        out
    }

    /// What git writes for some arguments, or `None` where it fails.
    fn answer(&self, args: &[&str]) -> Option<String> {
        match args {
            ["rev-parse", "--show-toplevel"] => Some("/repo\n".to_owned()),
            ["rev-parse", "--verify", "--quiet", name] => {
                self.tree_at(name).map(|_| "c0ffee\n".to_owned())
            }
            ["diff", "--name-status", "-z", "--merge-base", base] => {
                let known = self.known_worktree();
                Some(self.name_status(self.merge_base(base, "HEAD"), &known))
            }
            ["diff", "--name-status", "-z", range] => {
                if let Some((base, head)) = range.split_once("...") {
                    let old = self.merge_base(base, head);
                    Some(self.name_status(old, self.tree_at(head)?))
                } else if let Some((base, head)) = range.split_once("..") {
                    Some(self.name_status(self.tree_at(base)?, self.tree_at(head)?))
                } else {
                    Some(self.name_status(self.tree_at(range)?, &self.known_worktree()))
                }
            }
            ["ls-files", "--others", "--exclude-standard", "-z"] => {
                let known = self.tree_at("HEAD")?;
                Some(
                    self.worktree
                        .keys()
                        .filter(|path| !known.contains_key(*path))
                        .map(|path| format!("{path}\0"))
                        .collect(),
                )
            }
            ["merge-base", _, _] => Some("fork-point\n".to_owned()),
            ["show", at] => {
                let (rev, path) = at.split_once(':')?;
                self.tree_at(rev)?.get(path).cloned()
            }
            _ => None,
        }
    }

    fn known_worktree(&self) -> Files {
        let known = self.tree_at("HEAD").unwrap();
        self.worktree
            .iter()
            .filter(|(path, _)| known.contains_key(*path))
            .map(|(path, content)| (path.clone(), content.clone()))
            .collect()
    }

    fn run(&self, query: GitQuery<'_>) -> GitOutput {
        let args = query.args();
        let args: Vec<&str> = args.iter().map(String::as_str).collect();
        match self.answer(&args) {
            Some(out) => GitOutput {
                success: true,
                code: Some(0),
                stdout: out.into_bytes(),
                stderr: Vec::new(),
            },
            None => GitOutput {
                success: false,
                code: Some(1),
                stdout: Vec::new(),
                stderr: b"fatal".to_vec(),
            },
        }
    }

    fn range(&self, raw: Option<&str>, worktree: bool) -> RefRange {
        let mut answers: Vec<bool> = Vec::new();
        loop {
            match resolve_range(raw, &answers) {
                RangeStep::Ask(name) => {
                    answers.push(self.run(GitQuery::RefExists(&name)).success)
                }
                RangeStep::Range(range) if worktree => return range.with_head(Rev::WorkingTree),
                RangeStep::Range(range) => return range,
                RangeStep::Missing => panic!("no base"),
            }
        }
    }

    /// Runs absolem with `args` in `subdir`, with a piped stdout.
    fn absolem_in(&self, subdir: &str, args: &[&str]) -> String {
        let here = RealGit::new(subdir);
        let git = RealGit::new(&here.toplevel(self.run(GitQuery::Toplevel)).unwrap());
        assert_eq!(git.repo_dir, "/repo");

        let raw = args.iter().copied().find(|arg| !arg.starts_with('-'));
        let range = self.range(raw, args.contains(&"--worktree"));
        let base = match base_rev(&range) {
            BaseRev::At(name) => name,
            BaseRev::MergeBaseOf(a, b) => {
                let out = git.run_checked(self.run(GitQuery::MergeBase(&a, &b)));
                out.unwrap().trim().to_owned()
            }
        };
        let diff = git.run_checked(self.run(GitQuery::Diff(&range))).unwrap();
        let untracked = match range.head {
            Rev::Ref(_) => None,
            Rev::WorkingTree => {
                Some(git.run_checked(self.run(GitQuery::Untracked)).unwrap())
            }
        };
        let mut registry = Registry::with_defaults().unwrap();
        let entries = changed_files(&diff, untracked.as_deref()).unwrap();
        let entries = keep_supported(&registry, entries);
        let files: Vec<SourceFile> = entries
            .iter()
            .map(|entry| {
                let base = base_path_of(entry)
                    .map(|path| git.run_checked(self.run(GitQuery::Show(&base, &path))).unwrap());
                let head = head_path_of(entry).map(|path| match &range.head {
                    Rev::Ref(name) => {
                        git.run_checked(self.run(GitQuery::Show(name, &path))).unwrap()
                    }
                    Rev::WorkingTree => self.worktree[&path].clone(),
                });
                SourceFile {
                    path: entry.file.path.clone(),
                    sources: match (base, head) {
                        (_, None) => Sources::Deleted,
                        (None, Some(head)) => Sources::Added { head },
                        (Some(base), Some(head)) => Sources::Modified { base, head },
                    },
                }
            })
            .collect();
        let review = build_review(&mut registry, &files).unwrap();
        let mut out = String::new();
        let mode = output_mode(
            args.contains(&"--json"),
            args.contains(&"--markdown"),
            args.contains(&"--plain"),
            false,
        );
        match mode {
            OutputMode::Json => render_json(&mut out, &review),
            OutputMode::Markdown => render_markdown(&mut out, &review),
            OutputMode::Plain => render_review(&mut out, &review),
            OutputMode::Interactive => panic!("a piped stdout is no terminal"),
        }
        out
    }

    fn absolem(&self, args: &[&str]) -> String {
        self.absolem_in("/repo", args)
    }
}

/// A repo whose feature branch adds `B` to a Go file, while main moved
/// on and added `C` to the same file after the branch point — the
/// setup that distinguishes merge-base from tip-to-tip comparison.
fn diverged_repo() -> Repo {
    let mut repo = Repo::with_feature(
        &[("f.go", "package p\n\nfunc A() {}\n")],
        &[("f.go", "package p\n\nfunc A() {}\n\nfunc B() {}\n")],
    );
    repo.branches[0].1 = tree(&[("f.go", "package p\n\nfunc A() {}\n\nfunc C() {}\n")]);
    repo
}

#[test]
fn three_dot_reads_base_at_the_merge_base() {
    let repo = diverged_repo();
    // Merge-base semantics: only the branch's own change appears; the
    // C that landed on main after the branch point is not attributed.
    let out = repo.absolem(&["main", "--plain"]);
    assert_eq!(out, "f.go\n  + func B()\n");
}

#[test]
fn two_dot_diffs_the_tips_directly() {
    let repo = diverged_repo();
    let out = repo.absolem(&["main..", "--plain"]);
    assert_eq!(out, "f.go\n  + func B()\n  - func C()\n");
}

#[test]
fn worktree_review_sees_dirty_and_untracked_files() {
    let mut repo = Repo::on_main(&[("f.go", "package p\n\nfunc A() {}\n")]);
    // A dirty edit and a brand-new untracked file, neither committed.
    repo.worktree = tree(&[
        ("f.go", "package p\n\nfunc A(x int) {}\n"),
        ("new.go", "package p\n\nfunc New() {}\n"),
    ]);
    let out = repo.absolem(&["main", "--worktree", "--plain"]);
    assert_eq!(
        out,
        "f.go\n  ~ func A(x int)\n      was: func A()\n\nnew.go\n  + func New()\n"
    );
}

#[test]
fn rename_with_a_signature_change_reviews_under_the_new_path() {
    let mut repo = Repo::with_feature(
        &[(
            "old.go",
            "package p\n\nfunc A() {}\nfunc Pad1() {}\nfunc Pad2() {}\n",
        )],
        &[(
            "new.go",
            "package p\n\nfunc A(x int) {}\nfunc Pad1() {}\nfunc Pad2() {}\n",
        )],
    );
    // Rename plus a small change: git reports an R entry, and the
    // review shows the tweak — not a wall of adds and removes, and no
    // phantom deletion of the old path.
    repo.renames = vec![("old.go", "new.go")];
    let out = repo.absolem(&["main", "--plain"]);
    assert_eq!(out, "new.go\n  ~ func A(x int)\n      was: func A()\n");
}

#[test]
fn runs_identically_from_a_subdirectory() {
    let repo = Repo::with_feature(
        &[
            ("src/lib.rs", "pub fn a() {}\n"),
            ("src/nested/deep.rs", "pub fn d() {}\n"),
        ],
        &[
            ("src/lib.rs", "pub fn a(x: u8) {}\n"),
            ("src/nested/deep.rs", "pub fn d() {}\n"),
        ],
    );
    let from_root = repo.absolem(&["main", "--plain"]);
    let from_subdir = repo.absolem_in("/repo/src/nested", &["main", "--plain"]);
    assert_eq!(from_root, from_subdir);
    assert_eq!(
        from_root,
        "src/lib.rs\n  ~ pub fn a(x: u8)\n      was: pub fn a()\n"
    );
}

#[test]
fn defaults_to_local_main_when_there_is_no_remote() {
    let repo = Repo::with_feature(
        &[("f.go", "package p\n\nfunc A() {}\n")],
        &[("f.go", "package p\n\nfunc A() {}\n\nfunc B() {}\n")],
    );
    // No range argument and no origin: the base falls back to local main.
    let out = repo.absolem(&["--plain"]);
    assert_eq!(out, "f.go\n  + func B()\n");
}

#[test]
fn body_only_changes_report_an_untouched_surface() {
    let repo = Repo::with_feature(
        &[("f.go", "package p\n\nfunc A() int { return 1 }\n")],
        &[("f.go", "package p\n\nfunc A() int { return 2 }\n")],
    );
    let out = repo.absolem(&["main", "--plain"]);
    assert_eq!(
        out,
        "No structural changes — the API surface is untouched.\n"
    );
}

#[test]
fn plain_is_the_default_when_stdout_is_piped() {
    let repo = Repo::with_feature(
        &[("f.go", "package p\n\nfunc A() {}\n")],
        &[("f.go", "package p\n\nfunc A() {}\n\nfunc B() {}\n")],
    );
    // No --plain: a piped stdout must never start the interactive view.
    let out = repo.absolem(&["main"]);
    assert_eq!(out, "f.go\n  + func B()\n");
}

#[test]
fn json_output_is_schema_v2_with_member_grouping() {
    let repo = Repo::with_feature(
        &[(
            "client.go",
            "package p\n\ntype Client struct {\n    timeout int\n}\n",
        )],
        &[(
            "client.go",
            "package p\n\ntype Client struct {\n    timeout int\n    retries int\n}\n",
        )],
    );
    let out = repo.absolem(&["main", "--json"]);
    let doc: serde_json::Value = serde_json::from_str(&out).unwrap();
    assert_eq!(doc["version"], 2);
    let file = &doc["files"][0];
    assert_eq!(file["path"], "client.go");
    let block = &file["items"][0];
    // The unchanged struct header carries its members: the untouched
    // field as context, the new one as added.
    assert_eq!(block["status"], "unchanged");
    assert_eq!(block["kind"], "struct");
    assert_eq!(block["members"][0]["status"], "unchanged");
    assert_eq!(block["members"][1]["status"], "added");
    assert_eq!(block["members"][1]["name"], "Client.retries");
}

#[test]
fn worktree_reviews_compare_with_the_merge_base() {
    let mut repo = diverged_repo();
    repo.worktree = tree(&[("f.go", "package p\n\nfunc A() {}\n\nfunc D() {}\n")]);
    // Main's C is not missing from the branch, and the committed B is gone
    // from the working tree.
    let out = repo.absolem(&["main", "--worktree", "--plain"]);
    assert_eq!(out, "f.go\n  + func D()\n");
    let out = repo.absolem(&["main..", "--worktree", "--plain"]);
    assert_eq!(out, "f.go\n  + func D()\n  - func C()\n");
}

#[test]
fn deleted_and_unsupported_files_end_to_end() {
    let repo = Repo::with_feature(
        &[
            ("gone.go", "package p\n\nfunc A() {}\n"),
            ("notes.md", "# Notes\n"),
        ],
        &[("more.md", "# More\n")],
    );
    assert_eq!(repo.absolem(&["main", "--plain"]), "DELETED gone.go\n");
    assert_eq!(
        repo.absolem(&["main", "--markdown"]),
        "### absolem — shape of the change\n\n**`gone.go`** — deleted\n"
    );
}

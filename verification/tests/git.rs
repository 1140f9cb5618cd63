//! What absolem asks of git, and how it reads the answers.

use absolem::git::{
    changed_files, parse_entries, parse_listing, parse_name_status, pr_refspec, ChangeStatus,
    ChangedFile, DiffMode, Entry, GitError, GitOutput, GitQuery, RealGit, RefRange, Rev,
};

#[test]
fn parses_added_modified_deleted() {
    let input = "M\0foo.go\0A\0bar.go\0D\0baz.go\0";
    let files = parse_name_status(input).unwrap();
    assert_eq!(
        files,
        vec![
            ChangedFile {
                path: "foo.go".into(),
                status: ChangeStatus::Modified
            },
            ChangedFile {
                path: "bar.go".into(),
                status: ChangeStatus::Added
            },
            ChangedFile {
                path: "baz.go".into(),
                status: ChangeStatus::Deleted
            },
        ]
    );
}

#[test]
fn parses_rename_keeps_new_path_as_modified() {
    let input = "R100\0old.go\0new.go\0M\0other.go\0";
    let files = parse_name_status(input).unwrap();
    assert_eq!(
        files,
        vec![
            ChangedFile {
                path: "new.go".into(),
                status: ChangeStatus::Modified
            },
            ChangedFile {
                path: "other.go".into(),
                status: ChangeStatus::Modified
            },
        ]
    );
}

#[test]
fn empty_input_yields_empty_list() {
    assert!(parse_name_status("").unwrap().is_empty());
}

#[test]
fn ref_range_formats_dot_count_from_semantics() {
    let three = RefRange {
        base: "main".into(),
        head: Rev::Ref("HEAD".into()),
        mode: DiffMode::MergeBase,
    };
    assert_eq!(three.to_git_range(), "main...HEAD");
    let two = RefRange {
        base: "v1".into(),
        head: Rev::Ref("v2".into()),
        mode: DiffMode::Direct,
    };
    assert_eq!(two.to_git_range(), "v1..v2");
}

#[test]
fn pr_refspec_follows_the_forge() {
    assert_eq!(
        pr_refspec("https://github.com/acme/widgets.git", 7),
        "refs/pull/7/head"
    );
    assert_eq!(
        pr_refspec("git@gitlab.com:acme/widgets.git", 7),
        "refs/merge-requests/7/head"
    );
    assert_eq!(
        pr_refspec("https://gitlab.example.com/acme/widgets.git", 12),
        "refs/merge-requests/12/head"
    );
}

#[test]
fn ref_range_uses_git_worktree_grammar() {
    let merge_base = RefRange {
        base: "main".into(),
        head: Rev::WorkingTree,
        mode: DiffMode::MergeBase,
    };
    assert_eq!(merge_base.to_git_range(), "main...");
    let direct = RefRange {
        base: "main".into(),
        head: Rev::WorkingTree,
        mode: DiffMode::Direct,
    };
    assert_eq!(direct.to_git_range(), "main");
}

fn output(success: bool, code: Option<i32>, stdout: &[u8], stderr: &[u8]) -> GitOutput {
    GitOutput {
        success,
        code,
        stdout: stdout.to_vec(),
        stderr: stderr.to_vec(),
    }
}

fn entry(path: &str, status: ChangeStatus, from: Option<&str>) -> Entry {
    Entry {
        file: ChangedFile {
            path: path.to_owned(),
            status,
        },
        from: from.map(str::to_owned),
    }
}

fn args(query: GitQuery<'_>) -> Vec<String> {
    query.args()
}

#[test]
fn entries_remember_where_a_file_came_from() {
    assert_eq!(
        parse_entries("R087\0old.go\0new.go\0C100\0a.go\0b.go\0T\0link.go\0").unwrap(),
        vec![
            entry("new.go", ChangeStatus::Modified, Some("old.go")),
            entry("b.go", ChangeStatus::Modified, Some("a.go")),
            entry("link.go", ChangeStatus::Modified, None),
        ]
    );
}

#[test]
fn other_statuses_are_skipped_with_their_path() {
    assert_eq!(
        parse_entries("U\0conflict.go\0X\0unknown.go\0A\0new.go\0").unwrap(),
        vec![entry("new.go", ChangeStatus::Added, None)]
    );
    assert!(parse_entries("U\0").unwrap().is_empty());
}

#[test]
fn a_status_without_a_path_is_an_error() {
    assert_eq!(
        parse_name_status("M\0foo.go\0A\0"),
        Err(GitError::UnexpectedOutput(
            "missing path after status \"A\"".to_owned()
        ))
    );
    assert_eq!(
        parse_name_status("R100\0old.go\0"),
        Err(GitError::UnexpectedOutput(
            "missing path after status \"R100\"".to_owned()
        ))
    );
    assert_eq!(
        parse_entries("D\"\0"),
        Err(GitError::UnexpectedOutput(
            "missing path after status \"D\\\"\"".to_owned()
        ))
    );
}

#[test]
fn paths_keep_spaces_and_newlines() {
    assert_eq!(
        parse_entries("A\0a dir/new\nline.go\0").unwrap(),
        vec![entry("a dir/new\nline.go", ChangeStatus::Added, None)]
    );
    assert_eq!(
        parse_listing("a b.go\0\0c.rs\0"),
        vec!["a b.go".to_owned(), "c.rs".to_owned()]
    );
}

#[test]
fn untracked_files_follow_the_diff_as_added() {
    assert_eq!(
        changed_files("M\0f.go\0", Some("new.go\0other.rs\0")).unwrap(),
        vec![
            entry("f.go", ChangeStatus::Modified, None),
            entry("new.go", ChangeStatus::Added, None),
            entry("other.rs", ChangeStatus::Added, None),
        ]
    );
    assert_eq!(
        changed_files("M\0f.go\0", None).unwrap(),
        vec![entry("f.go", ChangeStatus::Modified, None)]
    );
    assert!(changed_files("M\0", Some("new.go\0")).is_err());
}

#[test]
fn queries_speak_git() {
    let range = RefRange {
        base: "main".into(),
        head: Rev::Ref("feature".into()),
        mode: DiffMode::MergeBase,
    };
    assert_eq!(
        args(GitQuery::Diff(&range)),
        ["diff", "--name-status", "-z", "main...feature"]
    );
    let dirty = range.clone().with_head(Rev::WorkingTree);
    assert_eq!(
        args(GitQuery::Diff(&dirty)),
        ["diff", "--name-status", "-z", "--merge-base", "main"]
    );
    let direct = RefRange {
        mode: DiffMode::Direct,
        ..dirty
    };
    assert_eq!(
        args(GitQuery::Diff(&direct)),
        ["diff", "--name-status", "-z", "main"]
    );
    assert_eq!(args(GitQuery::Toplevel), ["rev-parse", "--show-toplevel"]);
    assert_eq!(
        args(GitQuery::RefExists("origin/main")),
        ["rev-parse", "--verify", "--quiet", "origin/main"]
    );
    assert_eq!(
        args(GitQuery::Untracked),
        ["ls-files", "--others", "--exclude-standard", "-z"]
    );
    assert_eq!(
        args(GitQuery::MergeBase("main", "HEAD")),
        ["merge-base", "main", "HEAD"]
    );
    assert_eq!(
        args(GitQuery::Show("v1", "src/lib.rs")),
        ["show", "v1:src/lib.rs"]
    );
    assert_eq!(
        args(GitQuery::ListTree("HEAD")),
        ["ls-tree", "-r", "--name-only", "-z", "HEAD"]
    );
    assert_eq!(
        args(GitQuery::ListWorktree),
        ["ls-files", "--cached", "--others", "--exclude-standard", "-z"]
    );
    assert_eq!(
        args(GitQuery::OriginUrl),
        ["remote", "get-url", "origin"]
    );
    assert_eq!(
        args(GitQuery::Fetch("refs/pull/7/head")),
        ["fetch", "origin", "refs/pull/7/head"]
    );
}

#[test]
fn output_is_read_unless_git_failed() {
    let git = RealGit::new("/work");
    assert_eq!(
        git.run_checked(output(true, Some(0), "é\n".as_bytes(), b"warning")),
        Ok("é\n".to_owned())
    );
    assert_eq!(
        git.run_checked(output(false, Some(128), b"", b"fatal: bad\xff")),
        Err(GitError::GitFailed {
            status: 128,
            stderr: "fatal: bad\u{fffd}".to_owned(),
        })
    );
    assert_eq!(
        git.run_checked(output(false, None, b"", b"")),
        Err(GitError::GitFailed {
            status: -1,
            stderr: String::new(),
        })
    );
    // What is not UTF-8 is replaced, not refused.
    assert_eq!(
        git.run_checked(output(true, Some(0), b"a\x80b", b"")),
        Ok("a\u{fffd}b".to_owned())
    );
}

#[test]
fn the_toplevel_is_trimmed() {
    let git = RealGit::new("/work/sub");
    assert_eq!(
        git.toplevel(output(true, Some(0), b" /work\n", b"")),
        Ok("/work".to_owned())
    );
    assert!(git.toplevel(output(false, Some(128), b"", b"fatal")).is_err());
}

#[test]
fn errors_read_as_sentences() {
    assert_eq!(
        GitError::Spawn("No such file".to_owned()).message(),
        "failed to spawn git: No such file"
    );
    assert_eq!(
        GitError::GitFailed {
            status: -1,
            stderr: "killed".to_owned(),
        }
        .message(),
        "git exited with status -1: killed"
    );
    assert_eq!(
        GitError::GitFailed {
            status: i32::MIN,
            stderr: String::new(),
        }
        .message(),
        "git exited with status -2147483648: "
    );
    assert_eq!(
        GitError::UnexpectedOutput("what".to_owned()).message(),
        "unexpected git output: what"
    );
    assert_eq!(
        GitError::WorktreeRead {
            path: "a.go".to_owned(),
            reason: "denied".to_owned(),
        }
        .message(),
        "failed to read a.go from the working tree: denied"
    );
    assert_eq!(Rev::WorkingTree.name(), "worktree");
    assert_eq!(Rev::Ref("v1".into()).name(), "v1");
}

#[test]
fn listings_read_back() {
    let paths = ["a.go", "dir/b c.rs", "ü.go"];
    let written: String = paths.iter().map(|path| format!("A\0{path}\0")).collect();
    let entries = parse_entries(&written).unwrap();
    let read: Vec<&str> = entries.iter().map(|e| e.file.path.as_str()).collect();
    assert_eq!(read, paths);
}

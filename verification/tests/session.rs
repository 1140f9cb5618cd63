//! Sessions: what keys do and what frames show.

use absolem::changes::{ChangeSet, FileChange, FileChangeKind, ItemStatus, ItemView};
use absolem::index::TypeIndex;
use absolem::item::{Item, ItemId, Kind, Line, TypeRef};
use absolem::surface::Surface;
use absolem::tui::editor::editor_command;
use absolem::tui::input::{InputState, KeyCode, Motion};
use absolem::tui::pane::{App, ViewSpot};
use absolem::tui::rows::JumpTarget;
use absolem::tui::session::{Action, Mode, Session};
use absolem::tui::style::{line_text, Color};

const HELP: &str =
    " j/k move · {/} files · / search · n/N matches · ⇥ expand · gr references · ↵ edit · q quit ";

fn item(name: &str, sig: &str, line: u32) -> Item {
    Item {
        id: ItemId {
            path: "f.go".to_owned(),
            kind: Kind::Function,
            name: name.to_owned(),
        },
        signature: sig.to_owned(),
        line: Line(line),
        parent: None,
        refs: Vec::new(),
    }
}

fn leaf(status: ItemStatus, item: Item) -> ItemView {
    ItemView {
        status,
        item,
        members: Vec::new(),
    }
}

fn review() -> Vec<FileChange> {
    vec![
        FileChange {
            path: "a.go".to_owned(),
            kind: FileChangeKind::Changed(ChangeSet {
                blocks: vec![
                    leaf(ItemStatus::Added, item("Alpha", "func Alpha()", 7)),
                    leaf(ItemStatus::Removed, item("Beta", "func Beta()", 9)),
                ],
            }),
        },
        FileChange {
            path: "gone.go".to_owned(),
            kind: FileChangeKind::Deleted,
        },
    ]
}

fn session() -> Session {
    Session::new(App::new(&review(), TypeIndex::default()))
}

fn press(session: &mut Session, keys: &str) {
    for c in keys.chars() {
        assert_eq!(session.on_key(KeyCode::Char(c), false), Action::Continue);
    }
}

#[test]
fn a_frame_shows_title_help_position_and_lines() {
    let mut session = session();
    let screen = session.frame(10);
    assert_eq!(screen.title, " absolem · 2 files · +1 ~0 -1 ");
    assert_eq!(screen.footer, HELP);
    assert_eq!(screen.position, " 1/4 ");
    assert_eq!(screen.scroll, 0);
    let texts: Vec<String> = screen.lines.iter().map(line_text).collect();
    assert_eq!(
        texts,
        [
            "a.go",
            "  + func Alpha()",
            "  - func Beta()",
            "",
            "DELETED gone.go"
        ]
    );
    assert!(screen.lines[0].style.reversed);
    assert!(screen.lines[1..].iter().all(|line| !line.style.reversed));
    assert_eq!(session.app.viewport_height, 10);
}

#[test]
fn an_empty_review_has_no_position_and_no_cursor_row() {
    let mut session = Session::new(App::new(&[], TypeIndex::default()));
    let screen = session.frame(5);
    assert_eq!(screen.title, " absolem · 0 files · +0 ~0 -0 ");
    assert_eq!(screen.position, "");
    assert_eq!(screen.lines.len(), 1);
    assert!(screen.lines[0].style.dim && !screen.lines[0].style.reversed);
}

#[test]
fn searches_are_typed_and_committed() {
    let mut session = session();
    session.frame(10);
    press(&mut session, "/BETT");
    assert_eq!(session.mode, Mode::Search);
    assert_eq!(session.frame(10).footer, " /BETT ");
    session.on_key(KeyCode::Backspace, false);
    press(&mut session, "a");
    assert_eq!(session.app.cursor, 0);
    assert_eq!(session.on_key(KeyCode::Enter, false), Action::Continue);
    assert_eq!(session.mode, Mode::Normal);
    assert_eq!(session.app.matches, [2]);
    assert_eq!(session.app.cursor, 2);
    let screen = session.frame(10);
    assert_eq!(screen.position, " 3/4 ");
    assert!(screen.lines[2].style.underlined && screen.lines[2].style.reversed);
    assert!(!screen.lines[1].style.underlined);
}

#[test]
fn a_cancelled_search_leaves_the_pane_alone() {
    let mut session = session();
    session.frame(10);
    press(&mut session, "/beta");
    session.on_key(KeyCode::Esc, false);
    assert_eq!(session.mode, Mode::Normal);
    assert_eq!(session.query, "");
    assert_eq!(session.app.cursor, 0);
    assert!(session.app.matches.is_empty());
    // Keys that mean nothing in a search do nothing.
    press(&mut session, "/x");
    session.on_key(KeyCode::Down, false);
    assert_eq!(session.query, "x");
    // A `q` is part of the query, not a command.
    press(&mut session, "q");
    assert_eq!(session.query, "xq");
}

#[test]
fn quitting_and_opening_are_left_to_the_caller() {
    let mut session = session();
    session.frame(10);
    assert_eq!(
        session.on_key(KeyCode::Enter, false),
        Action::Open(JumpTarget {
            path: "a.go".to_owned(),
            line: Line(1),
        })
    );
    press(&mut session, "j");
    assert_eq!(
        session.on_key(KeyCode::Enter, false),
        Action::Open(JumpTarget {
            path: "f.go".to_owned(),
            line: Line(7),
        })
    );
    assert_eq!(session.on_key(KeyCode::Esc, false), Action::Quit);
    assert_eq!(session.on_key(KeyCode::Char('q'), false), Action::Quit);
    assert_eq!(session.on_key(KeyCode::Char('q'), true), Action::Continue);
    press(&mut session, "z");
    assert_eq!(session.on_key(KeyCode::Char('q'), false), Action::Continue);
}

#[test]
fn notices_are_shown_once() {
    let mut session = session();
    session.frame(10);
    press(&mut session, "jj");
    assert_eq!(session.on_key(KeyCode::Enter, false), Action::Continue);
    assert_eq!(
        session.frame(10).footer,
        " nothing to open here (removed items have no location) "
    );
    assert_eq!(session.frame(10).footer, HELP);
    session.on_key(KeyCode::Tab, false);
    assert_eq!(session.footer(), " nothing to expand here ");
    press(&mut session, "gr");
    assert_eq!(session.footer(), " nothing references this item ");
    session.editor_closed(Some("no tty".to_owned()));
    assert_eq!(session.footer(), " editor failed: no tty ");
    session.editor_closed(None);
    assert_eq!(session.footer(), HELP);
}

#[test]
fn motions_go_through_the_pane() {
    let mut session = session();
    session.frame(10);
    press(&mut session, "2j");
    assert_eq!(session.app.cursor, 2);
    press(&mut session, "gg");
    assert_eq!(session.app.cursor, 0);
    press(&mut session, "G");
    assert_eq!(session.app.cursor, 3);
    press(&mut session, "{");
    assert_eq!(session.app.cursor, 0);
    press(&mut session, "}");
    assert_eq!(session.app.cursor, 3);
    session.on_key(KeyCode::Char('u'), true);
    assert_eq!(session.app.cursor, 0);
}

#[test]
fn unfolding_twice_folds() {
    let mut client = item("Client", "type Client struct", 3);
    client.id.kind = Kind::Struct;
    let mut surface = Surface::new();
    surface.push(client);
    let mut connect = item("Connect", "func Connect() *Client", 5);
    connect.refs = vec![TypeRef("Client".to_owned())];
    let review = vec![FileChange {
        path: "a.go".to_owned(),
        kind: FileChangeKind::Changed(ChangeSet {
            blocks: vec![leaf(ItemStatus::Added, connect)],
        }),
    }];
    let mut session = Session::new(App::new(&review, TypeIndex::build(&[surface])));
    let folded = session.frame(10).lines;
    press(&mut session, "j");
    session.on_key(KeyCode::Tab, false);
    assert_eq!(session.app.cursor, 1);
    let unfolded = session.frame(10).lines;
    assert_eq!(line_text(&unfolded[2]), "      ▸ type Client struct  · f.go:3");
    assert_eq!(unfolded[2].style.fg, Some(Color::Cyan));
    session.on_key(KeyCode::Tab, false);
    press(&mut session, "k");
    assert_eq!(session.frame(10).lines, folded);
}

#[test]
fn competing_definitions_are_counted() {
    let definition = |path: &str| {
        let mut config = item("Config", "type Config struct", 2);
        config.id.kind = Kind::Struct;
        config.id.path = path.to_owned();
        let mut surface = Surface::new();
        surface.push(config);
        surface
    };
    let index = TypeIndex::build(&[definition("a/config.go"), definition("b/config.go")]);
    let mut load = item("Load", "func Load() Config", 5);
    load.refs = vec![TypeRef("Config".to_owned())];
    let review = vec![FileChange {
        path: "a.go".to_owned(),
        kind: FileChangeKind::Changed(ChangeSet {
            blocks: vec![leaf(ItemStatus::Added, load)],
        }),
    }];
    let mut app = App::new(&review, index);
    app.viewport_height = 10;
    app.cursor = 1;
    assert_eq!(app.toggle_expand(), None);
    assert_eq!(
        line_text(&app.lines[2]),
        "      ▸ type Config struct  · a/config.go:2 (1 of 2 definitions)"
    );
}

#[test]
fn the_editor_is_strictly_what_is_set() {
    let target = JumpTarget {
        path: "src/lib.rs".to_owned(),
        line: Line(42),
    };
    assert_eq!(
        editor_command(Some("code -w"), Some("vi"), &target).unwrap(),
        ["code", "-w", "+42", "src/lib.rs"]
    );
    assert_eq!(
        editor_command(None, Some("vi"), &target).unwrap(),
        ["vi", "+42", "src/lib.rs"]
    );
    assert_eq!(
        editor_command(Some("  "), Some("vi"), &target).unwrap(),
        ["vi", "+42", "src/lib.rs"]
    );
    assert_eq!(editor_command(None, None, &target), None);
    assert_eq!(editor_command(Some(""), Some(" "), &target), None);
}

#[test]
fn counts_saturate_instead_of_overflowing() {
    let mut input = InputState::default();
    for _ in 0..30 {
        assert_eq!(input.feed(KeyCode::Char('9'), false), None);
    }
    assert_eq!(
        input.feed(KeyCode::Char('j'), false),
        Some(Motion::Down(usize::MAX))
    );
}

#[test]
fn prefixes_do_not_stack() {
    let mut input = InputState::default();
    assert_eq!(input.feed(KeyCode::Char('g'), false), None);
    assert_eq!(input.feed(KeyCode::Char('z'), false), None);
    assert!(!input.pending_g && input.pending_z);
    assert_eq!(input.feed(KeyCode::Char('t'), false), Some(Motion::ViewTop));
    // A lone `r` is no command.
    assert_eq!(input.feed(KeyCode::Char('r'), false), None);
    assert_eq!(input.feed(KeyCode::Other, false), None);
    assert_eq!(input.feed(KeyCode::Backspace, false), None);
    assert_eq!(input.feed(KeyCode::PageUp, false), Some(Motion::PageUp));
    assert_eq!(input.feed(KeyCode::PageDown, false), Some(Motion::PageDown));
    assert_eq!(input.feed(KeyCode::Up, false), Some(Motion::Up(1)));
    assert_eq!(input.feed(KeyCode::Down, false), Some(Motion::Down(1)));
}

fn tall(n: usize) -> App {
    let blocks = (0..n)
        .map(|i| {
            let name = format!("F{i}");
            leaf(ItemStatus::Added, item(&name, &format!("func {name}()"), 1))
        })
        .collect();
    let review = vec![FileChange {
        path: "a.go".to_owned(),
        kind: FileChangeKind::Changed(ChangeSet { blocks }),
    }];
    App::new(&review, TypeIndex::default())
}

#[test]
fn the_cursor_stays_in_view_and_the_view_within_the_lines() {
    let mut app = tall(40);
    app.viewport_height = 7;
    let motions = [
        Motion::Down(5),
        Motion::PageDown,
        Motion::HalfPageUp,
        Motion::Last(None),
        Motion::ViewTop,
        Motion::CursorHigh,
        Motion::Up(3),
        Motion::First(Some(20)),
        Motion::ViewCenter,
        Motion::CursorLow,
        Motion::PageUp,
        Motion::CursorMiddle,
        Motion::ViewBottom,
        Motion::HalfPageDown,
        Motion::First(None),
    ];
    for motion in motions {
        app.apply(motion);
        let line = app.cursor_line();
        assert!(app.scroll <= line && line < app.scroll + 7, "{motion:?}");
        assert!(app.scroll <= app.max_scroll(), "{motion:?}");
    }
    assert_eq!(app.max_scroll(), 34);
    assert_eq!((app.page(), app.half_page()), (7, 3));
}

#[test]
fn unfolds_and_edge_commands_leave_the_pane_to_the_session() {
    let mut app = tall(3);
    app.viewport_height = 2;
    app.cursor_down(2);
    let before = (app.cursor, app.scroll);
    for motion in [Motion::Expand, Motion::Usages, Motion::Open, Motion::Quit] {
        app.apply(motion);
        assert_eq!((app.cursor, app.scroll), before);
    }
}

#[test]
fn a_pane_without_height_shows_no_stops() {
    let mut app = tall(3);
    assert_eq!(app.visible_stops(), None);
    app.cursor_to_viewport(ViewSpot::Bottom);
    assert_eq!(app.cursor, 0);
    app.viewport_height = 2;
    assert_eq!(app.visible_stops(), Some((0, 1)));
    assert_eq!((app.page(), app.half_page()), (2, 1));
}

/// Two definitions that reference each other, and a review that shows one.
fn linked() -> App {
    let mut node = item("Node", "type Node struct", 1);
    node.id.kind = Kind::Struct;
    node.refs = vec![TypeRef("Edge".to_owned())];
    let mut edge = item("Edge", "type Edge struct", 2);
    edge.id.kind = Kind::Struct;
    edge.refs = vec![TypeRef("Node".to_owned())];
    let mut surface = Surface::new();
    surface.push(node.clone());
    surface.push(edge);
    let review = vec![FileChange {
        path: "a.go".to_owned(),
        kind: FileChangeKind::Changed(ChangeSet {
            blocks: vec![
                leaf(ItemStatus::Added, item("Zero", "func Zero()", 9)),
                leaf(ItemStatus::Added, node),
            ],
        }),
    }];
    let mut app = App::new(&review, TypeIndex::build(&[surface]));
    app.viewport_height = 20;
    app
}

#[test]
fn toggling_twice_restores_what_was_shown() {
    let mut app = linked();
    app.cursor_down(2);
    let lines = app.lines.clone();
    let stops = app.stops.clone();
    let (jumps, paths) = (app.jumps.clone(), app.paths.clone());
    for usages in [false, true] {
        for _ in 0..2 {
            let notice = if usages {
                app.toggle_usages()
            } else {
                app.toggle_expand()
            };
            assert_eq!(notice, None);
            assert_eq!(app.cursor, 2);
        }
        assert_eq!(app.lines, lines);
        assert_eq!(app.stops, stops);
        assert_eq!((&app.jumps, &app.paths), (&jumps, &paths));
    }
    app.cursor = 1;
    assert!(app.toggle_expand().is_some());
    assert!(app.toggle_usages().is_some());
    assert_eq!((app.cursor, &app.lines), (1, &lines));
}

#[test]
fn renderings_have_their_shape() {
    let mut unfolded = linked();
    unfolded.cursor_down(2);
    unfolded.toggle_expand();
    unfolded.toggle_usages();
    let shown = App::new(&review(), TypeIndex::default());
    for (app, files) in [(&unfolded, 1), (&shown, 2)] {
        assert!(app.stops.windows(2).all(|pair| pair[0] < pair[1]));
        assert!(app.stops.iter().all(|stop| usize::from(*stop) < app.lines.len()));
        assert_eq!(app.headers.len(), files);
        for (s, path) in app.paths.iter().enumerate() {
            assert_eq!(path.is_none(), app.headers.contains(&s));
        }
    }
    let empty = App::new(&[], TypeIndex::default());
    assert_eq!((empty.lines.len(), empty.stops.len()), (1, 0));
}

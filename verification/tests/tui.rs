//! The interactive pane: rows, cursor, keys, expansions, search.

use absolem::changes::{ChangeSet, FileChange, FileChangeKind, ItemStatus, ItemView};
use absolem::index::TypeIndex;
use absolem::item::{Item, ItemId, Kind, Line, TypeRef};
use absolem::render::render_review;
use absolem::surface::Surface;
use absolem::tui::input::{InputState, KeyCode, Motion};
use absolem::tui::pane::{App, ViewSpot};
use absolem::tui::rows::{JumpTarget, PathSet, RenderCtx};
use absolem::tui::style::{line_text, Color, StyledLine};
use absolem::tui::summary::summarize;
use absolem::tui::tokens::tokenize;
use absolem::tui::view::{render_lines, Rendered};

fn item(name: &str, sig: &str) -> Item {
    Item {
        id: ItemId {
            path: "f.go".to_owned(),
            kind: Kind::Function,
            name: name.into(),
        },
        signature: sig.into(),
        line: Line(1),
        parent: None,
        refs: Vec::new(),
    }
}

fn leaf(status: ItemStatus, item: Item) -> ItemView {
    ItemView {
        status,
        item,
        members: Vec::new(),
    }
}

fn added(item: Item) -> ItemView {
    leaf(ItemStatus::Added, item)
}

fn removed(item: Item) -> ItemView {
    leaf(ItemStatus::Removed, item)
}

fn modified(before: Item, after: Item) -> ItemView {
    leaf(ItemStatus::Modified { before }, after)
}

fn changed(path: &str, blocks: Vec<ItemView>) -> FileChange {
    FileChange {
        path: path.to_owned(),
        kind: FileChangeKind::Changed(ChangeSet { blocks }),
    }
}

fn text(line: &StyledLine) -> String {
    line_text(line)
}

/// `App` with an empty type index — expansion is exercised separately.
fn app(review: &[FileChange]) -> App {
    App::new(review, TypeIndex::default())
}

/// `render_lines` with no expansions and an empty index.
fn render(review: &[FileChange]) -> Rendered {
    let (expanded, usages_open) = (PathSet::new(), PathSet::new());
    let index = TypeIndex::default();
    render_lines(
        &review.to_vec(),
        &RenderCtx {
            expanded: &expanded,
            usages_open: &usages_open,
            index: &index,
        },
    )
}

/// Three added items in one file: 1 header + 3 change rows = 4 stops over
/// 4 lines. Used by the cursor/scroll tests.
fn three_items() -> App {
    app(&[changed(
        "a.go",
        vec![
            added(item("A", "func A()")),
            added(item("B", "func B()")),
            added(item("C", "func C()")),
        ],
    )])
}

/// One file with `n` added items: 1 header + n change rows = n+1 stops
/// over n+1 lines. Used by the viewport-positioning tests.
fn many_items(n: usize) -> App {
    let changes = (0..n)
        .map(|i| added(item(&format!("F{i}"), &format!("func F{i}()"))))
        .collect();
    app(&[changed("a.go", changes)])
}

#[test]
fn empty_review_shows_placeholder() {
    let rendered = render(&[]);
    assert_eq!(rendered.lines.len(), 1);
    assert_eq!(
        text(&rendered.lines[0]),
        "No structural changes — the API surface is untouched."
    );
    assert!(rendered.stops.is_empty());
}

#[test]
fn folded_lines_spell_the_plain_text() {
    let mut block = leaf(ItemStatus::Unchanged, item("T", "type T struct"));
    block.members = vec![
        modified(item("T.a", "T.a int"), item("T.a", "T.a uint8")),
        removed(item("T.b", "T.b int")),
    ];
    let deleted = FileChange {
        path: "gone.go".to_owned(),
        kind: FileChangeKind::Deleted,
    };
    let review = vec![
        changed("a.go", vec![added(item("A", "func A()")), block, removed(item("B", "func B()"))]),
        deleted,
        changed("c.go", vec![modified(item("C", "func C()"), item("C", "func C(x int)"))]),
    ];
    for shown in [&review[..], &review[..1], &[]] {
        let mut spelled = String::new();
        for line in &render(shown).lines {
            spelled.push_str(&text(line));
            spelled.push('\n');
        }
        let mut plain = String::new();
        render_review(&mut plain, shown);
        assert_eq!(spelled, plain);
    }
}

#[test]
fn changed_file_renders_header_then_prefixed_changes() {
    let rendered = render(&[changed(
        "a.go",
        vec![
            added(item("A", "func A()")),
            modified(item("B", "func B()"), item("B", "func B(x int)")),
        ],
    )]);
    let lines: Vec<String> = rendered.lines.iter().map(text).collect();
    assert_eq!(
        lines,
        vec![
            "a.go",
            "  + func A()",
            "  ~ func B(x int)",
            "      was: func B()",
        ]
    );
}

#[test]
fn stops_are_headers_and_change_rows_only() {
    let rendered = render(&[changed(
        "a.go",
        vec![modified(item("B", "func B()"), item("B", "func B(x int)"))],
    )]);
    // Lines: 0 header, 1 "~", 2 "was:". The continuation row is not a stop.
    assert_eq!(rendered.stops, vec![0, 1]);
}

#[test]
fn change_lines_are_colored_by_kind() {
    let rendered = render(&[changed(
        "a.go",
        vec![added(item("A", "func A()")), removed(item("C", "func C()"))],
    )]);
    assert_eq!(rendered.lines[1].style.fg, Some(Color::Green));
    assert_eq!(rendered.lines[2].style.fg, Some(Color::Red));
}

#[test]
fn tui_files_separated_by_blank_line() {
    let rendered = render(&[
        changed("a.go", vec![added(item("A", "func A()"))]),
        FileChange {
            path: "b.go".to_owned(),
            kind: FileChangeKind::Deleted,
        },
    ]);
    let lines: Vec<String> = rendered.lines.iter().map(text).collect();
    assert_eq!(lines, vec!["a.go", "  + func A()", "", "DELETED b.go"]);
    // The blank separator at index 2 is skipped; both file rows are stops.
    assert_eq!(rendered.stops, vec![0, 1, 3]);
}

#[test]
fn cursor_moves_and_scroll_follows() {
    let mut app = three_items();
    app.viewport_height = 2; // 4 lines, 2 visible → max scroll 2.

    app.cursor_down(1);
    assert_eq!((app.cursor, app.scroll), (1, 0));
    app.cursor_down(1);
    assert_eq!((app.cursor, app.scroll), (2, 1)); // line 2 pulled into view
    app.cursor_down(1);
    assert_eq!((app.cursor, app.scroll), (3, 2));
    app.cursor_down(10); // clamps at the last stop
    assert_eq!((app.cursor, app.scroll), (3, 2));

    app.cursor_up(1);
    assert_eq!((app.cursor, app.scroll), (2, 2)); // still visible, no scroll
    app.goto_item(None, false); // gg
    assert_eq!((app.cursor, app.scroll), (0, 0));
}

#[test]
fn count_motion_moves_many_at_once() {
    let mut app = three_items();
    app.viewport_height = 4;
    app.cursor_down(2);
    assert_eq!(app.cursor, 2);
    app.cursor_up(5); // saturates at the top
    assert_eq!(app.cursor, 0);
}

#[test]
fn goto_item_honors_explicit_count() {
    let mut app = three_items();
    app.viewport_height = 4;
    app.goto_item(Some(3), false); // 3G → third stop (1-based)
    assert_eq!(app.cursor, 2);
    app.goto_item(Some(99), true); // clamps to last
    assert_eq!(app.cursor, 3);
    app.goto_item(None, true); // G → last
    assert_eq!(app.cursor, 3);
}

#[test]
fn cursor_to_viewport_targets_visible_extremes() {
    let mut app = many_items(6); // 7 lines (0..=6)
    app.viewport_height = 4;
    app.scroll = 2; // visible lines 2..=5 → stops 2,3,4,5
    app.cursor_to_viewport(ViewSpot::Top);
    assert_eq!(app.cursor, 2);
    app.cursor_to_viewport(ViewSpot::Bottom);
    assert_eq!(app.cursor, 5);
    app.cursor_to_viewport(ViewSpot::Middle);
    assert_eq!(app.cursor, 3);
    assert_eq!(app.scroll, 2); // the view never moved
}

#[test]
fn scroll_cursor_to_repositions_view_not_cursor() {
    let mut app = many_items(6); // 7 lines → max scroll 3 at height 4
    app.viewport_height = 4;
    app.cursor = 3; // line 3
    app.scroll_cursor_to(ViewSpot::Top);
    assert_eq!((app.cursor, app.scroll), (3, 3));
    app.scroll_cursor_to(ViewSpot::Middle);
    assert_eq!((app.cursor, app.scroll), (3, 1));
    app.scroll_cursor_to(ViewSpot::Bottom);
    assert_eq!((app.cursor, app.scroll), (3, 0));
}

#[test]
fn motions_are_noops_on_empty_review() {
    let mut app = app(&[]);
    app.viewport_height = 10;
    app.cursor_down(1);
    app.goto_item(Some(2), true);
    app.cursor_to_viewport(ViewSpot::Top);
    app.scroll_cursor_to(ViewSpot::Middle);
    assert_eq!((app.cursor, app.scroll), (0, 0));
}

#[test]
fn input_accumulates_count_then_emits_motion() {
    let mut input = InputState::default();
    assert_eq!(input.feed(KeyCode::Char('1'), false), None);
    assert_eq!(input.feed(KeyCode::Char('2'), false), None);
    assert_eq!(
        input.feed(KeyCode::Char('j'), false),
        Some(Motion::Down(12))
    );
    // Count is consumed; the next bare motion is a single step.
    assert_eq!(input.feed(KeyCode::Char('j'), false), Some(Motion::Down(1)));
}

#[test]
fn input_zero_is_a_count_digit_only_mid_count() {
    let mut input = InputState::default();
    // Leading 0 is not a count and maps to nothing here.
    assert_eq!(input.feed(KeyCode::Char('0'), false), None);
    assert_eq!(input.feed(KeyCode::Char('j'), false), Some(Motion::Down(1)));
    // But 0 extends a count under way: 1,0 → 10.
    assert_eq!(input.feed(KeyCode::Char('1'), false), None);
    assert_eq!(input.feed(KeyCode::Char('0'), false), None);
    assert_eq!(input.feed(KeyCode::Char('k'), false), Some(Motion::Up(10)));
}

#[test]
fn input_decodes_gg_and_counted_gg() {
    let mut input = InputState::default();
    assert_eq!(input.feed(KeyCode::Char('g'), false), None);
    assert_eq!(
        input.feed(KeyCode::Char('g'), false),
        Some(Motion::First(None))
    );
    assert_eq!(input.feed(KeyCode::Char('5'), false), None);
    assert_eq!(input.feed(KeyCode::Char('g'), false), None);
    assert_eq!(
        input.feed(KeyCode::Char('g'), false),
        Some(Motion::First(Some(5)))
    );
}

#[test]
fn input_drops_dangling_g_before_other_key() {
    let mut input = InputState::default();
    assert_eq!(input.feed(KeyCode::Char('g'), false), None);
    assert_eq!(input.feed(KeyCode::Char('j'), false), Some(Motion::Down(1)));
}

#[test]
fn input_decodes_ctrl_paging_and_g_uppercase() {
    let mut input = InputState::default();
    assert_eq!(
        input.feed(KeyCode::Char('d'), true),
        Some(Motion::HalfPageDown)
    );
    assert_eq!(
        input.feed(KeyCode::Char('u'), true),
        Some(Motion::HalfPageUp)
    );
    assert_eq!(input.feed(KeyCode::Char('f'), true), Some(Motion::PageDown));
    assert_eq!(input.feed(KeyCode::Char('b'), true), Some(Motion::PageUp));
    assert_eq!(
        input.feed(KeyCode::Char('G'), false),
        Some(Motion::Last(None))
    );
    assert_eq!(input.feed(KeyCode::Char('5'), false), None);
    assert_eq!(
        input.feed(KeyCode::Char('G'), false),
        Some(Motion::Last(Some(5)))
    );
}

#[test]
fn input_decodes_quit() {
    let mut input = InputState::default();
    assert_eq!(input.feed(KeyCode::Char('q'), false), Some(Motion::Quit));
    assert_eq!(input.feed(KeyCode::Esc, false), Some(Motion::Quit));
}

#[test]
fn input_decodes_hml_view_positioning() {
    let mut input = InputState::default();
    assert_eq!(
        input.feed(KeyCode::Char('H'), false),
        Some(Motion::CursorHigh)
    );
    assert_eq!(
        input.feed(KeyCode::Char('M'), false),
        Some(Motion::CursorMiddle)
    );
    assert_eq!(
        input.feed(KeyCode::Char('L'), false),
        Some(Motion::CursorLow)
    );
}

#[test]
fn input_decodes_z_prefixed_view_scrolls() {
    let mut input = InputState::default();
    assert_eq!(input.feed(KeyCode::Char('z'), false), None);
    assert_eq!(input.feed(KeyCode::Char('t'), false), Some(Motion::ViewTop));
    assert_eq!(input.feed(KeyCode::Char('z'), false), None);
    assert_eq!(
        input.feed(KeyCode::Char('z'), false),
        Some(Motion::ViewCenter)
    );
    assert_eq!(input.feed(KeyCode::Char('z'), false), None);
    assert_eq!(
        input.feed(KeyCode::Char('b'), false),
        Some(Motion::ViewBottom)
    );
}

#[test]
fn input_drops_unknown_z_command() {
    let mut input = InputState::default();
    assert_eq!(input.feed(KeyCode::Char('z'), false), None);
    assert_eq!(input.feed(KeyCode::Char('x'), false), None); // zx → nothing
    // State cleared: a following motion decodes normally.
    assert_eq!(input.feed(KeyCode::Char('j'), false), Some(Motion::Down(1)));
}

#[test]
fn input_decodes_file_hops_with_counts() {
    let mut input = InputState::default();
    assert_eq!(
        input.feed(KeyCode::Char('{'), false),
        Some(Motion::PrevFile(1))
    );
    assert_eq!(input.feed(KeyCode::Char('2'), false), None);
    assert_eq!(
        input.feed(KeyCode::Char('}'), false),
        Some(Motion::NextFile(2))
    );
}

#[test]
fn file_hops_move_between_headers_and_saturate() {
    let mut app = three_files(); // headers at stops 0, 2, 4
    app.viewport_height = 20;
    assert_eq!(app.headers, vec![0, 2, 4]);
    app.next_file(1);
    assert_eq!(app.cursor, 2);
    app.next_file(5); // saturates at the last header
    assert_eq!(app.cursor, 4);
    app.cursor_down(1); // onto c.go's change row
    app.prev_file(1);
    assert_eq!(app.cursor, 4);
    app.prev_file(2);
    assert_eq!(app.cursor, 0);
    app.prev_file(1); // already at the first header: stays
    assert_eq!(app.cursor, 0);
}

#[test]
fn summary_counts_files_and_changes() {
    let review = vec![
        changed(
            "a.go",
            vec![
                added(item("A", "func A()")),
                modified(item("B", "func B()"), item("B", "func B(x int)")),
                removed(item("C", "func C()")),
            ],
        ),
        FileChange {
            path: "gone.go".to_owned(),
            kind: FileChangeKind::Deleted,
        },
    ];
    assert_eq!(summarize(&review), "2 files · +1 ~1 -1");
    assert_eq!(summarize(&review[..1]), "1 file · +1 ~1 -1");
}

#[test]
fn input_decodes_enter_as_open() {
    let mut input = InputState::default();
    assert_eq!(input.feed(KeyCode::Enter, false), Some(Motion::Open));
}

#[test]
fn input_decodes_tab_as_expand() {
    let mut input = InputState::default();
    assert_eq!(input.feed(KeyCode::Tab, false), Some(Motion::Expand));
}

#[test]
fn tokenize_keeps_word_runs_whole() {
    assert_eq!(
        tokenize("func F(x int)"),
        vec!["func", " ", "F", "(", "x", " ", "int", ")"]
    );
}

#[test]
fn modified_rows_mark_only_the_changed_tokens() {
    let rendered = render(&[changed(
        "a.go",
        vec![modified(item("B", "func B()"), item("B", "func B(x int)"))],
    )]);
    // Row text is unchanged by the span split…
    assert_eq!(text(&rendered.lines[1]), "  ~ func B(x int)");
    // …and the inserted parameter is the marked region.
    let marked: String = rendered.lines[1]
        .spans
        .iter()
        .filter(|s| s.style.underlined)
        .map(|s| s.content.as_str())
        .collect();
    assert_eq!(marked, "x int");
    // The old side has nothing struck out — nothing was removed.
    assert!(
        rendered.lines[2]
            .spans
            .iter()
            .all(|s| !s.style.crossed_out)
    );
}

#[test]
fn modified_rows_strike_removed_tokens_on_the_was_line() {
    let rendered = render(&[changed(
        "a.go",
        vec![modified(
            item("B", "func B(retries int)"),
            item("B", "func B()"),
        )],
    )]);
    let struck: String = rendered.lines[2]
        .spans
        .iter()
        .filter(|s| s.style.crossed_out)
        .map(|s| s.content.as_str())
        .collect();
    assert_eq!(struck, "retries int");
}

/// An index defining `Client` with one field, and a review whose one
/// item references `Client`.
fn expandable_app() -> App {
    let mut client = item("Client", "type Client struct");
    client.id.kind = Kind::Struct;
    let mut field = item("Client.timeout", "Client.timeout int");
    field.id.kind = Kind::Field;
    field.parent = Some("Client".into());
    let mut client_surface = Surface::new();
    client_surface.push(client);
    client_surface.push(field);
    let index = TypeIndex::build(&[client_surface]);

    let mut connect = item("Connect", "func Connect() *Client");
    connect.refs = vec![TypeRef("Client".into())];
    App::new(&[changed("a.go", vec![added(connect)])], index)
}

#[test]
fn tab_expands_referenced_types_inline_and_collapses_again() {
    let mut app = expandable_app();
    app.viewport_height = 20;
    assert_eq!(app.lines.len(), 2); // header + row
    assert_eq!(app.expandable, vec![false, true]);

    app.cursor = 1;
    assert_eq!(app.toggle_expand(), None);
    let texts: Vec<String> = app.lines.iter().map(text).collect();
    // One Tab, one level: the definition header only, members
    // collapsed behind their own Tab.
    assert_eq!(texts[2], "      ▸ type Client struct  · f.go:1");
    assert_eq!(app.lines.len(), 3);
    assert_eq!(app.stops.len(), 3);
    // The header row is a stop with a jump of its own; the cursor
    // stayed on its row.
    assert_eq!(app.cursor, 1);
    assert_eq!(app.jumps[2].as_ref().unwrap().path, "f.go".to_owned());
    assert!(app.expandable[2]); // it has members to unfold

    // Tab on the header unfolds the members.
    app.cursor = 2;
    assert_eq!(app.toggle_expand(), None);
    let texts: Vec<String> = app.lines.iter().map(text).collect();
    assert_eq!(texts[3], "        Client.timeout int");
    assert_eq!(app.stops.len(), 4);
    assert_eq!(app.jumps[3].as_ref().unwrap().path, "f.go".to_owned());

    // Collapse both levels again.
    assert_eq!(app.toggle_expand(), None);
    assert_eq!(app.stops.len(), 3);
    app.cursor = 1;
    assert_eq!(app.toggle_expand(), None);
    assert_eq!(app.lines.len(), 2);
    assert_eq!(app.stops.len(), 2);
}

#[test]
fn expansion_recurses_and_guards_cycles() {
    // Node refs Edge; Edge refs Node (a cycle) and Weight (not).
    let mut node = item("Node", "type Node struct");
    node.id.kind = Kind::Struct;
    node.refs = vec![TypeRef("Edge".into())];
    let mut edge = item("Edge", "type Edge struct");
    edge.id.kind = Kind::Struct;
    edge.refs = vec![
        TypeRef("Node".into()),
        TypeRef("Weight".into()),
    ];
    let mut weight = item("Weight", "type Weight float64");
    weight.id.kind = Kind::Type;
    let mut s = Surface::new();
    s.push(node);
    s.push(edge);
    s.push(weight);
    let index = TypeIndex::build(&[s]);

    let mut f = item("Walk", "func Walk(n Node)");
    f.refs = vec![TypeRef("Node".into())];
    let mut app = App::new(&[changed("a.go", vec![added(f)])], index);
    app.viewport_height = 30;

    // Expand the review row: Node's definition unfolds.
    app.cursor = 1;
    assert_eq!(app.toggle_expand(), None);
    assert_eq!(text(&app.lines[2]), "      ▸ type Node struct  · f.go:1");
    // The unfolded Node row is itself expandable (it refs Edge).
    app.cursor = 2;
    assert!(app.expandable[2]);
    assert_eq!(app.toggle_expand(), None);
    assert_eq!(
        text(&app.lines[3]),
        "          ▸ type Edge struct  · f.go:1"
    );
    // Expanding Edge: the ref back to Node is already on this row's
    // path, so it renders as a cycle note; Weight unfolds normally.
    app.cursor = 3;
    assert_eq!(app.toggle_expand(), None);
    assert_eq!(text(&app.lines[4]), "              ↺ Node (cycle)");
    assert_eq!(
        text(&app.lines[5]),
        "              ▸ type Weight float64  · f.go:1"
    );
    // The cursor stayed on the Edge row through the re-render.
    assert_eq!(app.cursor, 3);
    // The Weight row's only surroundings are cyclic or ref-free: it
    // has no refs of its own, so it is not expandable.
    assert!(!app.expandable[4]);
}

#[test]
fn input_decodes_gr_as_usages_and_keeps_gg_working() {
    let mut input = InputState::default();
    assert_eq!(input.feed(KeyCode::Char('g'), false), None);
    assert_eq!(input.feed(KeyCode::Char('r'), false), Some(Motion::Usages));
    assert_eq!(input.feed(KeyCode::Char('g'), false), None);
    assert_eq!(
        input.feed(KeyCode::Char('g'), false),
        Some(Motion::First(None))
    );
}

#[test]
fn gr_unfolds_the_used_by_list_and_collapses_again() {
    // The index knows Client and a function referencing it; the
    // review shows Client itself.
    let mut client = item("Client", "type Client struct");
    client.id.kind = Kind::Struct;
    let mut connect = item("Connect", "func Connect() *Client");
    connect.refs = vec![TypeRef("Client".into())];
    let mut s = Surface::new();
    s.push(client.clone());
    s.push(connect);
    let index = TypeIndex::build(&[s]);

    let mut app = App::new(
        &[changed(
            "a.go",
            vec![modified(item("Client", "type Client struct"), client)],
        )],
        index,
    );
    app.viewport_height = 20;

    app.cursor = 1;
    assert!(app.referenced[1]);
    assert_eq!(app.toggle_usages(), None);
    // Row 0 header, 1 the ~ row, 2 its was: line, 3 the user.
    assert_eq!(
        text(&app.lines[3]),
        "      ◂ func Connect() *Client  · f.go:1"
    );
    // The usage row is a stop with a jump of its own.
    assert_eq!(app.stops.len(), 3);
    assert_eq!(app.jumps[2].as_ref().unwrap().path, "f.go".to_owned());

    assert_eq!(app.toggle_usages(), None);
    assert_eq!(app.stops.len(), 2);
}

#[test]
fn gr_on_an_unreferenced_row_notices() {
    let mut app = expandable_app();
    app.viewport_height = 20;
    app.cursor = 1; // Connect: nothing references a function's name
    assert!(app.toggle_usages().is_some());
}

#[test]
fn tab_on_an_unexpandable_row_notices() {
    let mut app = expandable_app();
    app.viewport_height = 20;
    app.cursor = 0; // the file header
    assert!(app.toggle_expand().is_some());
    assert_eq!(app.lines.len(), 2);
}

#[test]
fn stops_jump_to_head_side_lines() {
    let with_lines = |name: &str, sig: &str, line: u32| {
        let mut i = item(name, sig);
        i.line = Line(line);
        i
    };
    let app = app(&[
        changed(
            "a.go",
            vec![
                added(with_lines("A", "func A()", 10)),
                modified(
                    with_lines("B", "func B()", 12),
                    with_lines("B", "func B(x int)", 20),
                ),
                removed(with_lines("C", "func C()", 30)),
            ],
        ),
        FileChange {
            path: "gone.go".to_owned(),
            kind: FileChangeKind::Deleted,
        },
    ]);
    let jump = |i: usize| app.jumps[i].clone();
    // File header jumps to the top of the file.
    assert_eq!(
        jump(0),
        Some(JumpTarget {
            path: "a.go".to_owned(),
            line: Line(1),
        })
    );
    // Added jumps to its line; modified to the *after* line.
    assert_eq!(jump(1).unwrap().line, Line(10));
    assert_eq!(jump(2).unwrap().line, Line(20));
    // Removed items and deleted files have nowhere to go.
    assert_eq!(jump(3), None);
    assert_eq!(jump(4), None);
}

#[test]
fn current_jump_follows_the_cursor() {
    let mut app = app(&[changed("a.go", vec![added(item("A", "func A()"))])]);
    app.viewport_height = 10;
    assert_eq!(app.current_jump().unwrap().line, Line(1));
    app.cursor_down(1);
    // Item rows jump to the item's own declaration site.
    assert_eq!(app.current_jump().unwrap().path, "f.go".to_owned());
}

#[test]
fn input_decodes_match_navigation() {
    let mut input = InputState::default();
    assert_eq!(
        input.feed(KeyCode::Char('n'), false),
        Some(Motion::NextMatch)
    );
    assert_eq!(
        input.feed(KeyCode::Char('N'), false),
        Some(Motion::PrevMatch)
    );
}

/// Three files, one item each, so every stop carries a distinct name.
fn three_files() -> App {
    app(&[
        changed("a.go", vec![added(item("Alpha", "func Alpha()"))]),
        changed("b.go", vec![added(item("Beta", "func Beta()"))]),
        changed("c.go", vec![added(item("Gamma", "func Gamma()"))]),
    ])
}

#[test]
fn search_collects_matches_and_jumps_to_first() {
    let mut app = three_files();
    app.viewport_height = 20;
    // "func" matches every change row (stops 1, 3, 5); headers don't.
    app.search("func");
    assert_eq!(app.matches, vec![1, 3, 5]);
    assert_eq!(app.cursor, 1); // first match at or after cursor 0
}

#[test]
fn search_is_case_insensitive_and_jumps_forward_from_cursor() {
    let mut app = three_files();
    app.viewport_height = 20;
    app.cursor = 4; // sitting on c.go's header
    app.search("BETA");
    assert_eq!(app.matches, vec![3]);
    // No match at/after 4, so it wraps to the first (and only) match.
    assert_eq!(app.cursor, 3);
}

#[test]
fn next_and_prev_match_wrap_around() {
    let mut app = three_files();
    app.viewport_height = 20;
    app.search("func"); // matches [1, 3, 5], cursor → 1
    app.next_match();
    assert_eq!(app.cursor, 3);
    app.next_match();
    assert_eq!(app.cursor, 5);
    app.next_match(); // wraps to the first
    assert_eq!(app.cursor, 1);
    app.prev_match(); // wraps back to the last
    assert_eq!(app.cursor, 5);
}

#[test]
fn search_with_no_hits_clears_matches_and_holds_cursor() {
    let mut app = three_files();
    app.viewport_height = 20;
    app.cursor = 2;
    app.search("func"); // matches [1,3,5]; first at/after 2 is stop 3
    assert_eq!(app.cursor, 3);
    app.search("nonexistent");
    assert!(app.matches.is_empty());
    // No matches → cursor stays where the last search left it.
    assert_eq!(app.cursor, 3);
    app.next_match(); // no-op with no matches
    assert_eq!(app.cursor, 3);
}

#[test]
fn empty_query_clears_matches() {
    let mut app = three_files();
    app.viewport_height = 20;
    app.search("func");
    app.search("");
    assert!(app.matches.is_empty());
}

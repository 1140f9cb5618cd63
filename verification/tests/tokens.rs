//! Token-level marking of modified signatures.

use absolem::tui::style::{Span, Style};
use absolem::tui::tokens::{lcs_membership, marked_spans, modified_spans, tokenize};

fn owned(words: &[&str]) -> Vec<String> {
    words.iter().map(|word| word.to_string()).collect()
}

fn plain(spans: &[Span]) -> String {
    spans.iter().map(|span| span.content.as_str()).collect()
}

/// The length of a longest common subsequence, by trying every choice.
fn longest(a: &[String], b: &[String]) -> usize {
    match (a.split_first(), b.split_first()) {
        (Some((x, rest_a)), Some((y, rest_b))) => {
            let skip = longest(rest_a, b).max(longest(a, rest_b));
            if x == y {
                skip.max(1 + longest(rest_a, rest_b))
            } else {
                skip
            }
        }
        _ => 0,
    }
}

#[test]
fn tokens_spell_the_text() {
    for s in ["", "a_1 b", "fn f<'a>(x: &'a str) -> Größe {}", "  ::  "] {
        assert_eq!(tokenize(s).concat(), s);
    }
    assert_eq!(tokenize("a_1 é9"), ["a_1", " ", "é", "9"]);
}

#[test]
fn unmarked_tokens_are_a_longest_common_subsequence() {
    let cases = [
        ("func F()", "func F(x int)"),
        ("a b c", "c b a"),
        ("a", ""),
        ("x y x y", "y x y x"),
    ];
    for (before, after) in cases {
        let (left, right) = (tokenize(before), tokenize(after));
        let (in_left, in_right) = lcs_membership(&left, &right);
        let kept: Vec<&String> = left
            .iter()
            .zip(&in_left)
            .filter(|(_, kept)| **kept)
            .map(|(token, _)| token)
            .collect();
        let kept_right: Vec<&String> = right
            .iter()
            .zip(&in_right)
            .filter(|(_, kept)| **kept)
            .map(|(token, _)| token)
            .collect();
        assert_eq!(kept, kept_right);
        assert_eq!(kept.len(), longest(&left, &right));
    }
}

#[test]
fn ties_skip_the_left_token_first() {
    let (left, right) = lcs_membership(&owned(&["a", "b"]), &owned(&["b", "a"]));
    assert_eq!(left, [false, true]);
    assert_eq!(right, [true, false]);
}

#[test]
fn adjacent_tokens_of_one_state_share_a_span() {
    let marker = Style::plain().underlined();
    let spans = marked_spans(
        &owned(&["a", "b", "c", "d"]),
        &vec![true, true, false, false],
        marker,
    );
    assert_eq!(spans.len(), 2);
    assert_eq!((spans[0].content.as_str(), spans[0].style), ("ab", Style::plain()));
    assert_eq!((spans[1].content.as_str(), spans[1].style), ("cd", marker));
    assert!(marked_spans(&Vec::new(), &Vec::new(), marker).is_empty());
}

#[test]
fn marking_keeps_the_text() {
    let (before, after) = ("func B(retries int) error", "func B(ctx Context) (int, error)");
    let (old, new) = modified_spans(before, after);
    assert_eq!(plain(&old), before);
    assert_eq!(plain(&new), after);
    assert!(old.iter().any(|span| span.style.crossed_out));
    assert!(new.iter().any(|span| span.style.bold && span.style.underlined));
}

#[test]
fn equal_sides_show_no_mark() {
    let (old, new) = modified_spans("func F()", "func F()");
    for span in old.iter().chain(&new) {
        assert_eq!(span.style, Style::plain());
    }
}

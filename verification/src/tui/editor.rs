//! Which command opens a location in the user's editor.

use vstd::prelude::*;

use crate::text::{self, Separator};
use crate::tui::rows::{JumpModel, JumpTarget};

verus! {

/// The words of a setting, none if it is unset.
pub open spec fn setting_words(setting: Option<&str>) -> Seq<Seq<char>> {
    match setting {
        Some(command) => text::runs(command@, Separator::Whitespace),
        None => seq![],
    }
}

/// The words of the editor's command: those of `$VISUAL`, or else those of
/// `$EDITOR`.
pub open spec fn editor_words(visual: Option<&str>, editor: Option<&str>) -> Seq<Seq<char>> {
    if setting_words(visual).len() > 0 {
        setting_words(visual)
    } else {
        setting_words(editor)
    }
}

/// The arguments that open a location: the line, then the file.
pub open spec fn location_words(target: JumpModel) -> Seq<Seq<char>> {
    seq!["+"@ + text::decimal(target.line.0 as nat), target.path]
}

/// The words of a setting.
fn words_of(setting: Option<&str>) -> (words: Vec<String>)
    ensures
        text::texts(words@) == setting_words(setting),
{
    match setting {
        Some(command) => text::split_runs(command, &Separator::Whitespace),
        None => {
            let none: Vec<String> = Vec::new();
            assert(text::texts(none@) =~= seq![]);
            none
        },
    }
}

/// The command that opens a location in the user's editor, program first:
/// strictly `$VISUAL` or else `$EDITOR`. `None` if neither names a program —
/// no editor is guessed.
pub fn editor_command(
    visual: Option<&str>,
    editor: Option<&str>,
    target: &JumpTarget,
) -> (command: Option<Vec<String>>)
    ensures
        match command {
            Some(words) => editor_words(visual, editor).len() > 0 && text::texts(words@)
                == editor_words(visual, editor) + location_words(target@),
            None => editor_words(visual, editor).len() == 0,
        },
        command matches Some(words) ==> words@.len() >= 3 && words@[words@.len() - 1]@
            == target.path@ && words@[words@.len() - 2]@ == "+"@ + text::decimal(
            target.line.0 as nat,
        ),
{
    let mut words = words_of(visual);
    if words.len() == 0 {
        words = words_of(editor);
    }
    let ghost program = text::texts(words@);
    assert(program == editor_words(visual, editor));
    if words.len() == 0 {
        return None;
    }
    let digits = text::decimal_text(target.line.0 as u64);
    words.push(text::join2("+", digits.as_str()));
    words.push(target.path.clone());
    assert(text::texts(words@) =~= program + location_words(target@));
    Some(words)
}

} // verus!

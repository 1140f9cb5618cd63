//! The languages absolem extracts, dispatched by file extension.

use vstd::prelude::*;

use crate::producer::go::{self, GoProducer};
use crate::producer::rust::{self, RustProducer};
use crate::producer::syntax::{self, Grammar, ProducerError};
use crate::surface::Surface;
use crate::text::{self, Separator};

verus! {

/// The segments of a path that name something, in order.
pub open spec fn segments(path: Seq<char>) -> Seq<Seq<char>> {
    text::runs(path, Separator::Char('/'))
}

/// The last of the first `n` segments that is not a `.` standing for where
/// the path already is.
pub open spec fn last_segment(parts: Seq<Seq<char>>, n: int) -> Option<Seq<char>>
    decreases n,
{
    if n <= 0 {
        None
    } else if parts[n - 1] == "."@ {
        last_segment(parts, n - 1)
    } else {
        Some(parts[n - 1])
    }
}

/// The name of the file a path leads to, if it leads to a file by name.
pub open spec fn file_name(path: Seq<char>) -> Option<Seq<char>> {
    match last_segment(segments(path), segments(path).len() as int) {
        Some(name) => if name == ".."@ {
            None
        } else {
            Some(name)
        },
        None => None,
    }
}

/// Where the last `.` among the first `n` characters is.
pub open spec fn last_dot(name: Seq<char>, n: int) -> Option<int>
    decreases n,
{
    if n <= 0 {
        None
    } else if name[n - 1] == '.' {
        Some(n - 1)
    } else {
        last_dot(name, n - 1)
    }
}

/// What follows the last `.` of a file name, unless the name starts with it.
pub open spec fn suffix(name: Seq<char>) -> Option<Seq<char>> {
    match last_dot(name, name.len() as int) {
        Some(at) => if at == 0 {
            None
        } else {
            Some(name.skip(at + 1))
        },
        None => None,
    }
}

/// The extension of the file a path leads to.
pub open spec fn extension_of(path: Seq<char>) -> Option<Seq<char>> {
    match file_name(path) {
        Some(name) => suffix(name),
        None => None,
    }
}

/// The language of a file, by its extension.
pub open spec fn language_of(path: Seq<char>) -> Option<Grammar> {
    match extension_of(path) {
        Some(ext) => if ext == "go"@ {
            Some(Grammar::Go)
        } else if ext == "rs"@ {
            Some(Grammar::Rust)
        } else {
            None
        },
        None => None,
    }
}

/// The items of a file in a language, from its syntax tree.
pub open spec fn items_of(
    grammar: Grammar,
    root: syntax::SyntaxModel,
    source: Seq<char>,
    path: Seq<char>,
) -> Seq<crate::item::ItemModel> {
    match grammar {
        Grammar::Go => go::file_items(root, source, path),
        Grammar::Rust => rust::file_items(root, source, path),
    }
}

/// What extraction in a language gives: an error if the source is too long or
/// its tree does not fit it, and the file's items otherwise.
pub open spec fn extracted(
    grammar: Grammar,
    source: Seq<char>,
    path: Seq<char>,
) -> Result<Seq<crate::item::ItemModel>, ProducerError> {
    let root = syntax::parsed(grammar, source);
    if !syntax::parsable(source) {
        Err(ProducerError::NoTree)
    } else if !syntax::readable(root, source) {
        Err(ProducerError::Unreadable)
    } else {
        Ok(items_of(grammar, root, source, path))
    }
}

/// Whether a surface, or an error, is what extraction gives.
pub open spec fn gives(
    out: Result<Surface, ProducerError>,
    expected: Result<Seq<crate::item::ItemModel>, ProducerError>,
) -> bool {
    match (out, expected) {
        (Ok(surface), Ok(items)) => surface@ == items,
        (Err(error), Err(reason)) => error == reason,
        _ => false,
    }
}

/// The extension of the file a path leads to.
pub fn extension(path: &str) -> (ext: Option<String>)
    ensures
        match ext {
            Some(words) => extension_of(path@) == Some(words@),
            None => extension_of(path@) is None,
        },
{
    let parts = text::split_runs(path, &Separator::Char('/'));
    let ghost all = segments(path@);
    let mut n: usize = parts.len();
    assert(all.len() == parts@.len());
    while n > 0
        invariant
            n <= parts@.len(),
            all == segments(path@),
            text::texts(parts@) == all,
            last_segment(all, all.len() as int) == last_segment(all, n as int),
        decreases n,
    {
        let part = parts[n - 1].as_str();
        assert(all[n - 1] == part@);
        if !text::same_text(part, ".") {
            if text::same_text(part, "..") {
                return None;
            }
            return suffix_text(part);
        }
        n = n - 1;
    }
    None
}

/// What follows the last `.` of a file name, unless the name starts with it.
fn suffix_text(name: &str) -> (ext: Option<String>)
    ensures
        match ext {
            Some(words) => suffix(name@) == Some(words@),
            None => suffix(name@) is None,
        },
{
    let chars = text::chars_of(name);
    let length: usize = chars.len();
    let mut n: usize = length;
    while n > 0
        invariant
            n <= length == chars@.len(),
            chars@ == name@,
            last_dot(name@, length as int) == last_dot(name@, n as int),
        decreases n,
    {
        if chars[n - 1] == '.' {
            if n == 1 {
                return None;
            }
            assert(name@.skip(n as int) =~= name@.subrange(n as int, length as int));
            return Some(text::text_of(&chars, n, length));
        }
        n = n - 1;
    }
    None
}

/// Maps a file extension to the producer that handles it.
pub struct Registry {
    go: GoProducer,
    rust: RustProducer,
}

impl Registry {
    /// Each producer parses its own language.
    pub closed spec fn ready(self) -> bool {
        self.go.ready() && self.rust.ready()
    }

    /// Builds the registry of languages absolem ships today.
    pub fn with_defaults() -> (made: Result<Self, ProducerError>)
        ensures
            made matches Ok(registry) && registry.ready(),
    {
        match GoProducer::new() {
            Err(error) => Err(error),
            Ok(go) => match RustProducer::new() {
                Err(error) => Err(error),
                Ok(rust) => Ok(Registry { go, rust }),
            },
        }
    }

    /// Whether any producer claims this path — i.e. it's a source file in a
    /// language we extract. Lets the composition root drop unrelated files
    /// (and unrelated deletions) before diffing.
    pub fn supports(&self, path: &str) -> (yes: bool)
        ensures
            yes == (language_of(path@) is Some),
    {
        self.for_path(path).is_some()
    }

    /// The language of this path, if a producer claims it.
    pub fn for_path(&self, path: &str) -> (language: Option<Grammar>)
        ensures
            language == language_of(path@),
    {
        match extension(path) {
            Some(ext) => if text::same_text(ext.as_str(), "go") {
                Some(Grammar::Go)
            } else if text::same_text(ext.as_str(), "rs") {
                Some(Grammar::Rust)
            } else {
                None
            },
            None => None,
        }
    }

    /// The surface of a file, if a producer claims its path.
    pub fn extract(&mut self, path: &str, source: &str) -> (out: Option<
        Result<Surface, ProducerError>,
    >)
        requires
            old(self).ready(),
        ensures
            final(self).ready(),
            match language_of(path@) {
                None => out is None,
                Some(grammar) => out matches Some(made) && gives(
                    made,
                    extracted(grammar, source@, path@),
                ),
            },
    {
        match self.for_path(path) {
            None => None,
            Some(Grammar::Go) => Some(self.go.extract(path, source)),
            Some(Grammar::Rust) => Some(self.rust.extract(path, source)),
        }
    }
}

} // verus!

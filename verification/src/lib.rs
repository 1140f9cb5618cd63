//! `absolem` surfaces the structural shape of a change: which functions,
//! types, fields, variants, and constants were added, removed, or modified
//! between two states of a repository.

pub mod change_laws;
pub mod changes;
pub mod count_laws;
pub mod diff_laws;
pub mod git;
pub mod index;
pub mod index_laws;
pub mod item;
pub mod json;
pub mod json_laws;
pub mod layout;
pub mod lookup_laws;
pub mod markdown;
pub mod markdown_laws;
pub mod model_laws;
pub mod producer;
pub mod range;
pub mod render;
pub mod render_laws;
pub mod review;
pub mod source_laws;
pub mod surface;
pub mod text;
pub mod text_laws;
pub mod tui;
pub mod word_laws;

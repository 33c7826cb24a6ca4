//! Text state, styled layout and markdown render walk of a small note-taking editor.

pub mod editor;
pub mod find_replace;
pub mod markdown;
pub mod note_files;
pub mod notes_list;
pub mod styling;
pub mod text;

//! Core logic of a terminal diff viewer for commenting on changes: the diff model, navigation over a
//! flattened view of the diff, comment annotations, search, and the text
//! that the terminal front end draws.

pub mod diff_model;
pub mod mode;
pub mod annotation;
pub mod text;
pub mod keys;
pub mod app;
pub mod nav;
pub mod viewport;
pub mod comment;
pub mod search;
pub mod render_text;
pub mod tmux;
pub mod highlight;
pub mod laws;
pub mod markdown;
pub mod diff_parse;
pub mod extension;

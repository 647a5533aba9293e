//! The commands of a modal text editor, as verified functions on plain values.

pub mod change;
pub mod cmd;
pub mod command;
pub mod edit;
pub mod editor;
pub mod execute;
pub mod goto;
pub mod insert;
pub mod language;
pub mod laws;
pub mod line_laws;
pub mod lines;
pub mod lsp;
pub mod movement;
pub mod open;
pub mod registers;
pub mod search;
pub mod select;
pub mod selection;
pub mod strings;
pub mod text;
pub mod typed;
pub mod view;
pub mod window;

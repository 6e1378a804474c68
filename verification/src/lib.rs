pub mod actions;
pub mod commands;
pub mod cursor;
pub mod data;
pub mod editor;
pub mod edits;
pub mod event;
pub mod highlight;
pub mod indent;
pub mod input;
pub mod laws;
pub mod layout;
pub mod panels;
pub mod rect_map;
pub mod resolve;
pub mod rope;
pub mod round_trip;
pub mod shortcuts;
pub mod state;
pub mod strings;
pub mod text;
pub mod tiling;
pub mod words;
pub mod workspace;

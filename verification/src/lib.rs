//! The core of an outliner for the terminal: the pages of a graph as trees of
//! blocks, held in memory, changed at once on every edit and written to the
//! remote service afterwards.
//!
//! Every function states what it returns and how it changes the state, over
//! mathematical views of the data: a block is a [`types::BlockView`], the
//! pages are a sequence of [`types::DailyNoteView`], and the whole state is a
//! [`state::AppStateView`].
//!
//! - [`tree`] and [`doc`] say what the operations on a forest of blocks and
//!   on the pages are; [`blocks`] carries them out.
//! - [`state`] holds the state and the rows that the cursor can stand on.
//! - [`edit_buffer`], [`input`], [`slash`] and [`search`] are the edit session
//!   and what can be open above it.
//! - [`undo`] takes steps back and does them again; [`nav`] keeps the views
//!   that were left.
//! - [`reconcile`] takes in what the remote service answers; [`session`]
//!   takes in one message at a time and says what is to be done outside.
//! - [`laws`] states what holds between these operations, and [`order`] that
//!   the blocks stay in the order of their ranks.

pub mod actions;
pub mod blocks;
pub mod bounds;
pub mod config;
pub mod date;
pub mod dispatch;
pub mod doc;
pub mod edit_buffer;
pub mod error;
pub mod input;
pub mod json;
pub mod keymap;
pub mod keys;
pub mod laws;
pub mod maps;
pub mod markdown;
pub mod nav;
pub mod order;
pub mod preset;
pub mod queries;
pub mod reconcile;
pub mod render;
pub mod search;
pub mod session;
pub mod slash;
pub mod state;
pub mod tasks;
pub mod text;
pub mod tree;
pub mod types;
pub mod undo;

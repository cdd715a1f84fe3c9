//! Themes for an immediate mode GUI toolkit.
//!
//! A theme is written as a tree of widget definitions. Every style field of
//! a definition is optional, a definition may have children, and a definition
//! at any depth may say `from` which other widget it inherits what it does
//! not set itself: fields, and whole subtrees of children. This crate turns
//! such a tree into a flat arena of widget themes, each addressed by a handle
//! and by its path, the ids from a top-level widget down joined by `/`, with
//! every `from` resolved.
//!
//! - [`color`] and [`anim_state`] read the small values of a theme from text.
//! - [`definition`] holds the theme as its author wrote it.
//! - [`resources`] binds the font and image names of a definition to what a
//!   renderer has registered.
//! - [`builder`] flattens the definitions into the [`arena`] of
//!   [`widget_theme`] records.
//! - [`inherit`] merges one record, and what is below it, into another;
//!   [`resolve`] does so for every `from`, in passes, until none is pending.
//! - [`theme`] is the finished theme, which is only read.
//! - [`accepts`], [`frames`], [`below`], [`sound`], [`known`] and
//!   [`circular`] state and prove which definitions are built without error,
//!   what the steps change and what they leave alone, which shape the arena
//!   keeps throughout, and which references can never be resolved.

pub mod accepts;
pub mod anim_state;
pub mod arena;
pub mod below;
pub mod builder;
pub mod circular;
pub mod color;
pub mod definition;
pub mod error;
pub mod frames;
pub mod inherit;
pub mod known;
pub mod resolve;
pub mod resources;
pub mod sound;
pub mod text;
pub mod theme;
pub mod widget_theme;

pub use anim_state::{AnimState, AnimStateKey};
pub use color::Color;
pub use definition::{Align, Border, HeightRelative, Layout, Point, WidthRelative};
pub use error::Error;

//! Structural HTML rendering core: a markup-to-tree parser front end, a
//! client-side-framework detector with embedded-state extraction, a
//! dedup-guarded hydration engine, a widget-surface renderer, and a
//! change-detecting render cache.

pub mod detect;
pub mod hydrate;
pub mod node;
pub mod page_state;
pub mod parser;
pub mod render;
pub mod text;
pub mod tree;

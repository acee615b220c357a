//! A small document engine: a markup tokenizer and tree builder, a stylesheet
//! parser with cascade resolution, and a box-model layout engine, together with
//! a few auxiliary browser-state components.

pub mod css;
pub mod dom;
pub mod firewall;
pub mod html;
pub mod laws;
pub mod layout;
pub mod protocol;
pub mod search;
pub mod tab_memory;
pub mod tab_snapshot;
pub mod text;

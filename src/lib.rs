//! Settings model for a cursor-highlighter preferences panel: the legacy
//! `rgba(...)` color codec, the configuration schema, and the reconciliation
//! between the configuration store and the panel's controls.
//!
//! - `text`: trimming, comma splitting and decimal numbers on characters.
//! - `color`: reading and writing the `rgba(R, G, B, A)` encoding.
//! - `color_laws`: what reading and writing that encoding guarantee together.
//! - `schema`: the keys, their store names, groups, domains and governors.
//! - `panel`: the store snapshot, what each control shows, which controls are
//!   interactive, and the writes that a user edit makes.
//! - `panel_laws`: what holds of the panel and the store together.

pub mod text;
pub mod decimal;
pub mod color;
pub mod color_laws;
pub mod schema;
pub mod panel;
pub mod panel_laws;

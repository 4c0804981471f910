//! Terminal presentation logic of an agent front end: text measured in
//! terminal cells, the transcript and its scrolling, markdown prose, overlays,
//! the composer and the interaction state machine.

pub mod api;
pub mod strs;
pub mod app;

//! Pure interaction state, semantic actions, effects and projections.

pub mod action;
pub mod activity;
pub mod attachment;
pub mod calendar;
pub mod cards;
pub mod cells;
pub mod command;
pub mod effect;
pub mod facts;
pub mod frontend;
pub mod history;
pub mod input;
pub mod listings;
pub mod live_tool;
pub mod overlay;
pub mod pacer;
pub mod projection;
pub mod prose;
pub mod ratio;
pub mod run_state;
pub mod scroll;
pub mod select;
pub mod session;
pub mod session_cache;
pub mod state;
pub mod status;
pub mod submit;
pub mod text;
pub mod transcript;
pub mod update;

//! Answer-prose projection: block roles and baked spans for stateless
//! markdown painting.

pub mod answer;
pub mod blocks;
pub mod flow;
pub mod inline;
pub mod style;
pub mod table;

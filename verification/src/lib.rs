pub mod commands;
pub mod compose;
pub mod decompose;
pub mod detect;
pub mod json;
pub mod registry;
pub mod stats;
pub mod text;
pub mod tile;

//! The dashboard model behind `omni`: the tile/group state machine, the project
//! picker, key encoding, the recents list, status rules and launch prompts.

pub mod text;
pub mod assoc;
pub mod app;
pub mod keys;
pub mod groups;
pub mod launch;
pub mod input;
pub mod db;
pub mod recents;
pub mod lifecycle;
pub mod order;
pub mod picker;
pub mod theme;
pub mod view;
pub mod cli;
pub mod context;
pub mod scan;
pub mod laws;

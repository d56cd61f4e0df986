use vstd::prelude::*;

pub mod text;
pub mod fs_ext;
pub mod inventory;
pub mod phase;
pub mod lifecycle;
pub mod date;
pub mod checkpoint;
pub mod list_columns;
pub mod graph;
pub mod doctor;
pub mod doctor_output;
pub mod review;
pub mod list_output;
pub mod profile;
pub mod syntax;
pub mod serve;
pub mod sidecar;
pub mod scaffold;
pub mod slug;
pub mod cli;
pub mod storage;
pub mod git;
pub mod codex_config;
pub mod links;
pub mod table;
pub mod markdown;
pub mod item_preview;

verus! {

} // verus!
pub mod tree;
pub mod preview;

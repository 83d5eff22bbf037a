//! Verified core of the adventurer live D&D session companion.

pub mod text;
pub mod fmt;
pub mod lines;
pub mod keys;
pub mod json;
pub mod strmap;
pub mod state;
pub mod gemma;
pub mod panels;
pub mod api;
pub mod config;
pub mod players;
pub mod sync;
pub mod workers;
pub mod engine;
pub mod llm_bench;
pub mod stt_bench;
pub mod ws;
pub mod lan;
pub mod embed;
pub mod poc;
pub mod worker_loop;
pub mod archive;

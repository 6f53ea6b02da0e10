//! The logic of a code knowledge base that agents query over the Model
//! Context Protocol.
//!
//! A gateway stands between an agent and an embedded engine. It advertises the
//! engine's tools and a few wrapper tools of its own ([`mcp_trim`],
//! [`wrappers`], [`schemas`], [`gateway`]), answers calls of the wrappers
//! ([`ask`], [`repo_summary`], [`docs`], [`git_summary`], [`symbol_card`]),
//! and keeps their results ([`cache`]). An ingest run distils what the engine
//! has indexed into cards and links ([`distill`], [`repomap`], [`llm`],
//! [`linker`], [`statements`]). The rest says where a knowledge base lives and
//! how far its runs are ([`kb`], [`config`], [`checkpoint`], [`quality`],
//! [`ingest`], [`status`]).
//!
//! The library takes what the engine, the clock and the disk say as plain
//! values, and returns what to send, write or run.

pub mod args;
pub mod ask;
pub mod cache;
pub mod calendar;
pub mod cells;
pub mod checkpoint;
pub mod config;
pub mod decimal;
pub mod distill;
pub mod docs;
pub mod gateway;
pub mod git_summary;
pub mod ingest;
pub mod json;
pub mod kb;
pub mod linker;
pub mod llm;
pub mod mcp_trim;
pub mod quality;
pub mod question;
pub mod ranking;
pub mod repo_summary;
pub mod repomap;
pub mod schemas;
pub mod statements;
pub mod status;
pub mod strmap;
pub mod symbol_card;
pub mod text;
pub mod utf8;
pub mod wrappers;

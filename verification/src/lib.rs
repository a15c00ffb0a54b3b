//! Verified core of the ShuaForge practice application.
pub mod ai;
pub mod ai_exchange;
pub mod ai_import;
pub mod analysis_dialog;
pub mod analysis_records;
pub mod bank;
pub mod codec;
pub mod json;
pub mod deck;
pub mod lan_sync;
pub mod logging;
pub mod markdown;
pub mod normalize;
pub mod practice_flow;
pub mod problem;
pub mod problem_export;
pub mod self_update;
pub mod store;
pub mod tag_stats;
pub mod text;
pub mod ui_model;
pub mod userscript_server;

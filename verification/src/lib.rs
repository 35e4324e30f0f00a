//! Focus-session tracking core: a drift-resistant timer state machine, the
//! per-tick decision logic of the capture loop, and a deterministic
//! segmentation engine that folds a session's readings into scored,
//! time-disjoint activity segments.

pub mod algorithm;
pub mod app_config;
pub mod capture;
pub mod config;
pub mod grouping;
pub mod labels;
pub mod merge;
pub mod models;
pub mod monitor;
pub mod phash;
pub mod scoring;
pub mod session;
pub mod settings;
pub mod text;
pub mod timer;

//! Core logic of a media-acquisition manager: URL validation, subprocess
//! progress parsing, the download supervisor's state machine, and the feed
//! reconciliation engine, all with verified contracts.
pub mod applog;
pub mod atom;
pub mod error;
pub mod export;
pub mod feed;
pub mod feedops;
pub mod feedurl;
pub mod manager;
pub mod progress;
pub mod runner;
pub mod scheduler;
pub mod settings;
pub mod store;
pub mod stream;
pub mod supervisor;
pub mod text;
pub mod transcribe;
pub mod validate;

//! A download core: moves the bytes behind a URL, unchanged, into a local file.
pub mod assemble;
pub mod cabi;
pub mod calls;
pub mod cli;
pub mod client;
pub mod clock;
pub mod config;
pub mod content;
pub mod engine;
pub mod errors;
pub mod history;
pub mod host;
pub mod number;
pub mod part;
pub mod progress;
pub mod pump;
pub mod serve;
pub mod session;
pub mod split;
pub mod store;
pub mod text;
pub mod tiling;
pub mod types;
pub mod url;
pub mod util;
pub mod worker;

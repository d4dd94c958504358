pub mod chunking;
pub mod constants;
pub mod graph;
pub mod render;
pub mod errors;
pub mod i18n;
pub mod hashing;
pub mod timestamps;
pub mod output;
pub mod storage;
pub mod commands;
pub mod embedder;

pub mod text;
pub mod name_map;
pub mod data;
pub mod config;
pub mod parse;
pub mod detect;
pub mod handle;
pub mod shell_words;
pub mod runs;
pub mod fingerprint;
pub mod cli;
pub mod meta;

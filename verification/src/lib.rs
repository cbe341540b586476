pub mod cli;
pub mod commands;
pub mod constants;
pub mod fs;
pub mod interactive;
pub mod network;
pub mod paths;
pub mod precedence;
pub mod prompt;
pub mod shell;
pub mod text;
pub mod update;
pub mod utils;

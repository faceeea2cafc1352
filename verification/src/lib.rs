pub mod shell_state;
pub mod text;
pub mod command;
pub mod builtins;
pub mod command_parser;
pub mod bg_jobs;
pub mod history;
pub mod completions;
pub mod autocomplete;
pub mod session;

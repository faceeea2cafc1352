//! Each builtin's argument parsing and behaviour.
pub mod cd;
pub mod echo;
pub mod exit;
pub mod jobs;
pub mod pwd;
pub mod type_cmd;
pub mod complete;
pub mod declare;
pub mod history;

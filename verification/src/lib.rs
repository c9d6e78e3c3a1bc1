//! The logic of a small interactive Unix shell: builtin commands over
//! environment and alias tables, command-line planning, prompt (PS1)
//! expansion and command highlighting.

pub mod text;
pub mod status;
pub mod vars;
pub mod builtins;
pub mod ps1;
pub mod commands;
pub mod session;
pub mod sourcing;
pub mod lineutils;
pub mod prompt;

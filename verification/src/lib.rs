//! A small command shell and a toy web server, with their decision logic
//! verified: command-line splitting, the history and `!!` rules of the
//! shell, the plan that a command line with pipes and redirections turns
//! into, request-path handling and request scheduling of the server.

pub mod text;
pub mod plan;
pub mod shell;
pub mod server;

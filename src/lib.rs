//! Core of a terminal client for MUD servers: the line editor with history and
//! completion, the parser of typed commands, key naming, the telnet output
//! buffer, the rule tables that scripts drive, and the session life cycle.
pub mod text;
pub mod keys;
pub mod command;
pub mod model;
pub mod parse;
pub mod pattern;
pub mod script;
pub mod session;
pub mod telnet;

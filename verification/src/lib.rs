//! Core of a portable-application launcher: the rules that decide, for one
//! invocation inside a relocatable bundle, which binary runs, through which
//! dynamic loader, with which arguments and environment.

pub mod apprun;
pub mod config;
pub mod dispatch;
pub mod elf;
pub mod environ;
pub mod error;
pub mod interp;
pub mod layout;
pub mod manifest;
pub mod path;
pub mod plan;
pub mod text;

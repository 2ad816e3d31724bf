//! An addon manager's core for World of Warcraft: Forever clients: the
//! vocabulary, the `.toc` reader, archive planning, the install manifest, the
//! catalog search and the installed view, each with its contract.

pub mod domain;
pub mod text;
pub mod wow;
pub mod sorting;
pub mod error;
pub mod install;
pub mod catalog;
pub mod view;
pub mod config;
pub mod source;
pub mod picking;
pub mod state;
pub mod commands;

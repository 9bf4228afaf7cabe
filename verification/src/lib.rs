//! A local data-provider service library.
//!
//! The crate indexes installed applications with directory-precedence
//! overriding, fans search queries out to a set of providers (applications,
//! calculator, shell commands), merges and ranks the results, and frames the
//! request/response messages of a length-prefixed wire protocol.

pub mod applications;
pub mod calculator;
pub mod command;
pub mod config;
pub mod icons;
pub mod index;
pub mod item;
pub mod manager;
pub mod provider;
pub mod protocol;
pub mod rank;
pub mod score;
pub mod text;

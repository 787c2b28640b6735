//! Verified core of `gac`, a commit message generator: diff parsing and
//! scoring, strategy selection, prompt assembly, conventional commit
//! validation, scope detection, configuration rules and API key sealing.
#![allow(unused_imports)]

pub mod text;
pub mod casing;
pub mod validate;
pub mod strmap;
pub mod diff;
pub mod crypto;
pub mod config;
pub mod git;
pub mod prompt;
pub mod llamaswap;
pub mod logging;
pub mod report;
pub mod session;

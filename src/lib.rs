//! Build-configuration extraction and idempotent text patching for
//! embedded project trees.

pub mod text;
pub mod makefile;
pub mod patch;
pub mod project;
pub mod contexts;

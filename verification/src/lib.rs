//! The filesystem of an Android device, served through `adb`.
//!
//! The library decides and computes; it runs no program and touches no file.

pub mod adb;
pub mod attr;
pub mod cache;
pub mod escape;
pub mod fs;
pub mod handles;
pub mod inodes;
pub mod mount_opts;
pub mod ops;
pub mod parse;
pub mod run;
pub mod sys;
pub mod table;
pub mod text;
pub mod time;

//! Consolidates the text files of a directory tree into one MIME-style
//! multipart document.
//!
//! The pipeline has three stages: pattern-filtered candidate discovery,
//! per-file text/binary classification, and deterministic assembly of a
//! multipart document from the surviving text files.

use vstd::prelude::*;

pub mod args;
pub mod dirscan;
pub mod file_data;
pub mod file_info;
pub mod fs;
pub mod io;
pub mod io_utils;
pub mod patterns;
pub mod strutil;

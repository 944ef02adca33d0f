//! Classification records: one per candidate file, holding the file's
//! size, its text-or-binary verdict, or the error that prevented either.

pub mod claude;
pub mod model;

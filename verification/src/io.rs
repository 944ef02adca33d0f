//! Archive assembly. The document format lives in `eml`; writing the
//! finished bytes to disk belongs to the caller that owns the file
//! system.

pub mod eml;

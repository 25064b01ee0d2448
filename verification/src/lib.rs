//! A binding generator core and reference runtime for a hosted JVM:
//! classfile metadata is decoded into a semantic model, accumulated in a
//! registry, emitted as one projection type per class, and written out
//! through an incremental, sentinel-guarded writer.  The reference runtime
//! models ownership of native object handles (local and global references).

pub mod classfile;
pub mod descriptor;
pub mod emit;
pub mod error;
pub mod gather;
pub mod registry;
pub mod runtime;
pub mod text;
pub mod throwable;
pub mod utf16;
pub mod writer;
pub mod zipwrap;

//! An index over a Linux-kernel-style source tree: which configuration
//! options gate each source file, which device-tree compatible strings each
//! driver claims, and which module metadata each source exports.
//!
//! The library holds the logic of the indexer — the Makefile statement
//! reader, the C source scanner, the crawler's condition machinery, the
//! metadata store with its derived reverse maps, and the persistence
//! options. File access, task scheduling and the serde codecs surround it
//! from outside.

pub mod compats;
pub mod io;
pub mod kbuild;
pub mod makefile;
pub mod metadata;
pub mod source;
pub mod strutil;

pub use compats::Compats;
pub use io::{DataCoding, DataCompress, DataOptions, Error};
pub use kbuild::{Conditions, DirAction};
pub use makefile::{MakeFile, MakeStmt};
pub use metadata::{
    CompatStrData, ConfigOptData, MetaData, ModuleData, ParamData, SourceData, StrMap, StrSet,
};
pub use source::Tok;

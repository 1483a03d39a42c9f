//! Archive traversal and entry streaming.
//!
//! The crate turns a walked source tree into the entries of an archive and an
//! archive back into the filesystem operations that restore the tree. It works
//! on plain values: the caller walks directories, reads and writes files; the
//! container format and its codecs come from the `zip` crate.
//!
//! The crate is for targets whose paths follow the rules of Unix: `/` alone
//! separates the components of a path, and a path is absolute exactly where
//! it begins with `/`. The rule for safe entry names is stated, and holds of
//! the container, on such targets only.
//!
//! - [`path`] maps traversed paths to entry names,
//! - [`stream`] copies bytes through a buffer of bounded size,
//! - [`writer`] writes an archive from a source tree or a single file,
//! - [`reader`] reads an archive into the steps of its extraction,
//! - [`safety`] says which entry names may be resolved below a directory,
//! - [`roundtrip`] shows that extraction restores what was archived,
//! - [`container`] binds the container of the `zip` crate.

pub mod cli;
pub mod container;
pub mod error;
pub mod method;
pub mod options;
pub mod path;
pub mod reader;
pub mod roundtrip;
pub mod safety;
pub mod stream;
pub mod writer;

pub use cli::Args;
pub use cli::Commands;
pub use reader::extract_archive;
pub use writer::create_archive;

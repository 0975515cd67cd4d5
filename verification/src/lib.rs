//! Verified core of an icon catalogue: records of icons from a directory,
//! from a gzip-compressed tar archive or from a remote listing, listed in
//! ascending order of name, searched by substring, resolved by name and
//! exported by name. The library reads no file and opens no connection:
//! it works on the bytes and entries that its caller has read.

pub mod archive;
pub mod catalog;
pub mod cli;
pub mod client;
pub mod error;
pub mod export;
pub mod json;
pub mod names;
pub mod present;
pub mod record;
pub mod report;
pub mod session;
pub mod source;
pub mod text;

pub use archive::ArchiveIndex;
pub use catalog::{Backend, IconCatalog};
pub use cli::{run_cli, Cli, CliOutput, Commands};
pub use client::LucideClient;
pub use error::{ErrorKind, IconError};
pub use export::{ExportBatch, ExportResult, ExportTask, NamedResult};
pub use record::IconRecord;
pub use source::{DirectoryEntry, IconSource, RemoteEntry};

//! The commands of the command line, and what each of them gives.

use crate::archive::{archive_entries, catalogue, index_of, indexed};
use crate::catalog::found;
use crate::client::{begins, ArchiveExport, LucideClient};
use crate::error::{fails_with, ErrorKind, IconError};
use crate::export::{failure_texts, success_count, summarize, NamedResult};
use crate::json::{names_to_json, pretty_json};
use crate::present::{first_few, limited};
use crate::record::names_of;
use crate::report::{copied_report, copied_text, found_report, found_text};
use vstd::prelude::*;
use vstd::string::*;

verus! {

/// The commands.
#[derive(Clone, Debug, PartialEq, Eq)]
pub enum Commands {
    /// List all icons.
    List { json: bool },
    /// Search by substring.
    Search { query: String, json: bool },
    /// Copy all icons to a directory.
    DownloadAll { out: String },
}

/// A command line: where the archive is, if it was said, and the command.
#[derive(Clone, Debug, PartialEq, Eq)]
pub struct Cli {
    pub dir: Option<String>,
    pub command: Commands,
}

/// What a command gives: a text to print, or an export to carry out,
/// whose report is printed when it is finished.
pub enum CliOutput {
    Text(String),
    Export(ArchiveExport),
}

impl Cli {
    /// The path of the archive to read: the one the command line names,
    /// else `bundled`.
    pub fn archive_path(&self, bundled: &str) -> (r: String)
        ensures
            r@ == match self.dir {
                Some(dir) => dir@,
                None => bundled@,
            },
    {
        match &self.dir {
            Some(dir) => dir.clone(),
            None => String::from_str(bundled),
        }
    }
}

/// The output is this text.
pub open spec fn is_text(r: Result<CliOutput, IconError>, text: Seq<char>) -> bool {
    r matches Ok(CliOutput::Text(t)) && t@ == text
}

/// What `List` and `Search` give for the records of the archive.
pub open spec fn lists(r: Result<CliOutput, IconError>, command: Commands, archive: Seq<u8>) -> bool {
    match catalogue(archive) {
        None => fails_with(r, ErrorKind::ParseFailure),
        Some(records) => match command {
            Commands::List { json } => if json {
                is_text(r, pretty_json(names_of(records)))
            } else {
                is_text(r, found_text(names_of(records)))
            },
            Commands::Search { query, json } => if json {
                is_text(r, pretty_json(names_of(found(records, query@, false))))
            } else {
                is_text(r, found_text(names_of(found(records, query@, false))))
            },
            Commands::DownloadAll { .. } => true,
        },
    }
}

/// What `DownloadAll` gives for the entries of the archive.
pub open spec fn exports(r: Result<CliOutput, IconError>, out: Seq<char>, archive: Seq<u8>) -> bool {
    match archive_entries(archive) {
        None => fails_with(r, ErrorKind::ParseFailure),
        Some(entries) => r matches Ok(CliOutput::Export(export)) && begins(
            export,
            entries,
            names_of(indexed(index_of(entries))),
            out,
        ),
    }
}

/// Runs the command on the archive held in `archive`.
///
/// Fails with `ParseFailure` where the archive cannot be read. `List`
/// gives the report of all names, `Search` that of the names that hold the
/// query; with `json` each gives the names as JSON instead. `DownloadAll`
/// gives the export of every icon into the directory `out`.
pub fn run_cli(cli: Cli, archive: Vec<u8>) -> (r: Result<CliOutput, IconError>)
    ensures
        match cli.command {
            Commands::DownloadAll { out } => exports(r, out@, archive@),
            _ => lists(r, cli.command, archive@),
        },
{
    let client = match LucideClient::new(archive) {
        Ok(client) => client,
        Err(e) => { return Err(e); },
    };
    match cli.command {
        Commands::List { json } => {
            if json {
                match client.list_icons_json() {
                    Ok(text) => Ok(CliOutput::Text(text)),
                    Err(e) => Err(e),
                }
            } else {
                match client.list_icons() {
                    Ok(names) => Ok(CliOutput::Text(found_report(&names))),
                    Err(e) => Err(e),
                }
            }
        },
        Commands::Search { query, json } => {
            if json {
                match client.search_icons_json(query.as_str()) {
                    Ok(text) => Ok(CliOutput::Text(text)),
                    Err(e) => Err(e),
                }
            } else {
                match client.search_icons(query.as_str()) {
                    Ok(names) => Ok(CliOutput::Text(found_report(&names))),
                    Err(e) => Err(e),
                }
            }
        },
        Commands::DownloadAll { out } => {
            match client.download_all_icons(out.as_str()) {
                Ok(export) => Ok(CliOutput::Export(export)),
                Err(e) => Err(e),
            }
        },
    }
}

/// The names as they are printed: as a pretty-printed JSON array with
/// `json`, else as the report of the names found.
///
/// The call succeeds.
pub fn names_output(names: &Vec<String>, json: bool) -> (r: Result<String, IconError>)
    ensures
        match r {
            Ok(text) => text@ == if json {
                pretty_json(names.deep_view())
            } else {
                found_text(names.deep_view())
            },
            Err(_) => false,
        },
{
    if json {
        names_to_json(names)
    } else {
        Ok(found_report(names))
    }
}

/// The names to list: those that hold `search` where one is given, else
/// all, and of these the first `limit` where one is given.
///
/// Fails with `ParseFailure` exactly where the archive cannot be read.
pub fn list_names(client: &LucideClient, search: Option<&str>, limit: Option<usize>) -> (r: Result<
    Vec<String>,
    IconError,
>)
    ensures
        match catalogue(client@) {
            None => fails_with(r, ErrorKind::ParseFailure),
            Some(records) => r matches Ok(names) && names.deep_view() == first_few(
                names_of(
                    match search {
                        Some(pattern) => found(records, pattern@, false),
                        None => records,
                    },
                ),
                limit,
            ),
        },
{
    let names = match search {
        Some(pattern) => client.search_icons(pattern),
        None => client.list_icons(),
    };
    match names {
        Ok(names) => Ok(limited(names, limit)),
        Err(e) => Err(e),
    }
}

/// The text that reports the results of an export: how many icons were
/// copied and how many failed.
pub fn export_report(results: &Vec<NamedResult>) -> (r: String)
    ensures
        r@ == copied_text(
            success_count(results.deep_view()),
            failure_texts(results.deep_view()).len(),
        ),
{
    let (copied, failures) = summarize(results);
    copied_report(copied, failures.len())
}

} // verus!

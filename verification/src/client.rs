//! The client: a catalogue over one archive of icons.

use crate::archive::{
    archive_entries, archive_fetch, archive_fetch_file, archive_listing, catalogue, fetched,
    fetched_as, held, index_of, indexed, lemma_held_iff_listed, lemma_listed_is_held, paired,
    unpack, ArchiveIndex,
    IndexModel,
};
use crate::catalog::{
    answered, Backend, first_answering, found, lemma_answered, lemma_found_ascending, names_of_records,
    resolve_record, search_records,
};
use crate::error::{fails_about, fails_with, ErrorKind, IconError};
use crate::export::{
    in_order, planned, task_for, BatchModel, ExportBatch, ExportTask, NamedModel,
};
use crate::json::{names_to_json, pretty_json};
use crate::names::{bare, canonical_file_name, file_name, icon_extension};
use crate::record::{ascending, holds_name, lemma_names_rise, names_of, rising, IconRecord};
use vstd::prelude::*;
use vstd::string::*;
use vstd::utf8::{decode_utf8, encode_utf8, valid_utf8};

verus! {

/// A client over the bytes of one gzip-compressed tar archive of icons.
/// It keeps nothing between calls: every call reads the archive anew.
#[derive(Debug, Default)]
pub struct LucideClient {
    archive: Vec<u8>,
}

impl View for LucideClient {
    type V = Seq<u8>;

    closed spec fn view(&self) -> Seq<u8> {
        self.archive@
    }
}

/// An export from an archive: the archive read once, with the content of
/// every entry, and the batch of exports to carry out from it.
pub struct ArchiveExport {
    pub batch: ExportBatch,
    pub contents: ArchiveIndex,
}

/// The export begins: it holds the entries of the archive, and the batch
/// that exports the requested names from the records they list into the
/// directory `dir`, with nothing settled.
pub open spec fn begins(
    export: ArchiveExport,
    entries: Seq<(Seq<u8>, Seq<u8>)>,
    names: Seq<Seq<char>>,
    dir: Seq<char>,
) -> bool {
    &&& export.contents@ == index_of(entries)
    &&& in_order(export.batch@)
    &&& export.batch@ == (BatchModel {
        names,
        tasks: planned(indexed(index_of(entries)), names, dir, Backend::LocalArchive),
        results: Seq::<NamedModel>::empty(),
    })
}

/// The index holds the content for every task that is planned from the
/// records it lists: no task of such a batch fails for want of an entry.
pub proof fn lemma_task_is_held(
    index: IndexModel,
    name: Seq<char>,
    dir: Seq<char>,
    backend: Backend,
)
    requires
        paired(index),
        task_for(indexed(index), name, dir, backend) is Some,
    ensures
        held(index, task_for(indexed(index), name, dir, backend).unwrap().record.locator) is Some,
{
    let records = indexed(index);
    lemma_answered(records, name);
    let at = choose|at: int| first_answering(records, name, at);
    lemma_listed_is_held(index, at);
}

/// In an archive that can be read, the content of an icon is found by its
/// name exactly where the listing holds the name, its extension left off:
/// for every name but the extension alone, with or without a second
/// extension behind it, and the empty name.
pub proof fn lemma_content_iff_listed(data: Seq<u8>, name: Seq<char>)
    requires
        archive_entries(data) is Some,
        bare(name).len() > 0,
        bare(name) != icon_extension(),
    ensures
        fetched_as(data, encode_utf8(file_name(name))) is Ok <==> holds_name(
            catalogue(data).unwrap(),
            bare(name),
        ),
{
    lemma_held_iff_listed(index_of(archive_entries(data).unwrap()), name);
}

/// The content as text: its decoding where it is valid UTF-8, else a
/// `ParseFailure` about `name`.
pub fn content_text(content: &[u8], name: &str) -> (r: Result<String, IconError>)
    ensures
        if valid_utf8(content@) {
            r matches Ok(text) && text@ == decode_utf8(content@)
        } else {
            fails_about(r, ErrorKind::ParseFailure, name@)
        },
{
    match core::str::from_utf8(content) {
        Ok(text) => Ok(String::from_str(text)),
        Err(_) => Err(IconError::new(ErrorKind::ParseFailure, name)),
    }
}

impl LucideClient {
    /// A client over the archive held in `archive`.
    pub fn new(archive: Vec<u8>) -> (r: Result<LucideClient, IconError>)
        ensures
            r matches Ok(client) && client@ == archive@,
    {
        Ok(LucideClient { archive })
    }

    /// The records of all icons, ascending by name, no name twice.
    ///
    /// Fails with `ParseFailure` exactly where the archive cannot be read.
    pub fn list(&self) -> (r: Result<Vec<IconRecord>, IconError>)
        ensures
            match catalogue(self@) {
                Some(records) => r matches Ok(v) && v.deep_view() == records,
                None => fails_with(r, ErrorKind::ParseFailure),
            },
            r matches Ok(v) ==> ascending(v.deep_view()),
    {
        archive_listing(self.archive.as_slice())
    }

    /// The names of all icons, without the extension, ascending.
    ///
    /// Fails with `ParseFailure` exactly where the archive cannot be read.
    pub fn list_icons(&self) -> (r: Result<Vec<String>, IconError>)
        ensures
            match catalogue(self@) {
                Some(records) => r matches Ok(v) && v.deep_view() == names_of(records),
                None => fails_with(r, ErrorKind::ParseFailure),
            },
            r matches Ok(v) ==> rising(v.deep_view()),
    {
        match self.list() {
            Ok(records) => {
                proof {
                    lemma_names_rise(records.deep_view());
                }
                Ok(names_of_records(&records))
            },
            Err(e) => Err(e),
        }
    }

    /// The names of all icons as a pretty-printed JSON array.
    ///
    /// Fails with `ParseFailure` exactly where the archive cannot be read.
    pub fn list_icons_json(&self) -> (r: Result<String, IconError>)
        ensures
            match catalogue(self@) {
                Some(records) => r matches Ok(text) && text@ == pretty_json(names_of(records)),
                None => fails_with(r, ErrorKind::ParseFailure),
            },
    {
        match self.list_icons() {
            Ok(names) => names_to_json(&names),
            Err(e) => Err(e),
        }
    }

    /// The records whose names hold `pattern`, in the listing's order. The
    /// case of letters counts.
    ///
    /// Fails with `ParseFailure` exactly where the archive cannot be read.
    pub fn search(&self, pattern: &str) -> (r: Result<Vec<IconRecord>, IconError>)
        ensures
            match catalogue(self@) {
                Some(records) => r matches Ok(v) && v.deep_view() == found(
                    records,
                    pattern@,
                    false,
                ),
                None => fails_with(r, ErrorKind::ParseFailure),
            },
            r matches Ok(v) ==> ascending(v.deep_view()),
    {
        match self.list() {
            Ok(records) => {
                proof {
                    lemma_found_ascending(records.deep_view(), pattern@, false);
                }
                Ok(search_records(&records, pattern, false))
            },
            Err(e) => Err(e),
        }
    }

    /// The names that hold `query`, in the listing's order. The case of
    /// letters counts.
    ///
    /// Fails with `ParseFailure` exactly where the archive cannot be read.
    pub fn search_icons(&self, query: &str) -> (r: Result<Vec<String>, IconError>)
        ensures
            match catalogue(self@) {
                Some(records) => r matches Ok(v) && v.deep_view() == names_of(
                    found(records, query@, false),
                ),
                None => fails_with(r, ErrorKind::ParseFailure),
            },
            r matches Ok(v) ==> rising(v.deep_view()),
    {
        match self.search(query) {
            Ok(records) => {
                proof {
                    lemma_names_rise(records.deep_view());
                }
                Ok(names_of_records(&records))
            },
            Err(e) => Err(e),
        }
    }

    /// The names that hold `query` as a pretty-printed JSON array.
    ///
    /// Fails with `ParseFailure` exactly where the archive cannot be read.
    pub fn search_icons_json(&self, query: &str) -> (r: Result<String, IconError>)
        ensures
            match catalogue(self@) {
                Some(records) => r matches Ok(text) && text@ == pretty_json(
                    names_of(found(records, query@, false)),
                ),
                None => fails_with(r, ErrorKind::ParseFailure),
            },
    {
        match self.search_icons(query) {
            Ok(names) => names_to_json(&names),
            Err(e) => Err(e),
        }
    }

    /// The record of the listing that answers a request for `name`: the
    /// one of exactly that name, else the first whose name is it with the
    /// extension put on or left off.
    ///
    /// Fails with `ParseFailure` where the archive cannot be read, and
    /// with `IconNotFound` about `name` exactly where it can and no record
    /// answers.
    pub fn resolve(&self, name: &str) -> (r: Result<IconRecord, IconError>)
        ensures
            match catalogue(self@) {
                Some(records) => if answered(records, name@) {
                    r matches Ok(record) && exists|at: int| #[trigger]
                        first_answering(records, name@, at) && record@ == records[at]
                } else {
                    fails_about(r, ErrorKind::IconNotFound, name@)
                },
                None => fails_with(r, ErrorKind::ParseFailure),
            },
    {
        match self.list() {
            Ok(records) => resolve_record(&records, name),
            Err(e) => Err(e),
        }
    }

    /// The bytes that `locator` leads to: the content of the first entry
    /// whose path ends in the same component.
    pub fn fetch_content(&self, locator: &str) -> (r: Result<Vec<u8>, IconError>)
        ensures
            match fetched(self@, locator@) {
                Ok(content) => r matches Ok(bytes) && bytes@ == content,
                Err(kind) => fails_with(r, kind),
            },
            fetched(self@, locator@) == Err::<Seq<u8>, ErrorKind>(ErrorKind::NotFound)
                ==> fails_about(r, ErrorKind::NotFound, locator@),
    {
        archive_fetch(self.archive.as_slice(), locator)
    }

    /// What it takes to export the icons of the requested names into the
    /// directory `destination_dir`, each to the file of its name: the
    /// archive read once, and the batch of a task for every name to which a
    /// record answers. Nothing is attempted yet.
    ///
    /// Fails with `ParseFailure` exactly where the archive cannot be read.
    pub fn export_many(&self, names: &Vec<String>, destination_dir: &str) -> (r: Result<
        ArchiveExport,
        IconError,
    >)
        ensures
            match archive_entries(self@) {
                Some(entries) => r matches Ok(export) && begins(
                    export,
                    entries,
                    names.deep_view(),
                    destination_dir@,
                ),
                None => fails_with(r, ErrorKind::ParseFailure),
            },
    {
        match unpack(self.archive.as_slice()) {
            Ok(contents) => {
                let records = contents.listing();
                let batch = ExportBatch::new(&records, names, destination_dir, Backend::LocalArchive);
                Ok(ArchiveExport { batch, contents })
            },
            Err(e) => Err(e),
        }
    }

    /// What it takes to export every icon of the archive into the
    /// directory `target_dir`: [`Self::export_many`] of all names listed.
    ///
    /// Fails with `ParseFailure` exactly where the archive cannot be read.
    pub fn download_all_icons(&self, target_dir: &str) -> (r: Result<ArchiveExport, IconError>)
        ensures
            match archive_entries(self@) {
                Some(entries) => r matches Ok(export) && begins(
                    export,
                    entries,
                    names_of(indexed(index_of(entries))),
                    target_dir@,
                ),
                None => fails_with(r, ErrorKind::ParseFailure),
            },
    {
        match unpack(self.archive.as_slice()) {
            Ok(contents) => {
                let records = contents.listing();
                let names = names_of_records(&records);
                let batch = ExportBatch::new(&records, &names, target_dir, Backend::LocalArchive);
                Ok(ArchiveExport { batch, contents })
            },
            Err(e) => Err(e),
        }
    }

    /// The bytes to write for `task`: the content that its record's
    /// locator leads to.
    pub fn export_content(&self, task: &ExportTask) -> (r: Result<Vec<u8>, IconError>)
        ensures
            match fetched(self@, task@.record.locator) {
                Ok(content) => r matches Ok(bytes) && bytes@ == content,
                Err(kind) => fails_with(r, kind),
            },
    {
        self.fetch_content(task.record.locator.as_str())
    }

    /// The content of the icon `name` as text; `name` may carry the
    /// extension or not. The icon is the first entry whose path ends in
    /// the icon's file name, taken whole: a name that holds a `/` finds
    /// nothing.
    ///
    /// Fails with `ParseFailure` where the archive cannot be read, with
    /// `NotFound` about the file name where it is the final component of no
    /// entry's path, and with `ParseFailure` about `name` where the content
    /// is not valid UTF-8.
    pub fn get_icon_content(&self, name: &str) -> (r: Result<String, IconError>)
        ensures
            match fetched_as(self@, encode_utf8(file_name(name@))) {
                Ok(content) => if valid_utf8(content) {
                    r matches Ok(text) && text@ == decode_utf8(content)
                } else {
                    fails_about(r, ErrorKind::ParseFailure, name@)
                },
                Err(kind) => fails_with(r, kind),
            },
            fetched_as(self@, encode_utf8(file_name(name@))) == Err::<Seq<u8>, ErrorKind>(
                ErrorKind::NotFound,
            ) ==> fails_about(r, ErrorKind::NotFound, file_name(name@)),
    {
        let file = canonical_file_name(name);
        match archive_fetch_file(self.archive.as_slice(), file.as_str()) {
            Ok(content) => content_text(content.as_slice(), name),
            Err(e) => Err(e),
        }
    }
}

} // verus!

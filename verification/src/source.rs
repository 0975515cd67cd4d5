//! Sources of icons, as what was read of them: the children of a
//! directory, the bytes of an archive, the objects of a remote listing;
//! and the records that each stands for.

use crate::archive::{archive_listing, catalogue};
use crate::catalog::Backend;
use crate::error::{fails_with, ErrorKind, IconError};
use crate::names::{
    ends_in_extension, ends_in_icon_extension, has_extension, has_icon_extension, icon_stem, stem,
};
use crate::record::{ascending, listing, listing_of, IconRecord, RecordModel};
use crate::text::{chars_equal, to_chars};
use vstd::prelude::*;
use vstd::string::*;

verus! {

/// One child of a directory: its file name, its path, and whether it is a
/// file.
#[derive(Clone, Debug, PartialEq, Eq)]
pub struct DirectoryEntry {
    pub file_name: String,
    pub path: String,
    pub is_file: bool,
}

/// The model of a [`DirectoryEntry`].
pub struct DirectoryEntryModel {
    pub file_name: Seq<char>,
    pub path: Seq<char>,
    pub is_file: bool,
}

impl View for DirectoryEntry {
    type V = DirectoryEntryModel;

    open spec fn view(&self) -> DirectoryEntryModel {
        DirectoryEntryModel { file_name: self.file_name@, path: self.path@, is_file: self.is_file }
    }
}

impl DeepView for DirectoryEntry {
    type V = DirectoryEntryModel;

    open spec fn deep_view(&self) -> DirectoryEntryModel {
        self@
    }
}

/// One object of a remote listing: its name, the address of its content,
/// its type and its size in bytes.
#[derive(Clone, Debug, PartialEq, Eq)]
pub struct RemoteEntry {
    pub name: String,
    pub download_url: String,
    pub kind: String,
    pub size: u64,
}

/// The model of a [`RemoteEntry`].
pub struct RemoteEntryModel {
    pub name: Seq<char>,
    pub download_url: Seq<char>,
    pub kind: Seq<char>,
    pub size: u64,
}

impl View for RemoteEntry {
    type V = RemoteEntryModel;

    open spec fn view(&self) -> RemoteEntryModel {
        RemoteEntryModel {
            name: self.name@,
            download_url: self.download_url@,
            kind: self.kind@,
            size: self.size,
        }
    }
}

impl DeepView for RemoteEntry {
    type V = RemoteEntryModel;

    open spec fn deep_view(&self) -> RemoteEntryModel {
        self@
    }
}

/// What was read of a backend: the children of a directory, the bytes of an
/// archive, or the objects of a remote listing.
#[derive(Clone, Debug, PartialEq, Eq)]
pub enum IconSource {
    LocalDirectory { children: Vec<DirectoryEntry> },
    LocalArchive { data: Vec<u8> },
    RemoteApi { objects: Vec<RemoteEntry> },
}

/// The records that a source lists; `None` where it is an archive that
/// cannot be read.
pub open spec fn enumerated(source: IconSource) -> Option<Seq<RecordModel>> {
    match source {
        IconSource::LocalDirectory { children } => Some(
            listing(children.deep_view().filter_map(candidate_of_child())),
        ),
        IconSource::LocalArchive { data } => catalogue(data@),
        IconSource::RemoteApi { objects } => Some(
            listing(objects.deep_view().filter_map(candidate_of_object())),
        ),
    }
}

/// The kind of backend that a source was read of.
pub open spec fn backend_of(source: IconSource) -> Backend {
    match source {
        IconSource::LocalDirectory { .. } => Backend::LocalDirectory,
        IconSource::LocalArchive { .. } => Backend::LocalArchive,
        IconSource::RemoteApi { .. } => Backend::RemoteApi,
    }
}

/// The record that a child of a directory stands for, if any: a file whose
/// name is a stem followed by the extension. The record bears the stem, no
/// size, and the child's path as its locator.
pub open spec fn directory_candidate(entry: DirectoryEntryModel) -> Option<RecordModel> {
    if entry.is_file && has_extension(entry.file_name) {
        Some(RecordModel { name: stem(entry.file_name), size_bytes: None, locator: entry.path })
    } else {
        None
    }
}

/// [`directory_candidate`] as a function value.
pub open spec fn candidate_of_child() -> spec_fn(DirectoryEntryModel) -> Option<RecordModel> {
    |entry: DirectoryEntryModel| directory_candidate(entry)
}

/// The type of a remote object that is a file.
pub open spec fn file_kind() -> Seq<char> {
    seq!['f', 'i', 'l', 'e']
}

/// The record that an object of a remote listing stands for, if any: one
/// of type `file` whose name ends in the extension. The record bears the
/// name as it is, the size, and the content's address as its locator.
pub open spec fn remote_candidate(entry: RemoteEntryModel) -> Option<RecordModel> {
    if entry.kind == file_kind() && ends_in_extension(entry.name) {
        Some(
            RecordModel {
                name: entry.name,
                size_bytes: Some(entry.size),
                locator: entry.download_url,
            },
        )
    } else {
        None
    }
}

/// [`remote_candidate`] as a function value.
pub open spec fn candidate_of_object() -> spec_fn(RemoteEntryModel) -> Option<RecordModel> {
    |entry: RemoteEntryModel| remote_candidate(entry)
}

/// Why a fetch that was answered with this HTTP status failed: nothing for
/// a status from 200 to 299, `NotFound` for 404, `TransportFailure` for
/// every other status.
pub open spec fn status_failure(status: u16) -> Option<ErrorKind> {
    if 200 <= status <= 299 {
        None
    } else if status == 404 {
        Some(ErrorKind::NotFound)
    } else {
        Some(ErrorKind::TransportFailure)
    }
}

/// The record that a child of a directory stands for, if any.
pub fn child_record(entry: &DirectoryEntry) -> (r: Option<IconRecord>)
    ensures
        r.deep_view() == directory_candidate(entry@),
{
    if entry.is_file && has_icon_extension(entry.file_name.as_str()) {
        Some(
            IconRecord {
                name: icon_stem(entry.file_name.as_str()),
                size_bytes: None,
                locator: entry.path.clone(),
            },
        )
    } else {
        None
    }
}

/// The records of the icons among the children of a directory, ascending
/// by name.
pub fn directory_listing(entries: &Vec<DirectoryEntry>) -> (r: Vec<IconRecord>)
    ensures
        r.deep_view() == listing(entries.deep_view().filter_map(candidate_of_child())),
        ascending(r.deep_view()),
{
    let ghost all = entries.deep_view();
    let mut candidates: Vec<IconRecord> = Vec::new();
    let mut i: usize = 0;
    assert(all.take(0) =~= Seq::<DirectoryEntryModel>::empty());
    assert(candidates.deep_view() =~= all.take(0).filter_map(candidate_of_child()));
    while i < entries.len()
        invariant
            i <= entries.len(),
            all == entries.deep_view(),
            candidates.deep_view() == all.take(i as int).filter_map(candidate_of_child()),
        decreases entries.len() - i,
    {
        let ghost before = candidates.deep_view();
        proof {
            all.lemma_filter_map_take_succ(candidate_of_child(), i as int);
        }
        match child_record(&entries[i]) {
            Some(record) => {
                candidates.push(record);
                assert(candidates.deep_view() =~= before.push(record@));
            },
            None => {},
        }
        i = i + 1;
    }
    assert(all.take(all.len() as int) =~= all);
    listing_of(candidates)
}

/// The record that an object of a remote listing stands for, if any.
pub fn object_record(entry: &RemoteEntry) -> (r: Option<IconRecord>)
    ensures
        r.deep_view() == remote_candidate(entry@),
{
    let kind = to_chars(entry.kind.as_str());
    let mut file: Vec<char> = Vec::new();
    file.push('f');
    file.push('i');
    file.push('l');
    file.push('e');
    assert(file@ == file_kind());
    if chars_equal(kind.as_slice(), file.as_slice()) && ends_in_icon_extension(
        entry.name.as_str(),
    ) {
        Some(
            IconRecord {
                name: entry.name.clone(),
                size_bytes: Some(entry.size),
                locator: entry.download_url.clone(),
            },
        )
    } else {
        None
    }
}

/// The records of the icons among the objects of a remote listing,
/// ascending by name.
pub fn remote_listing(entries: &Vec<RemoteEntry>) -> (r: Vec<IconRecord>)
    ensures
        r.deep_view() == listing(entries.deep_view().filter_map(candidate_of_object())),
        ascending(r.deep_view()),
{
    let ghost all = entries.deep_view();
    let mut candidates: Vec<IconRecord> = Vec::new();
    let mut i: usize = 0;
    assert(all.take(0) =~= Seq::<RemoteEntryModel>::empty());
    assert(candidates.deep_view() =~= all.take(0).filter_map(candidate_of_object()));
    while i < entries.len()
        invariant
            i <= entries.len(),
            all == entries.deep_view(),
            candidates.deep_view() == all.take(i as int).filter_map(candidate_of_object()),
        decreases entries.len() - i,
    {
        let ghost before = candidates.deep_view();
        proof {
            all.lemma_filter_map_take_succ(candidate_of_object(), i as int);
        }
        match object_record(&entries[i]) {
            Some(record) => {
                candidates.push(record);
                assert(candidates.deep_view() =~= before.push(record@));
            },
            None => {},
        }
        i = i + 1;
    }
    assert(all.take(all.len() as int) =~= all);
    listing_of(candidates)
}

impl IconSource {
    /// The kind of backend that this source was read of.
    pub fn backend(&self) -> (r: Backend)
        ensures
            r == backend_of(*self),
    {
        match self {
            IconSource::LocalDirectory { .. } => Backend::LocalDirectory,
            IconSource::LocalArchive { .. } => Backend::LocalArchive,
            IconSource::RemoteApi { .. } => Backend::RemoteApi,
        }
    }

    /// The records of all icons of the source, ascending by name, no name
    /// twice.
    ///
    /// Fails with `ParseFailure` exactly where the source is an archive
    /// that cannot be read.
    pub fn enumerate(&self) -> (r: Result<Vec<IconRecord>, IconError>)
        ensures
            match enumerated(*self) {
                Some(records) => r matches Ok(v) && v.deep_view() == records,
                None => fails_with(r, ErrorKind::ParseFailure),
            },
            r matches Ok(v) ==> ascending(v.deep_view()),
    {
        match self {
            IconSource::LocalDirectory { children } => Ok(directory_listing(children)),
            IconSource::LocalArchive { data } => archive_listing(data.as_slice()),
            IconSource::RemoteApi { objects } => Ok(remote_listing(objects)),
        }
    }
}

/// Why a fetch that was answered with this HTTP status failed, if it did.
pub fn failure_of_status(status: u16) -> (r: Option<ErrorKind>)
    ensures
        r == status_failure(status),
{
    if 200 <= status && status <= 299 {
        None
    } else if status == 404 {
        Some(ErrorKind::NotFound)
    } else {
        Some(ErrorKind::TransportFailure)
    }
}

} // verus!

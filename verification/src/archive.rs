//! The archive backend: a gzip-compressed tar archive held as bytes. It is
//! read once into an index of its entries, each with its path and its
//! content; an entry is found by the final component of its path.

use crate::error::{fails_about, fails_with, ErrorKind, IconError};
use crate::names::{
    bare, ends_in_extension, ends_in_icon_extension, file_name, final_component,
    final_component_of, icon_extension, icon_stem, lemma_component_is_plain,
    lemma_component_of_component, stem,
};
use crate::record::{
    ascending, holds_name, leads, lemma_listing_exists, listing, listing_of, IconRecord,
    RecordModel,
};
use crate::text::bytes_equal;
use std::io::Read;
use vstd::prelude::*;
use vstd::string::*;
use vstd::utf8::{
    decode_utf8, decode_utf8_encode_utf8, encode_utf8, encode_utf8_decode_utf8,
    encode_utf8_valid_utf8, valid_utf8,
};

verus! {

/// `std::io::Error`: carried from the reading of an archive to where its
/// text is taken; nothing is known of what it holds.
#[verifier::external_type_specification]
#[verifier::external_body]
pub struct ExIoError(std::io::Error);

/// `core::str::Utf8Error`: what `core::str::from_utf8` gives for bytes that
/// are no text; nothing is known of what it holds.
#[verifier::external_type_specification]
#[verifier::external_body]
pub struct ExUtf8Error(core::str::Utf8Error);

/// `core::str::from_utf8` accepts exactly the byte sequences that are valid
/// UTF-8, and the text it gives back is their decoding.
pub assume_specification[ core::str::from_utf8 ](v: &[u8]) -> (r: Result<
    &str,
    core::str::Utf8Error,
>)
    ensures
        r is Ok <==> valid_utf8(v@),
        r matches Ok(s) ==> s@ == decode_utf8(v@),
;

/// The entries of the gzip-compressed tar archive `data`, each as its path
/// and its content, in archive order, as `tar` reads them through
/// `flate2`; `None` where the walk over the entries or the reading of a
/// content fails.
pub uninterp spec fn archive_entries(data: Seq<u8>) -> Option<Seq<(Seq<u8>, Seq<u8>)>>;

/// Walks the entries of the archive with `tar::Archive::entries` over a
/// `flate2::read::GzDecoder`, reads each entry to its end and collects it
/// with its `tar::Entry::path_bytes`. Claimed: what comes back is the same
/// for the same bytes, and is named [`archive_entries`]; an error stands
/// for `None`.
#[verifier::external_body]
fn read_entries(data: &[u8]) -> (r: Result<Vec<(Vec<u8>, Vec<u8>)>, std::io::Error>)
    ensures
        archive_entries(data@) == match r {
            Ok(entries) => Some(entries.deep_view()),
            Err(_) => None,
        },
{
    let mut archive = tar::Archive::new(flate2::read::GzDecoder::new(data));
    let mut entries = Vec::new();
    for entry in archive.entries()? {
        let mut entry = entry?;
        let mut content = Vec::new();
        entry.read_to_end(&mut content)?;
        entries.push((entry.path_bytes().into_owned(), content));
    }
    Ok(entries)
}

/// The text of a `std::io::Error`, as its `Display` gives it. Nothing is
/// claimed of the text.
#[verifier::external_body]
pub(crate) fn io_error_text(error: &std::io::Error) -> String {
    format!("{}", error)
}

/// The record that an archive entry of this path stands for, if any: the
/// final component of the path must be text that ends in the extension.
/// The record's name is the component's stem; its locator is the path
/// where the whole path is text, else the component.
pub open spec fn archive_candidate(path: Seq<u8>) -> Option<RecordModel> {
    let component = final_component(path);
    if valid_utf8(component) && ends_in_extension(decode_utf8(component)) {
        Some(
            RecordModel {
                name: stem(decode_utf8(component)),
                size_bytes: None,
                locator: if valid_utf8(path) {
                    decode_utf8(path)
                } else {
                    decode_utf8(component)
                },
            },
        )
    } else {
        None
    }
}

/// [`archive_candidate`] as a function value.
pub open spec fn candidate_of_path() -> spec_fn(Seq<u8>) -> Option<RecordModel> {
    |path: Seq<u8>| archive_candidate(path)
}

/// The records that the entries stand for, in archive order.
pub open spec fn archive_candidates(paths: Seq<Seq<u8>>) -> Seq<RecordModel> {
    paths.filter_map(candidate_of_path())
}

/// Entry `index` is the first whose path ends in the component `target`.
pub open spec fn first_entry_named(paths: Seq<Seq<u8>>, target: Seq<u8>, index: int) -> bool {
    &&& 0 <= index < paths.len()
    &&& final_component(paths[index]) == target
    &&& forall|k: int| 0 <= k < index ==> final_component(#[trigger] paths[k]) != target
}

/// Some entry's path ends in the component `target`.
pub open spec fn has_entry_named(paths: Seq<Seq<u8>>, target: Seq<u8>) -> bool {
    exists|index: int| first_entry_named(paths, target, index)
}

/// The model of an [`ArchiveIndex`]: the paths of the entries and the
/// content of each, in archive order.
pub struct IndexModel {
    pub paths: Seq<Seq<u8>>,
    pub contents: Seq<Seq<u8>>,
}

/// The paths of the entries, in their order.
pub open spec fn paths_of(entries: Seq<(Seq<u8>, Seq<u8>)>) -> Seq<Seq<u8>> {
    Seq::new(entries.len(), |i: int| entries[i].0)
}

/// The contents of the entries, in their order.
pub open spec fn contents_of(entries: Seq<(Seq<u8>, Seq<u8>)>) -> Seq<Seq<u8>> {
    Seq::new(entries.len(), |i: int| entries[i].1)
}

/// The index of these entries.
pub open spec fn index_of(entries: Seq<(Seq<u8>, Seq<u8>)>) -> IndexModel {
    IndexModel { paths: paths_of(entries), contents: contents_of(entries) }
}

/// Every entry has its content.
pub open spec fn paired(index: IndexModel) -> bool {
    index.paths.len() == index.contents.len()
}

/// What the index holds under the component `target`: the content of the
/// first entry whose path ends in it. Nothing where the component is
/// empty or no entry's path ends in it.
pub open spec fn held_as(index: IndexModel, target: Seq<u8>) -> Option<Seq<u8>> {
    if target.len() > 0 && has_entry_named(index.paths, target) {
        Some(index.contents[choose|at: int| first_entry_named(index.paths, target, at)])
    } else {
        None
    }
}

/// What the index holds under `locator`: what it holds under the
/// locator's final component.
pub open spec fn held(index: IndexModel, locator: Seq<char>) -> Option<Seq<u8>> {
    held_as(index, final_component(encode_utf8(locator)))
}

/// The records that the index lists.
pub open spec fn indexed(index: IndexModel) -> Seq<RecordModel> {
    listing(archive_candidates(index.paths))
}

/// The listing of the archive `data`; `None` where it cannot be read.
pub open spec fn catalogue(data: Seq<u8>) -> Option<Seq<RecordModel>> {
    match archive_entries(data) {
        Some(entries) => Some(indexed(index_of(entries))),
        None => None,
    }
}

/// What a fetch of the file named by the component `target` from the
/// archive `data` gives: the content of the first entry whose path ends in
/// that component. It fails with `ParseFailure` where the archive cannot
/// be read, and with `NotFound` where the component is empty or no
/// entry's path ends in it.
pub open spec fn fetched_as(data: Seq<u8>, target: Seq<u8>) -> Result<Seq<u8>, ErrorKind> {
    match archive_entries(data) {
        None => Err(ErrorKind::ParseFailure),
        Some(entries) => match held_as(index_of(entries), target) {
            Some(content) => Ok(content),
            None => Err(ErrorKind::NotFound),
        },
    }
}

/// What a fetch by `locator` from the archive `data` gives: what a fetch
/// of the locator's final component gives.
pub open spec fn fetched(data: Seq<u8>, locator: Seq<char>) -> Result<Seq<u8>, ErrorKind> {
    fetched_as(data, final_component(encode_utf8(locator)))
}

/// The index holds content under the locator of every record it lists.
pub proof fn lemma_listed_is_held(index: IndexModel, i: int)
    requires
        paired(index),
        0 <= i < indexed(index).len(),
    ensures
        held(index, indexed(index)[i].locator) is Some,
{
    lemma_listed_is_found(index.paths, i);
}

/// The record that an entry of this path stands for, if any.
pub fn entry_record(path: &[u8]) -> (r: Option<IconRecord>)
    ensures
        r.deep_view() == archive_candidate(path@),
{
    let component = final_component_of(path);
    match core::str::from_utf8(component) {
        Ok(file_name) => {
            if ends_in_icon_extension(file_name) {
                let name = icon_stem(file_name);
                let locator = match core::str::from_utf8(path) {
                    Ok(whole) => String::from_str(whole),
                    Err(_) => String::from_str(file_name),
                };
                Some(IconRecord { name, size_bytes: None, locator })
            } else {
                None
            }
        },
        Err(_) => None,
    }
}

/// A malformed archive, with the text of what went wrong.
pub(crate) fn malformed(error: &std::io::Error) -> (e: IconError)
    ensures
        e.kind == ErrorKind::ParseFailure,
{
    IconError { kind: ErrorKind::ParseFailure, detail: io_error_text(error) }
}

/// The listing of the records that entries of these paths stand for.
pub fn listing_of_paths(paths: &Vec<Vec<u8>>) -> (r: Vec<IconRecord>)
    ensures
        r.deep_view() == listing(archive_candidates(paths.deep_view())),
        ascending(r.deep_view()),
{
    let ghost all = paths.deep_view();
    let mut candidates: Vec<IconRecord> = Vec::new();
    let mut i: usize = 0;
    assert(all.take(0) =~= Seq::<Seq<u8>>::empty());
    assert(candidates.deep_view() =~= archive_candidates(all.take(0)));
    while i < paths.len()
        invariant
            i <= paths.len(),
            all == paths.deep_view(),
            candidates.deep_view() == archive_candidates(all.take(i as int)),
        decreases paths.len() - i,
    {
        let ghost before = candidates.deep_view();
        proof {
            all.lemma_filter_map_take_succ(candidate_of_path(), i as int);
            assert(all[i as int] == paths@[i as int]@);
        }
        match entry_record(paths[i].as_slice()) {
            Some(record) => {
                candidates.push(record);
                assert(candidates.deep_view() =~= before.push(record@));
            },
            None => {},
        }
        i = i + 1;
    }
    assert(all.take(all.len() as int) =~= all);
    listing_of(candidates)
}

/// The number of the first entry whose path ends in the component
/// `target`; `None` where no entry's path ends in it.
pub fn entry_called(paths: &Vec<Vec<u8>>, target: &[u8]) -> (r: Option<usize>)
    ensures
        match r {
            Some(index) => first_entry_named(paths.deep_view(), target@, index as int),
            None => !has_entry_named(paths.deep_view(), target@),
        },
{
    let ghost all = paths.deep_view();
    let mut i: usize = 0;
    while i < paths.len()
        invariant
            i <= paths.len(),
            all == paths.deep_view(),
            forall|k: int| 0 <= k < i ==> final_component(#[trigger] all[k]) != target@,
        decreases paths.len() - i,
    {
        assert(all[i as int] == paths@[i as int]@);
        if bytes_equal(final_component_of(paths[i].as_slice()), target) {
            return Some(i);
        }
        i = i + 1;
    }
    None
}

/// At most one entry is the first of its name.
pub proof fn lemma_first_entry_unique(paths: Seq<Seq<u8>>, target: Seq<u8>, i: int, j: int)
    requires
        first_entry_named(paths, target, i),
        first_entry_named(paths, target, j),
    ensures
        i == j,
{
    if i < j {
        assert(final_component(paths[i]) != target);
    } else if j < i {
        assert(final_component(paths[j]) != target);
    }
}

/// Where some entry's path ends in a component, one entry is the first
/// that does.
pub proof fn lemma_first_entry_exists(paths: Seq<Seq<u8>>, target: Seq<u8>, k: int)
    requires
        0 <= k < paths.len(),
        final_component(paths[k]) == target,
    ensures
        has_entry_named(paths, target),
    decreases k,
{
    if exists|j: int| 0 <= j < k && final_component(#[trigger] paths[j]) == target {
        let j = choose|j: int| 0 <= j < k && final_component(#[trigger] paths[j]) == target;
        lemma_first_entry_exists(paths, target, j);
    } else {
        assert(first_entry_named(paths, target, k));
    }
}

/// The locator of every listed record leads to an entry: a fetch by it does
/// not fail for want of one.
pub proof fn lemma_listed_is_found(paths: Seq<Seq<u8>>, i: int)
    requires
        0 <= i < listing(archive_candidates(paths)).len(),
    ensures
        ({
            let record = listing(archive_candidates(paths))[i];
            let target = final_component(encode_utf8(record.locator));
            target.len() > 0 && has_entry_named(paths, target)
        }),
{
    let candidates = archive_candidates(paths);
    lemma_listing_exists(candidates);
    let record = listing(candidates)[i];
    assert(leads(candidates, record));
    assert(candidates.contains(record));
    paths.lemma_filter_map_contains(candidate_of_path(), record);
    let path = choose|path: Seq<u8>| #[trigger]
        paths.contains(path) && candidate_of_path()(path) == Some(record);
    let k = choose|k: int| 0 <= k < paths.len() && paths[k] == path;
    let component = final_component(path);
    decode_utf8_encode_utf8(component);
    if valid_utf8(path) {
        decode_utf8_encode_utf8(path);
    } else {
        lemma_component_of_component(path);
    }
    assert(final_component(encode_utf8(record.locator)) == component);
    assert(component.len() > 0) by {
        if component.len() == 0 {
            assert(decode_utf8(component).len() == 0);
        }
    }
    lemma_first_entry_exists(paths, component, k);
}

/// Under a component that holds a `/` the index holds nothing: the final
/// component of a path holds none.
pub proof fn lemma_slash_is_not_held(index: IndexModel, target: Seq<u8>, at: int)
    requires
        0 <= at < target.len(),
        target[at] == 0x2fu8,
    ensures
        held_as(index, target) is None,
{
    if has_entry_named(index.paths, target) {
        let k = choose|k: int| first_entry_named(index.paths, target, k);
        lemma_component_is_plain(index.paths[k]);
        assert(final_component(index.paths[k])[at] != 0x2fu8);
    }
}

/// The record that an entry stands for is among the records that the
/// entries stand for.
proof fn lemma_candidate_is_among(paths: Seq<Seq<u8>>, k: int)
    requires
        0 <= k < paths.len(),
        archive_candidate(paths[k]) is Some,
    ensures
        archive_candidates(paths).contains(archive_candidate(paths[k]).unwrap()),
    decreases paths.len(),
{
    let f = candidate_of_path();
    let record = archive_candidate(paths[k]).unwrap();
    let rest = paths.drop_last();
    let front = rest.filter_map(f);
    if k == paths.len() - 1 {
        let all = front + seq![record];
        assert(archive_candidates(paths) == all);
        assert(all[all.len() - 1] == record);
    } else {
        assert(rest[k] == paths[k]);
        lemma_candidate_is_among(rest, k);
        let i = choose|i: int| 0 <= i < front.len() && front[i] == record;
        match f(paths.last()) {
            Some(last) => {
                let all = front + seq![last];
                assert(archive_candidates(paths) == all);
                assert(all[i] == record);
            },
            None => {
                assert(archive_candidates(paths) == front);
            },
        }
    }
}

/// A name and the file of an icon of that name: the file name is the name
/// without its extension, followed by the extension, and that is its stem.
proof fn lemma_file_of_name(name: Seq<char>)
    requires
        bare(name).len() > 0,
    ensures
        file_name(name) == bare(name) + icon_extension(),
        ends_in_extension(file_name(name)),
        stem(file_name(name)) == bare(name),
{
    let f = file_name(name);
    let b = bare(name);
    let ext = icon_extension();
    if ends_in_extension(name) {
        assert(name.subrange(name.len() - 4, name.len() as int) == ext);
        assert(b + ext =~= name);
    } else {
        assert(f.subrange(f.len() - 4, f.len() as int) =~= ext);
        assert(f.take(f.len() - 4) =~= name);
    }
}

/// The index holds the file of an icon's name exactly where it lists the
/// name, its extension left off. This is so for every name but the
/// extension alone, with or without a second extension behind it, and the
/// empty name.
pub proof fn lemma_held_iff_listed(index: IndexModel, name: Seq<char>)
    requires
        bare(name).len() > 0,
        bare(name) != icon_extension(),
    ensures
        held_as(index, encode_utf8(file_name(name))) is Some <==> holds_name(
            indexed(index),
            bare(name),
        ),
{
    let f = file_name(name);
    let b = bare(name);
    let ext = icon_extension();
    let target = encode_utf8(f);
    let paths = index.paths;
    let candidates = archive_candidates(paths);
    lemma_file_of_name(name);
    lemma_listing_exists(candidates);
    encode_utf8_valid_utf8(f);
    encode_utf8_decode_utf8(f);
    assert(target.len() > 0) by {
        if target.len() == 0 {
            assert(decode_utf8(target).len() == 0);
        }
    }
    if has_entry_named(paths, target) {
        let at = choose|at: int| first_entry_named(paths, target, at);
        let record = archive_candidate(paths[at]).unwrap();
        assert(record.name == b);
        lemma_candidate_is_among(paths, at);
        let k = choose|k: int| 0 <= k < candidates.len() && candidates[k] == record;
        assert(holds_name(indexed(index), candidates[k].name));
    }
    if holds_name(indexed(index), b) {
        let i = choose|i: int|
            0 <= i < indexed(index).len() && (#[trigger] indexed(index)[i]).name == b;
        let record = indexed(index)[i];
        assert(leads(candidates, record));
        assert(candidates.contains(record));
        paths.lemma_filter_map_contains(candidate_of_path(), record);
        let path = choose|path: Seq<u8>| #[trigger]
            paths.contains(path) && candidate_of_path()(path) == Some(record);
        let k = choose|k: int| 0 <= k < paths.len() && paths[k] == path;
        let component = final_component(path);
        let d = decode_utf8(component);
        decode_utf8_encode_utf8(component);
        assert(d.subrange(d.len() - 4, d.len() as int) == ext);
        if d.len() > 4 {
            assert(d.take(d.len() - 4) + d.subrange(d.len() - 4, d.len() as int) =~= d);
        } else {
            assert(d.subrange(0, d.len() as int) =~= d);
        }
        assert(d == f);
        lemma_first_entry_exists(paths, target, k);
    }
}

/// The entries of an archive, with the content of each.
#[derive(Debug)]
pub struct ArchiveIndex {
    paths: Vec<Vec<u8>>,
    contents: Vec<Vec<u8>>,
}

impl View for ArchiveIndex {
    type V = IndexModel;

    closed spec fn view(&self) -> IndexModel {
        IndexModel { paths: self.paths.deep_view(), contents: self.contents.deep_view() }
    }
}

impl ArchiveIndex {
    #[verifier::type_invariant]
    spec fn every_entry_has_its_content(self) -> bool {
        paired(self@)
    }

    /// The index of these entries, each given as its path and its content.
    pub fn from_entries(entries: Vec<(Vec<u8>, Vec<u8>)>) -> (index: ArchiveIndex)
        ensures
            index@ == index_of(entries.deep_view()),
            paired(index@),
    {
        let ghost all = entries.deep_view();
        let mut paths: Vec<Vec<u8>> = Vec::new();
        let mut contents: Vec<Vec<u8>> = Vec::new();
        assert(paths.deep_view() =~= paths_of(all).take(0));
        assert(contents.deep_view() =~= contents_of(all).take(0));
        for entry in it: entries
            invariant
                it.seq().len() == all.len(),
                forall|i: int| 0 <= i < all.len() ==> (#[trigger] it.seq()[i]).deep_view() == all[i],
                paths.deep_view() == paths_of(all).take(it.index()),
                contents.deep_view() == contents_of(all).take(it.index()),
        {
            let ghost paths_before = paths.deep_view();
            let ghost contents_before = contents.deep_view();
            let ghost at = it.index();
            assert(entry.deep_view() == all[at]);
            let (path, content) = entry;
            paths.push(path);
            contents.push(content);
            proof {
                assert(paths.deep_view() =~= paths_before.push(all[at].0));
                assert(contents.deep_view() =~= contents_before.push(all[at].1));
                assert(paths_of(all).take(at + 1) =~= paths_of(all).take(at).push(all[at].0));
                assert(contents_of(all).take(at + 1) =~= contents_of(all).take(at).push(all[at].1));
            }
        }
        proof {
            assert(paths_of(all).take(all.len() as int) =~= paths_of(all));
            assert(contents_of(all).take(all.len() as int) =~= contents_of(all));
        }
        ArchiveIndex { paths, contents }
    }

    /// How many entries the index holds.
    pub fn len(&self) -> (n: usize)
        ensures
            n == self@.paths.len(),
            paired(self@),
    {
        proof {
            use_type_invariant(self);
        }
        self.paths.len()
    }

    /// The records of the icons among the entries, ascending by name.
    pub fn listing(&self) -> (r: Vec<IconRecord>)
        ensures
            r.deep_view() == indexed(self@),
            ascending(r.deep_view()),
    {
        listing_of_paths(&self.paths)
    }

    /// The content of the first entry whose path ends in the component
    /// `target`.
    ///
    /// Fails with `NotFound` about `about` exactly where the component is
    /// empty or no entry's path ends in it.
    pub fn fetch_as(&self, target: &[u8], about: &str) -> (r: Result<Vec<u8>, IconError>)
        ensures
            match held_as(self@, target@) {
                Some(content) => r matches Ok(bytes) && bytes@ == content,
                None => fails_about(r, ErrorKind::NotFound, about@),
            },
    {
        proof {
            use_type_invariant(self);
        }
        if target.len() == 0 {
            return Err(IconError::new(ErrorKind::NotFound, about));
        }
        match entry_called(&self.paths, target) {
            None => Err(IconError::new(ErrorKind::NotFound, about)),
            Some(at) => {
                proof {
                    let chosen = choose|x: int| first_entry_named(self@.paths, target@, x);
                    lemma_first_entry_unique(self@.paths, target@, chosen, at as int);
                    assert(self.contents.deep_view()[at as int] == self.contents@[at as int]@);
                }
                Ok(self.contents[at].clone())
            },
        }
    }

    /// The content of the first entry whose path ends in the same
    /// component as `locator`.
    ///
    /// Fails with `NotFound` about `locator` exactly where that component
    /// is empty or no entry's path ends in it.
    pub fn fetch(&self, locator: &str) -> (r: Result<Vec<u8>, IconError>)
        ensures
            match held(self@, locator@) {
                Some(content) => r matches Ok(bytes) && bytes@ == content,
                None => fails_about(r, ErrorKind::NotFound, locator@),
            },
    {
        self.fetch_as(final_component_of(locator.as_bytes()), locator)
    }

    /// The content of the first entry whose path ends in the component
    /// `file_name`, taken whole: a file name that holds a `/` is the
    /// final component of no path.
    ///
    /// Fails with `NotFound` about `file_name` exactly where it is empty
    /// or no entry's path ends in it.
    pub fn fetch_file(&self, file_name: &str) -> (r: Result<Vec<u8>, IconError>)
        ensures
            match held_as(self@, encode_utf8(file_name@)) {
                Some(content) => r matches Ok(bytes) && bytes@ == content,
                None => fails_about(r, ErrorKind::NotFound, file_name@),
            },
    {
        self.fetch_as(file_name.as_bytes(), file_name)
    }
}

/// The index of the archive `data`.
///
/// Fails with `ParseFailure` exactly where the archive cannot be read.
pub fn unpack(data: &[u8]) -> (r: Result<ArchiveIndex, IconError>)
    ensures
        match archive_entries(data@) {
            Some(entries) => r matches Ok(index) && index@ == index_of(entries) && paired(index@),
            None => fails_with(r, ErrorKind::ParseFailure),
        },
{
    match read_entries(data) {
        Ok(entries) => Ok(ArchiveIndex::from_entries(entries)),
        Err(error) => Err(malformed(&error)),
    }
}

/// The records of the icons in the archive `data`, ascending by name, no
/// name twice.
///
/// Fails with `ParseFailure` exactly where the archive cannot be read.
pub fn archive_listing(data: &[u8]) -> (r: Result<Vec<IconRecord>, IconError>)
    ensures
        match catalogue(data@) {
            Some(records) => r matches Ok(v) && v.deep_view() == records,
            None => fails_with(r, ErrorKind::ParseFailure),
        },
        r matches Ok(v) ==> ascending(v.deep_view()),
{
    match unpack(data) {
        Ok(index) => Ok(index.listing()),
        Err(e) => Err(e),
    }
}

/// The content of the first entry of the archive `data` whose path ends in
/// the same component as `locator`.
///
/// Fails with `ParseFailure` where the archive cannot be read, and with
/// `NotFound` about `locator` where it can and the locator's final
/// component is empty or no entry's path ends in it.
pub fn archive_fetch(data: &[u8], locator: &str) -> (r: Result<Vec<u8>, IconError>)
    ensures
        match fetched(data@, locator@) {
            Ok(content) => r matches Ok(bytes) && bytes@ == content,
            Err(kind) => fails_with(r, kind),
        },
        fetched(data@, locator@) == Err::<Seq<u8>, ErrorKind>(ErrorKind::NotFound) ==> fails_about(
            r,
            ErrorKind::NotFound,
            locator@,
        ),
{
    match unpack(data) {
        Ok(index) => index.fetch(locator),
        Err(e) => Err(e),
    }
}

/// The content of the first entry of the archive `data` whose path ends in
/// the component `file_name`, taken whole.
///
/// Fails with `ParseFailure` where the archive cannot be read, and with
/// `NotFound` about `file_name` where it can and the file name is empty
/// or the final component of no entry's path.
pub fn archive_fetch_file(data: &[u8], file_name: &str) -> (r: Result<Vec<u8>, IconError>)
    ensures
        match fetched_as(data@, encode_utf8(file_name@)) {
            Ok(content) => r matches Ok(bytes) && bytes@ == content,
            Err(kind) => fails_with(r, kind),
        },
        fetched_as(data@, encode_utf8(file_name@)) == Err::<Seq<u8>, ErrorKind>(
            ErrorKind::NotFound,
        ) ==> fails_about(r, ErrorKind::NotFound, file_name@),
{
    match unpack(data) {
        Ok(index) => index.fetch_file(file_name),
        Err(e) => Err(e),
    }
}

} // verus!

//! The catalogue of one source: its listing, the records whose names hold
//! a pattern, the record that answers to a name, and the batch that
//! exports by name, the same for every backend but for the case rule of
//! the search.

use crate::error::{fails_about, fails_with, ErrorKind, IconError};
use crate::export::{in_order, planned, BatchModel, ExportBatch, NamedModel};
use crate::names::{answers_to, bare, chars_answer_to, extension_chars};
use crate::record::{
    ascending, holds_name, lemma_ascending_distinct, listing, listing_of, names_of, IconRecord,
    RecordModel,
};
use crate::source::{backend_of, enumerated, IconSource};
use crate::text::{
    chars_contain, chars_end_with, chars_equal, chars_lowered, contains, lowered, precedes,
    to_chars,
};
use vstd::prelude::*;

verus! {

/// The three kinds of backend.
#[derive(Clone, Copy, Debug, PartialEq, Eq, Structural)]
pub enum Backend {
    /// A directory of icon files.
    LocalDirectory,
    /// A gzip-compressed tar archive of icon files.
    LocalArchive,
    /// A listing served over the network.
    RemoteApi,
}

/// Whether a search of this backend ignores the case of ASCII letters: the
/// remote backend's does, the local ones' do not.
pub open spec fn folds_case(backend: Backend) -> bool {
    backend == Backend::RemoteApi
}

impl Backend {
    /// Whether a search of this backend ignores the case of ASCII letters.
    pub fn ignores_case(&self) -> (r: bool)
        ensures
            r == folds_case(*self),
    {
        match self {
            Backend::RemoteApi => true,
            _ => false,
        }
    }
}

/// The name, its extension left off, holds the pattern; with `fold`, both
/// taken in lower case.
pub open spec fn hit(name: Seq<char>, pattern: Seq<char>, fold: bool) -> bool {
    if fold {
        contains(lowered(bare(name)), lowered(pattern))
    } else {
        contains(bare(name), pattern)
    }
}

/// [`hit`] on a record's name, as a function value.
pub open spec fn hits(pattern: Seq<char>, fold: bool) -> spec_fn(RecordModel) -> bool {
    |record: RecordModel| hit(record.name, pattern, fold)
}

/// The records whose names hold the pattern, in their order.
pub open spec fn found(records: Seq<RecordModel>, pattern: Seq<char>, fold: bool) -> Seq<
    RecordModel,
> {
    records.filter(hits(pattern, fold))
}

/// `at` is the first record of exactly this name.
pub open spec fn first_named(records: Seq<RecordModel>, name: Seq<char>, at: int) -> bool {
    &&& 0 <= at < records.len()
    &&& records[at].name == name
    &&& forall|k: int| 0 <= k < at ==> (#[trigger] records[k]).name != name
}

/// `at` is the first record whose name is the requested one, or is it with
/// the extension put on or left off.
pub open spec fn first_alike(records: Seq<RecordModel>, requested: Seq<char>, at: int) -> bool {
    &&& 0 <= at < records.len()
    &&& answers_to(records[at].name, requested)
    &&& forall|k: int| 0 <= k < at ==> !answers_to((#[trigger] records[k]).name, requested)
}

/// `at` is the record that answers a request for the name: the first of
/// exactly that name; where no record bears it exactly, the first whose
/// name is it with the extension put on or left off.
pub open spec fn first_answering(records: Seq<RecordModel>, requested: Seq<char>, at: int) -> bool {
    if holds_name(records, requested) {
        first_named(records, requested, at)
    } else {
        first_alike(records, requested, at)
    }
}

/// Some record answers to the requested name.
pub open spec fn answered(records: Seq<RecordModel>, requested: Seq<char>) -> bool {
    exists|i: int| 0 <= i < records.len() && answers_to((#[trigger] records[i]).name, requested)
}

/// `part` is `whole` with some records left out: `places` tells, in
/// strictly rising order, where each record of `part` stands in `whole`.
pub open spec fn embeds(part: Seq<RecordModel>, whole: Seq<RecordModel>, places: Seq<int>) -> bool {
    &&& places.len() == part.len()
    &&& forall|i: int|
        0 <= i < part.len() ==> 0 <= #[trigger] places[i] < whole.len() && whole[places[i]]
            == part[i]
    &&& forall|i: int, j: int|
        0 <= i < j < part.len() ==> #[trigger] places[i] < #[trigger] places[j]
}

/// What a search finds is part of what was searched, in the same order, and
/// every name found holds the pattern; nothing that holds it is left out.
pub proof fn lemma_found(records: Seq<RecordModel>, pattern: Seq<char>, fold: bool)
    ensures
        exists|places: Seq<int>| embeds(found(records, pattern, fold), records, places),
        forall|i: int|
            0 <= i < found(records, pattern, fold).len() ==> hit(
                (#[trigger] found(records, pattern, fold)[i]).name,
                pattern,
                fold,
            ),
        forall|k: int|
            0 <= k < records.len() && hit((#[trigger] records[k]).name, pattern, fold) ==> found(
                records,
                pattern,
                fold,
            ).contains(records[k]),
    decreases records.len(),
{
    let pred = hits(pattern, fold);
    let part = found(records, pattern, fold);
    reveal(Seq::filter);
    if records.len() == 0 {
        assert(embeds(part, records, Seq::<int>::empty()));
    } else {
        let front = records.drop_last();
        let last = records.last();
        lemma_found(front, pattern, fold);
        let front_part = found(front, pattern, fold);
        let front_places = choose|places: Seq<int>| embeds(front_part, front, places);
        if pred(last) {
            assert(part == front_part.push(last));
            let places = front_places.push(records.len() - 1);
            assert(embeds(part, records, places)) by {
                assert forall|i: int| 0 <= i < part.len() implies 0 <= #[trigger] places[i]
                    < records.len() && records[places[i]] == part[i] by {
                    if i < front_part.len() {
                        assert(places[i] == front_places[i]);
                        assert(front[front_places[i]] == front_part[i]);
                    }
                }
                assert forall|i: int, j: int| 0 <= i < j < part.len() implies #[trigger] places[i]
                    < #[trigger] places[j] by {
                    assert(places[i] == front_places[i]);
                    if j < front_part.len() {
                        assert(places[j] == front_places[j]);
                    }
                }
            }
            assert forall|i: int| 0 <= i < part.len() implies hit(
                (#[trigger] part[i]).name,
                pattern,
                fold,
            ) by {
                if i < front_part.len() {
                    assert(part[i] == front_part[i]);
                }
            }
        } else {
            assert(part == front_part);
            assert(embeds(part, records, front_places)) by {
                assert forall|i: int| 0 <= i < part.len() implies 0 <= #[trigger] front_places[i]
                    < records.len() && records[front_places[i]] == part[i] by {
                    assert(front[front_places[i]] == front_part[i]);
                }
            }
        }
        assert forall|k: int|
            0 <= k < records.len() && hit(
                (#[trigger] records[k]).name,
                pattern,
                fold,
            ) implies part.contains(records[k]) by {
            if k < front.len() {
                assert(front[k] == records[k]);
                assert(front_part.contains(front[k]));
                let i = choose|i: int| 0 <= i < front_part.len() && front_part[i] == front[k];
                assert(part[i] == records[k]);
            } else {
                assert(part[part.len() - 1] == records[k]);
            }
        }
    }
}

/// What a search finds in ascending records is ascending.
pub proof fn lemma_found_ascending(records: Seq<RecordModel>, pattern: Seq<char>, fold: bool)
    requires
        ascending(records),
    ensures
        ascending(found(records, pattern, fold)),
{
    lemma_found(records, pattern, fold);
    let part = found(records, pattern, fold);
    let places = choose|places: Seq<int>| embeds(part, records, places);
    assert forall|i: int, j: int| 0 <= i < j < part.len() implies precedes(
        (#[trigger] part[i]).name,
        (#[trigger] part[j]).name,
    ) by {
        assert(places[i] < places[j]);
        assert(records[places[i]] == part[i]);
        assert(records[places[j]] == part[j]);
    }
}

/// Whether the name, its extension left off, holds the pattern; with
/// `fold`, both taken in lower case.
pub fn name_hits(name: &str, pattern: &str, fold: bool) -> (r: bool)
    ensures
        r == hit(name@, pattern@, fold),
{
    let chars = to_chars(name);
    let sought = to_chars(pattern);
    let ext = extension_chars();
    let n = chars.len();
    let keep = if chars_end_with(chars.as_slice(), ext.as_slice()) {
        n - 4
    } else {
        n
    };
    let slice = chars.as_slice();
    let inner = &slice[0..keep];
    proof {
        assert(chars@.subrange(0, keep as int) == chars@.take(keep as int));
        assert(chars@.take(n as int) == chars@);
        assert(inner@ == bare(name@));
    }
    if fold {
        let a = chars_lowered(inner);
        let b = chars_lowered(sought.as_slice());
        chars_contain(a.as_slice(), b.as_slice())
    } else {
        chars_contain(inner, sought.as_slice())
    }
}

/// The records whose names, their extension left off, hold the pattern, in
/// the order in which they stand; with `fold`, the case of ASCII letters is
/// ignored.
pub fn search_records(records: &Vec<IconRecord>, pattern: &str, fold: bool) -> (r: Vec<IconRecord>)
    ensures
        r.deep_view() == found(records.deep_view(), pattern@, fold),
{
    let ghost all = records.deep_view();
    let ghost pred = hits(pattern@, fold);
    let mut kept: Vec<IconRecord> = Vec::new();
    let mut i: usize = 0;
    proof {
        reveal(Seq::filter);
        assert(all.take(0) =~= Seq::<RecordModel>::empty());
        assert(kept.deep_view() =~= all.take(0).filter(pred));
    }
    while i < records.len()
        invariant
            i <= records.len(),
            all == records.deep_view(),
            pred == hits(pattern@, fold),
            kept.deep_view() == all.take(i as int).filter(pred),
        decreases records.len() - i,
    {
        let ghost before = kept.deep_view();
        proof {
            assert(all.take(i + 1) =~= all.take(i as int).push(all[i as int]));
            all.take(i as int).lemma_filter_push(all[i as int], pred);
        }
        if name_hits(records[i].name.as_str(), pattern, fold) {
            let copy = records[i].duplicate();
            kept.push(copy);
            assert(kept.deep_view() =~= before.push(all[i as int]));
        }
        i = i + 1;
    }
    assert(all.take(all.len() as int) =~= all);
    kept
}

/// The records to show: those whose names hold `search` where one is
/// given, else all of them.
pub open spec fn selected(records: Seq<RecordModel>, search: Option<Seq<char>>, fold: bool) -> Seq<
    RecordModel,
> {
    match search {
        Some(pattern) => found(records, pattern, fold),
        None => records,
    }
}

/// Where the record stands that answers a request for `name`: the first of
/// exactly that name, else the first whose name is it with the extension
/// put on or left off; `None` where no record answers to it.
pub fn position_of(records: &Vec<IconRecord>, name: &str) -> (r: Option<usize>)
    ensures
        match r {
            Some(at) => first_answering(records.deep_view(), name@, at as int),
            None => !answered(records.deep_view(), name@),
        },
{
    let ghost all = records.deep_view();
    let requested = to_chars(name);
    let mut i: usize = 0;
    while i < records.len()
        invariant
            i <= records.len(),
            all == records.deep_view(),
            requested@ == name@,
            forall|k: int| 0 <= k < i ==> (#[trigger] all[k]).name != name@,
        decreases records.len() - i,
    {
        let own = to_chars(records[i].name.as_str());
        assert(own@ == all[i as int].name);
        if chars_equal(own.as_slice(), requested.as_slice()) {
            assert(first_named(all, name@, i as int));
            return Some(i);
        }
        i = i + 1;
    }
    assert(!holds_name(all, name@));
    let mut j: usize = 0;
    while j < records.len()
        invariant
            j <= records.len(),
            all == records.deep_view(),
            requested@ == name@,
            !holds_name(all, name@),
            forall|k: int| 0 <= k < j ==> !answers_to((#[trigger] all[k]).name, name@),
        decreases records.len() - j,
    {
        let own = to_chars(records[j].name.as_str());
        assert(own@ == all[j as int].name);
        if chars_answer_to(own.as_slice(), requested.as_slice()) {
            assert(first_alike(all, name@, j as int));
            return Some(j);
        }
        j = j + 1;
    }
    None
}

/// The record that answers a request for `name`: the first of exactly that
/// name, else the first whose name is it with the extension put on or left
/// off.
///
/// Fails with `IconNotFound` about `name` exactly where no record answers.
pub fn resolve_record(records: &Vec<IconRecord>, name: &str) -> (r: Result<IconRecord, IconError>)
    ensures
        match r {
            Ok(record) => exists|at: int| #[trigger]
                first_answering(records.deep_view(), name@, at) && record@
                    == records.deep_view()[at],
            Err(_) => !answered(records.deep_view(), name@) && fails_about(
                r,
                ErrorKind::IconNotFound,
                name@,
            ),
        },
{
    match position_of(records, name) {
        Some(at) => Ok(records[at].duplicate()),
        None => Err(IconError::icon_not_found(name)),
    }
}

/// At most one record answers a request for a name.
pub proof fn lemma_first_answering_unique(
    records: Seq<RecordModel>,
    requested: Seq<char>,
    a: int,
    b: int,
)
    requires
        first_answering(records, requested, a),
        first_answering(records, requested, b),
    ensures
        a == b,
{
    if holds_name(records, requested) {
        if a < b {
            assert(records[a].name == requested);
        } else if b < a {
            assert(records[b].name == requested);
        }
    } else {
        if a < b {
            assert(answers_to(records[a].name, requested));
        } else if b < a {
            assert(answers_to(records[b].name, requested));
        }
    }
}

/// Some record answers to a name exactly where one record answers a
/// request for it.
pub proof fn lemma_answered(records: Seq<RecordModel>, requested: Seq<char>)
    ensures
        answered(records, requested) <==> exists|at: int|
            first_answering(records, requested, at),
{
    if holds_name(records, requested) {
        let i = choose|i: int| 0 <= i < records.len() && (#[trigger] records[i]).name == requested;
        lemma_first_named_up_to(records, requested, i);
        let at = choose|at: int| first_named(records, requested, at);
        assert(first_answering(records, requested, at));
        assert(answers_to(records[i].name, requested));
    } else {
        if answered(records, requested) {
            let i = choose|i: int|
                0 <= i < records.len() && answers_to((#[trigger] records[i]).name, requested);
            lemma_first_alike_up_to(records, requested, i);
            let at = choose|at: int| first_alike(records, requested, at);
            assert(first_answering(records, requested, at));
        }
        if exists|at: int| first_answering(records, requested, at) {
            let at = choose|at: int| first_answering(records, requested, at);
            assert(answers_to(records[at].name, requested));
        }
    }
}

/// Where record `i` bears the name, some record up to `i` is the first that
/// does.
proof fn lemma_first_named_up_to(records: Seq<RecordModel>, name: Seq<char>, i: int)
    requires
        0 <= i < records.len(),
        records[i].name == name,
    ensures
        exists|at: int| first_named(records, name, at),
    decreases i,
{
    if exists|k: int| 0 <= k < i && (#[trigger] records[k]).name == name {
        let k = choose|k: int| 0 <= k < i && (#[trigger] records[k]).name == name;
        lemma_first_named_up_to(records, name, k);
    } else {
        assert(first_named(records, name, i));
    }
}

/// Where the name of record `i` is the requested one, with the extension
/// or without, some record up to `i` is the first of which that holds.
proof fn lemma_first_alike_up_to(records: Seq<RecordModel>, requested: Seq<char>, i: int)
    requires
        0 <= i < records.len(),
        answers_to(records[i].name, requested),
    ensures
        exists|at: int| first_alike(records, requested, at),
    decreases i,
{
    if exists|k: int| 0 <= k < i && answers_to((#[trigger] records[k]).name, requested) {
        let k = choose|k: int| 0 <= k < i && answers_to((#[trigger] records[k]).name, requested);
        lemma_first_alike_up_to(records, requested, k);
    } else {
        assert(first_alike(records, requested, i));
    }
}

/// In ascending records, a request for the name of a record is answered
/// with that record.
pub proof fn lemma_answers_for_itself(records: Seq<RecordModel>, i: int)
    requires
        ascending(records),
        0 <= i < records.len(),
    ensures
        first_answering(records, records[i].name, i),
{
    let name = records[i].name;
    assert(0 <= i < records.len() && records[i].name == name);
    assert(holds_name(records, name));
    assert forall|k: int| 0 <= k < i implies (#[trigger] records[k]).name != name by {
        lemma_ascending_distinct(records, k, i);
    }
}

/// The model of an [`IconCatalog`]: the kind of backend, and the records
/// listed.
pub struct CatalogModel {
    pub backend: Backend,
    pub records: Seq<RecordModel>,
}

/// The catalogue of one source: its listing, with what is asked of it under
/// the rules of its backend.
#[derive(Debug)]
pub struct IconCatalog {
    backend: Backend,
    records: Vec<IconRecord>,
}

impl View for IconCatalog {
    type V = CatalogModel;

    closed spec fn view(&self) -> CatalogModel {
        CatalogModel { backend: self.backend, records: self.records.deep_view() }
    }
}

/// The batch begins: it exports the requested names from the records of a
/// backend into the directory `dir`, with nothing settled.
pub open spec fn begun(
    batch: BatchModel,
    records: Seq<RecordModel>,
    names: Seq<Seq<char>>,
    dir: Seq<char>,
    backend: Backend,
) -> bool {
    in_order(batch) && batch == (BatchModel {
        names,
        tasks: planned(records, names, dir, backend),
        results: Seq::<NamedModel>::empty(),
    })
}

impl IconCatalog {
    #[verifier::type_invariant]
    spec fn listed(self) -> bool {
        ascending(self@.records)
    }

    /// The catalogue of these records under the rules of `backend`: the
    /// listing of the records, ascending by name, of several of one name
    /// the first.
    pub fn new(backend: Backend, records: Vec<IconRecord>) -> (catalog: IconCatalog)
        ensures
            catalog@ == (CatalogModel { backend, records: listing(records.deep_view()) }),
            ascending(catalog@.records),
    {
        IconCatalog { backend, records: listing_of(records) }
    }

    /// The catalogue of what was read of a backend.
    ///
    /// Fails with `ParseFailure` exactly where the source is an archive
    /// that cannot be read.
    pub fn open(source: &IconSource) -> (r: Result<IconCatalog, IconError>)
        ensures
            match enumerated(*source) {
                Some(records) => r matches Ok(catalog) && catalog@ == (CatalogModel {
                    backend: backend_of(*source),
                    records,
                }) && ascending(records),
                None => fails_with(r, ErrorKind::ParseFailure),
            },
    {
        match source.enumerate() {
            Ok(records) => Ok(IconCatalog { backend: source.backend(), records }),
            Err(e) => Err(e),
        }
    }

    /// The kind of backend.
    pub fn backend(&self) -> (r: Backend)
        ensures
            r == self@.backend,
    {
        self.backend
    }

    /// The records of all icons, ascending by name, no name twice.
    pub fn list(&self) -> (r: &Vec<IconRecord>)
        ensures
            r.deep_view() == self@.records,
            ascending(r.deep_view()),
    {
        proof {
            use_type_invariant(self);
        }
        &self.records
    }

    /// The records whose names, their extension left off, hold `pattern`,
    /// in the listing's order. The case of ASCII letters counts with the
    /// local backends, and does not with the remote one.
    pub fn search(&self, pattern: &str) -> (r: Vec<IconRecord>)
        ensures
            r.deep_view() == found(self@.records, pattern@, folds_case(self@.backend)),
            ascending(r.deep_view()),
    {
        proof {
            use_type_invariant(self);
            lemma_found_ascending(self@.records, pattern@, folds_case(self@.backend));
        }
        search_records(&self.records, pattern, self.backend.ignores_case())
    }

    /// The records to show: those that [`Self::search`] finds for `search`
    /// where one is given, else all of them.
    pub fn select(&self, search: Option<&str>) -> (r: Vec<IconRecord>)
        ensures
            r.deep_view() == selected(
                self@.records,
                match search {
                    Some(pattern) => Some(pattern@),
                    None => None,
                },
                folds_case(self@.backend),
            ),
    {
        match search {
            Some(pattern) => self.search(pattern),
            None => copy_records(&self.records),
        }
    }

    /// The record that answers a request for `name`: the first of exactly
    /// that name, else the first whose name is it with the extension put
    /// on or left off.
    ///
    /// Fails with `IconNotFound` about `name` exactly where no record
    /// answers.
    pub fn resolve(&self, name: &str) -> (r: Result<IconRecord, IconError>)
        ensures
            if answered(self@.records, name@) {
                r matches Ok(record) && exists|at: int| #[trigger]
                    first_answering(self@.records, name@, at) && record@ == self@.records[at]
            } else {
                fails_about(r, ErrorKind::IconNotFound, name@)
            },
    {
        resolve_record(&self.records, name)
    }

    /// The batch that exports the icons of the requested names into the
    /// directory `destination_dir`, each to the file of its name: a task
    /// for every name to which a record answers. Nothing is attempted yet.
    pub fn export_many(&self, names: &Vec<String>, destination_dir: &str) -> (batch: ExportBatch)
        ensures
            begun(batch@, self@.records, names.deep_view(), destination_dir@, self@.backend),
    {
        ExportBatch::new(&self.records, names, destination_dir, self.backend)
    }

    /// The batch that exports every icon of the listing into the directory
    /// `destination_dir`: [`Self::export_many`] of all names listed.
    pub fn export_all(&self, destination_dir: &str) -> (batch: ExportBatch)
        ensures
            begun(
                batch@,
                self@.records,
                names_of(self@.records),
                destination_dir@,
                self@.backend,
            ),
    {
        let names = names_of_records(&self.records);
        ExportBatch::new(&self.records, &names, destination_dir, self.backend)
    }
}

/// The same records, anew.
pub fn copy_records(records: &Vec<IconRecord>) -> (r: Vec<IconRecord>)
    ensures
        r.deep_view() == records.deep_view(),
{
    let ghost all = records.deep_view();
    let mut r: Vec<IconRecord> = Vec::new();
    let mut i: usize = 0;
    while i < records.len()
        invariant
            i <= records.len(),
            all == records.deep_view(),
            r.deep_view() == all.take(i as int),
        decreases records.len() - i,
    {
        let ghost before = r.deep_view();
        r.push(records[i].duplicate());
        assert(r.deep_view() =~= before.push(all[i as int]));
        assert(all.take(i + 1) =~= all.take(i as int).push(all[i as int]));
        i = i + 1;
    }
    assert(all.take(all.len() as int) =~= all);
    r
}

/// The names of the records, in their order.
pub fn names_of_records(records: &Vec<IconRecord>) -> (names: Vec<String>)
    ensures
        names.deep_view() == names_of(records.deep_view()),
{
    let ghost all = names_of(records.deep_view());
    let mut names: Vec<String> = Vec::new();
    let mut i: usize = 0;
    while i < records.len()
        invariant
            i <= records.len(),
            all == names_of(records.deep_view()),
            names.deep_view() == all.take(i as int),
        decreases records.len() - i,
    {
        let ghost before = names.deep_view();
        names.push(records[i].name.clone());
        assert(names.deep_view() =~= before.push(all[i as int]));
        assert(all.take(i + 1) =~= all.take(i as int).push(all[i as int]));
        i = i + 1;
    }
    assert(all.take(all.len() as int) =~= all);
    names
}

} // verus!

//! Icon records, and listings: records in ascending order of name, no name
//! twice.

use crate::text::{
    chars_equal, chars_precede, lemma_precedes_irreflexive, lemma_precedes_total,
    lemma_precedes_transitive, precedes, to_chars,
};
use vstd::prelude::*;
use vstd::string::*;

verus! {

/// One icon: its name, its size where the source tells it, and the locator
/// that leads to its content.
#[derive(Clone, Debug, PartialEq, Eq)]
pub struct IconRecord {
    pub name: String,
    pub size_bytes: Option<u64>,
    pub locator: String,
}

/// The model of an [`IconRecord`].
pub struct RecordModel {
    pub name: Seq<char>,
    pub size_bytes: Option<u64>,
    pub locator: Seq<char>,
}

impl View for IconRecord {
    type V = RecordModel;

    open spec fn view(&self) -> RecordModel {
        RecordModel { name: self.name@, size_bytes: self.size_bytes, locator: self.locator@ }
    }
}

impl DeepView for IconRecord {
    type V = RecordModel;

    open spec fn deep_view(&self) -> RecordModel {
        self@
    }
}

/// The names of the records, in their order.
pub open spec fn names_of(records: Seq<RecordModel>) -> Seq<Seq<char>> {
    Seq::new(records.len(), |i: int| records[i].name)
}

/// Each record's name comes strictly before the names of all that follow.
pub open spec fn ascending(records: Seq<RecordModel>) -> bool {
    forall|i: int, j: int|
        0 <= i < j < records.len() ==> precedes(
            (#[trigger] records[i]).name,
            (#[trigger] records[j]).name,
        )
}

/// Each name comes strictly before all that follow: none stands twice.
pub open spec fn rising(names: Seq<Seq<char>>) -> bool {
    forall|i: int, j: int|
        0 <= i < j < names.len() ==> precedes(#[trigger] names[i], #[trigger] names[j])
}

/// Some record bears the name.
pub open spec fn holds_name(records: Seq<RecordModel>, name: Seq<char>) -> bool {
    exists|i: int| 0 <= i < records.len() && (#[trigger] records[i]).name == name
}

/// `candidates[at]` is the first candidate of its name.
pub open spec fn first_of_name(candidates: Seq<RecordModel>, at: int) -> bool {
    &&& 0 <= at < candidates.len()
    &&& forall|k: int| 0 <= k < at ==> (#[trigger] candidates[k]).name != candidates[at].name
}

/// `record` is among the candidates, as the first of its name.
pub open spec fn leads(candidates: Seq<RecordModel>, record: RecordModel) -> bool {
    exists|at: int| first_of_name(candidates, at) && candidates[at] == record
}

/// `listing` lists `candidates`: it is ascending, each of its records is the
/// first candidate of its name, and every candidate's name is in it.
pub open spec fn is_listing_of(listing: Seq<RecordModel>, candidates: Seq<RecordModel>) -> bool {
    &&& ascending(listing)
    &&& forall|i: int| 0 <= i < listing.len() ==> leads(candidates, #[trigger] listing[i])
    &&& forall|k: int|
        0 <= k < candidates.len() ==> holds_name(listing, (#[trigger] candidates[k]).name)
}

/// The listing of `candidates`: the one sequence that lists them.
pub open spec fn listing(candidates: Seq<RecordModel>) -> Seq<RecordModel> {
    choose|l: Seq<RecordModel>| is_listing_of(l, candidates)
}

/// In an ascending sequence no two records bear the same name.
pub proof fn lemma_ascending_distinct(records: Seq<RecordModel>, i: int, j: int)
    requires
        ascending(records),
        0 <= i < records.len(),
        0 <= j < records.len(),
        i != j,
    ensures
        records[i].name != records[j].name,
{
    if i < j {
        assert(precedes(records[i].name, records[j].name));
        lemma_precedes_irreflexive(records[i].name);
    } else {
        assert(precedes(records[j].name, records[i].name));
        lemma_precedes_irreflexive(records[i].name);
    }
}

/// Candidates have one listing only.
pub proof fn lemma_listing_unique(
    a: Seq<RecordModel>,
    b: Seq<RecordModel>,
    candidates: Seq<RecordModel>,
)
    requires
        is_listing_of(a, candidates),
        is_listing_of(b, candidates),
    ensures
        a == b,
{
    lemma_same_names_same_order(a, b, candidates, 0);
    assert(a =~= b);
}

/// What lists the candidates is their listing.
pub proof fn lemma_listing_is(l: Seq<RecordModel>, candidates: Seq<RecordModel>)
    requires
        is_listing_of(l, candidates),
    ensures
        l == listing(candidates),
{
    lemma_listing_unique(l, listing(candidates), candidates);
}

/// Two listings of the same candidates agree from position `from` on, given
/// that they agree before it.
proof fn lemma_same_names_same_order(
    a: Seq<RecordModel>,
    b: Seq<RecordModel>,
    candidates: Seq<RecordModel>,
    from: int,
)
    requires
        is_listing_of(a, candidates),
        is_listing_of(b, candidates),
        0 <= from <= a.len(),
        from <= b.len(),
        forall|i: int| 0 <= i < from ==> a[i] == b[i],
    ensures
        a.len() == b.len(),
        forall|i: int| 0 <= i < a.len() ==> a[i] == b[i],
    decreases a.len() - from,
{
    if from == a.len() {
        if from < b.len() {
            lemma_listed_in_other(b, a, candidates, from);
            let i = choose|i: int| 0 <= i < a.len() && (#[trigger] a[i]).name == b[from].name;
            lemma_ascending_distinct(b, i, from);
        }
    } else if from == b.len() {
        lemma_listed_in_other(a, b, candidates, from);
        let i = choose|i: int| 0 <= i < b.len() && (#[trigger] b[i]).name == a[from].name;
        lemma_ascending_distinct(a, i, from);
    } else {
        lemma_listed_in_other(a, b, candidates, from);
        lemma_listed_in_other(b, a, candidates, from);
        let i = choose|i: int| 0 <= i < b.len() && (#[trigger] b[i]).name == a[from].name;
        let j = choose|j: int| 0 <= j < a.len() && (#[trigger] a[j]).name == b[from].name;
        if i < from {
            lemma_ascending_distinct(a, i, from);
        }
        if j < from {
            lemma_ascending_distinct(b, j, from);
        }
        if i > from && j > from {
            assert(precedes(b[from].name, b[i].name));
            assert(precedes(a[from].name, a[j].name));
            lemma_precedes_transitive(a[from].name, b[from].name, a[from].name);
            lemma_precedes_irreflexive(a[from].name);
        }
        if i == from {
            lemma_same_record(a, b, candidates, from, from);
        } else {
            assert(j == from);
            lemma_same_record(b, a, candidates, from, from);
        }
        lemma_same_names_same_order(a, b, candidates, from + 1);
    }
}

/// The name of a listed record is in every listing of the same candidates.
proof fn lemma_listed_in_other(
    a: Seq<RecordModel>,
    b: Seq<RecordModel>,
    candidates: Seq<RecordModel>,
    i: int,
)
    requires
        is_listing_of(a, candidates),
        is_listing_of(b, candidates),
        0 <= i < a.len(),
    ensures
        holds_name(b, a[i].name),
{
    assert(leads(candidates, a[i]));
    let at = choose|at: int| first_of_name(candidates, at) && candidates[at] == a[i];
    assert(holds_name(b, candidates[at].name));
}

/// Listed records of one name are one record.
proof fn lemma_same_record(
    a: Seq<RecordModel>,
    b: Seq<RecordModel>,
    candidates: Seq<RecordModel>,
    i: int,
    j: int,
)
    requires
        is_listing_of(a, candidates),
        is_listing_of(b, candidates),
        0 <= i < a.len(),
        0 <= j < b.len(),
        a[i].name == b[j].name,
    ensures
        a[i] == b[j],
{
    assert(leads(candidates, a[i]));
    assert(leads(candidates, b[j]));
    let x = choose|at: int| first_of_name(candidates, at) && candidates[at] == a[i];
    let y = choose|at: int| first_of_name(candidates, at) && candidates[at] == b[j];
    if x < y {
        assert(candidates[x].name != candidates[y].name);
    } else if y < x {
        assert(candidates[y].name != candidates[x].name);
    }
}

/// What listed `candidates` lists them with one more: unchanged where the
/// new record's name was there, else with the record put in at its place.
pub proof fn lemma_listing_grows(
    listing: Seq<RecordModel>,
    candidates: Seq<RecordModel>,
    record: RecordModel,
    grown: Seq<RecordModel>,
)
    requires
        is_listing_of(listing, candidates),
        ascending(grown),
        holds_name(listing, record.name) ==> grown == listing,
        !holds_name(listing, record.name) ==> exists|p: int|
            0 <= p <= listing.len() && grown == #[trigger] listing.insert(p, record),
    ensures
        is_listing_of(grown, candidates.push(record)),
{
    let more = candidates.push(record);
    if holds_name(listing, record.name) {
        assert forall|i: int| 0 <= i < grown.len() implies leads(more, #[trigger] grown[i]) by {
            assert(leads(candidates, listing[i]));
            let at = choose|at: int| first_of_name(candidates, at) && candidates[at] == listing[i];
            assert(more[at] == candidates[at]);
            assert forall|k: int| 0 <= k < at implies (#[trigger] more[k]).name
                != more[at].name by {
                assert(more[k] == candidates[k]);
            }
            assert(first_of_name(more, at) && more[at] == grown[i]);
        }
        assert forall|k: int| 0 <= k < more.len() implies holds_name(
            grown,
            (#[trigger] more[k]).name,
        ) by {
            if k < candidates.len() {
                assert(more[k] == candidates[k]);
                assert(holds_name(listing, candidates[k].name));
            }
        }
    } else {
        let p = choose|p: int| 0 <= p <= listing.len() && grown == #[trigger] listing.insert(
            p,
            record,
        );
        assert forall|i: int| 0 <= i < grown.len() implies leads(more, #[trigger] grown[i]) by {
            if i == p {
                let at = candidates.len() as int;
                assert(more[at] == record);
                assert forall|k: int| 0 <= k < at implies (#[trigger] more[k]).name
                    != more[at].name by {
                    assert(more[k] == candidates[k]);
                    assert(holds_name(listing, candidates[k].name));
                }
                assert(first_of_name(more, at) && more[at] == grown[i]);
            } else {
                let old_i = if i < p { i } else { i - 1 };
                assert(grown[i] == listing[old_i]);
                assert(leads(candidates, listing[old_i]));
                let at = choose|at: int|
                    first_of_name(candidates, at) && candidates[at] == listing[old_i];
                assert(more[at] == candidates[at]);
                assert forall|k: int| 0 <= k < at implies (#[trigger] more[k]).name
                    != more[at].name by {
                    assert(more[k] == candidates[k]);
                }
                assert(first_of_name(more, at) && more[at] == grown[i]);
            }
        }
        assert forall|k: int| 0 <= k < more.len() implies holds_name(
            grown,
            (#[trigger] more[k]).name,
        ) by {
            if k < candidates.len() {
                assert(more[k] == candidates[k]);
                assert(holds_name(listing, candidates[k].name));
                let i = choose|i: int|
                    0 <= i < listing.len() && (#[trigger] listing[i]).name == candidates[k].name;
                let new_i = if i < p { i } else { i + 1 };
                assert(grown[new_i] == listing[i]);
            } else {
                assert(grown[p] == record);
            }
        }
    }
}

/// Where a name belongs among ascending records that do not hold it: all
/// records before the place precede the name, and the name precedes all
/// records from the place on.
proof fn lemma_place(records: Seq<RecordModel>, name: Seq<char>) -> (p: int)
    requires
        ascending(records),
        !holds_name(records, name),
    ensures
        0 <= p <= records.len(),
        forall|j: int| 0 <= j < p ==> precedes((#[trigger] records[j]).name, name),
        forall|j: int| p <= j < records.len() ==> precedes(name, (#[trigger] records[j]).name),
    decreases records.len(),
{
    if records.len() == 0 {
        0
    } else {
        let last = records.last();
        if precedes(last.name, name) {
            assert forall|j: int| 0 <= j < records.len() implies precedes(
                (#[trigger] records[j]).name,
                name,
            ) by {
                if j < records.len() - 1 {
                    assert(precedes(records[j].name, records[records.len() - 1].name));
                    lemma_precedes_transitive(records[j].name, last.name, name);
                }
            }
            records.len() as int
        } else {
            let front = records.drop_last();
            assert(records[records.len() - 1].name != name);
            lemma_precedes_total(name, last.name);
            assert forall|i: int, j: int| 0 <= i < j < front.len() implies precedes(
                (#[trigger] front[i]).name,
                (#[trigger] front[j]).name,
            ) by {
                assert(front[i] == records[i]);
                assert(front[j] == records[j]);
            }
            assert(!holds_name(front, name)) by {
                if holds_name(front, name) {
                    let i = choose|i: int| 0 <= i < front.len() && (#[trigger] front[i]).name == name;
                    assert(records[i].name == name);
                }
            }
            let p = lemma_place(front, name);
            assert forall|j: int| 0 <= j < p implies precedes(
                (#[trigger] records[j]).name,
                name,
            ) by {
                assert(front[j] == records[j]);
            }
            assert forall|j: int| p <= j < records.len() implies precedes(
                name,
                (#[trigger] records[j]).name,
            ) by {
                if j < front.len() {
                    assert(front[j] == records[j]);
                }
            }
            p
        }
    }
}

/// Ascending records are their own listing.
pub proof fn lemma_ascending_is_listed(records: Seq<RecordModel>)
    requires
        ascending(records),
    ensures
        listing(records) == records,
{
    assert forall|i: int| 0 <= i < records.len() implies leads(records, #[trigger] records[i]) by {
        assert forall|k: int| 0 <= k < i implies (#[trigger] records[k]).name
            != records[i].name by {
            lemma_ascending_distinct(records, k, i);
        }
        assert(first_of_name(records, i) && records[i] == records[i]);
    }
    assert forall|k: int| 0 <= k < records.len() implies holds_name(
        records,
        (#[trigger] records[k]).name,
    ) by {
        let name = records[k].name;
        assert(0 <= k < records.len() && records[k].name == name);
    }
    lemma_listing_is(records, records);
}

/// The names of ascending records rise.
pub proof fn lemma_names_rise(records: Seq<RecordModel>)
    requires
        ascending(records),
    ensures
        rising(names_of(records)),
{
    assert forall|i: int, j: int| 0 <= i < j < names_of(records).len() implies precedes(
        #[trigger] names_of(records)[i],
        #[trigger] names_of(records)[j],
    ) by {
        assert(precedes(records[i].name, records[j].name));
    }
}

/// Every sequence of candidates has its listing, and the listing is
/// ascending: no name stands in it twice.
pub proof fn lemma_listing_exists(candidates: Seq<RecordModel>)
    ensures
        is_listing_of(listing(candidates), candidates),
        ascending(listing(candidates)),
    decreases candidates.len(),
{
    if candidates.len() == 0 {
        assert(is_listing_of(Seq::<RecordModel>::empty(), candidates));
    } else {
        let front = candidates.drop_last();
        let last = candidates.last();
        lemma_listing_exists(front);
        let l = listing(front);
        assert(front.push(last) =~= candidates);
        if holds_name(l, last.name) {
            lemma_listing_grows(l, front, last, l);
        } else {
            let p = lemma_place(l, last.name);
            let grown = l.insert(p, last);
            assert forall|i: int, j: int| 0 <= i < j < grown.len() implies precedes(
                (#[trigger] grown[i]).name,
                (#[trigger] grown[j]).name,
            ) by {
                let old_i = if i < p { i } else { i - 1 };
                let old_j = if j < p { j } else { j - 1 };
                if i == p {
                    assert(grown[j] == l[old_j]);
                } else if j == p {
                    assert(grown[i] == l[old_i]);
                } else {
                    assert(grown[i] == l[old_i]);
                    assert(grown[j] == l[old_j]);
                }
            }
            lemma_listing_grows(l, front, last, grown);
        }
    }
}

impl IconRecord {
    /// A record of the given name, size and locator.
    pub fn new(name: &str, size_bytes: Option<u64>, locator: &str) -> (r: IconRecord)
        ensures
            r@ == (RecordModel { name: name@, size_bytes, locator: locator@ }),
    {
        IconRecord { name: String::from_str(name), size_bytes, locator: String::from_str(locator) }
    }

    /// A record equal to this one.
    pub fn duplicate(&self) -> (r: IconRecord)
        ensures
            r@ == self@,
    {
        IconRecord {
            name: self.name.clone(),
            size_bytes: self.size_bytes,
            locator: self.locator.clone(),
        }
    }
}

/// Puts `record` into the ascending `listing` at its place, unless a record
/// of its name is there already: then the listing stays as it is. Says
/// whether the record went in.
pub fn insert_record(listing: &mut Vec<IconRecord>, record: IconRecord) -> (added: bool)
    requires
        ascending(old(listing).deep_view()),
    ensures
        ascending(final(listing).deep_view()),
        added == !holds_name(old(listing).deep_view(), record@.name),
        !added ==> final(listing).deep_view() == old(listing).deep_view(),
        added ==> exists|p: int|
            0 <= p <= old(listing).len() && final(listing).deep_view() == #[trigger] old(
                listing,
            ).deep_view().insert(p, record@),
{
    let ghost before = listing.deep_view();
    let name = to_chars(record.name.as_str());
    let mut p: usize = listing.len();
    while p > 0
        invariant
            p <= listing.len(),
            listing.deep_view() == before,
            name@ == record@.name,
            forall|j: int| p <= j < before.len() ==> !precedes((#[trigger] before[j]).name, name@),
        ensures
            p > 0 ==> precedes(before[p - 1].name, name@),
        decreases p,
    {
        let other = to_chars(listing[p - 1].name.as_str());
        assert(other@ == before[p - 1].name);
        if chars_precede(other.as_slice(), name.as_slice()) {
            break;
        }
        p = p - 1;
    }
    proof {
        assert forall|j: int| 0 <= j < p implies precedes((#[trigger] before[j]).name, name@) by {
            if j < p - 1 {
                lemma_precedes_transitive(before[j].name, before[p - 1].name, name@);
            }
        }
        lemma_precedes_irreflexive(name@);
    }
    if p < listing.len() {
        let other = to_chars(listing[p].name.as_str());
        assert(other@ == before[p as int].name);
        if chars_equal(other.as_slice(), name.as_slice()) {
            return false;
        }
    }
    proof {
        assert forall|j: int| p <= j < before.len() implies precedes(
            name@,
            (#[trigger] before[j]).name,
        ) by {
            lemma_precedes_total(name@, before[p as int].name);
            if j > p {
                lemma_precedes_transitive(name@, before[p as int].name, before[j].name);
            }
        }
        assert(!holds_name(before, name@)) by {
            if holds_name(before, name@) {
                let i = choose|i: int| 0 <= i < before.len() && (#[trigger] before[i]).name == name@;
                if i < p {
                    assert(precedes(before[i].name, name@));
                } else {
                    assert(precedes(name@, before[i].name));
                }
            }
        }
    }
    let ghost model = record@;
    listing.insert(p, record);
    proof {
        let after = listing.deep_view();
        assert(after =~= before.insert(p as int, model));
        assert forall|i: int, j: int| 0 <= i < j < after.len() implies precedes(
            (#[trigger] after[i]).name,
            (#[trigger] after[j]).name,
        ) by {
            let old_i = if i < p { i } else { i - 1 };
            let old_j = if j < p { j } else { j - 1 };
            if i == p {
                assert(after[j] == before[old_j]);
            } else if j == p {
                assert(after[i] == before[old_i]);
            } else {
                assert(after[i] == before[old_i]);
                assert(after[j] == before[old_j]);
            }
        }
    }
    true
}

/// The listing of `candidates`: ascending by name, and of several
/// candidates of one name the first.
pub fn listing_of(candidates: Vec<IconRecord>) -> (r: Vec<IconRecord>)
    ensures
        is_listing_of(r.deep_view(), candidates.deep_view()),
        r.deep_view() == listing(candidates.deep_view()),
        ascending(r.deep_view()),
{
    let ghost all = candidates.deep_view();
    let mut sorted: Vec<IconRecord> = Vec::new();
    proof {
        assert(sorted.deep_view() =~= Seq::<RecordModel>::empty());
        assert(all.take(0) =~= Seq::<RecordModel>::empty());
    }
    for record in it: candidates
        invariant
            it.seq().len() == all.len(),
            forall|i: int| 0 <= i < all.len() ==> (#[trigger] it.seq()[i])@ == all[i],
            is_listing_of(sorted.deep_view(), all.take(it.index())),
    {
        let ghost before = sorted.deep_view();
        let ghost model = record@;
        insert_record(&mut sorted, record);
        proof {
            assert(all.take(it.index() + 1) =~= all.take(it.index()).push(model));
            lemma_listing_grows(before, all.take(it.index()), model, sorted.deep_view());
        }
    }
    proof {
        assert(all.take(all.len() as int) =~= all);
        lemma_listing_is(sorted.deep_view(), all);
    }
    sorted
}

} // verus!

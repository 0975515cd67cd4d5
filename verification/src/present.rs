//! What is shown of icons: their names without the extension, the first
//! few of a list, the names that were picked from a list, the opening tag
//! of an icon's content, and which of its lines are markup.

use crate::names::{bare, display_name};
use crate::record::{IconRecord, RecordModel};
use crate::text::{chars_find, chars_trimmed, first_at, occurs_at, to_chars, trimmed};
use vstd::prelude::*;
use vstd::string::*;

verus! {

/// The names of the records without the extension, in their order.
pub open spec fn bare_names(records: Seq<RecordModel>) -> Seq<Seq<char>> {
    Seq::new(records.len(), |i: int| bare(records[i].name))
}

/// The first `limit` of `s`; all of `s` where it has no more, or where
/// there is no limit.
pub open spec fn first_few<T>(s: Seq<T>, limit: Option<usize>) -> Seq<T> {
    match limit {
        Some(n) => if n < s.len() {
            s.take(n as int)
        } else {
            s
        },
        None => s,
    }
}

/// The items at the places picked, in the order of the picking.
pub open spec fn picked(items: Seq<Seq<char>>, places: Seq<usize>) -> Seq<Seq<char>> {
    Seq::new(places.len(), |i: int| items[places[i] as int])
}

/// The text `<svg`.
pub open spec fn tag_start() -> Seq<char> {
    seq!['<', 's', 'v', 'g']
}

/// The opening tag of an icon's content: from the first `<svg` to the
/// first `>` behind it, both included. `None` where there is no `<svg`, or
/// no `>` behind it.
pub open spec fn opening_tag(content: Seq<char>) -> Option<Seq<char>> {
    if exists|at: int| first_at(content, tag_start(), 0, at) {
        let at = choose|at: int| first_at(content, tag_start(), 0, at);
        if exists|end: int| first_at(content, seq!['>'], at, end) {
            let end = choose|end: int| first_at(content, seq!['>'], at, end);
            Some(content.subrange(at, end + 1))
        } else {
            None
        }
    } else {
        None
    }
}

/// The line is markup: its first character that is no white space is `<`.
pub open spec fn is_markup(line: Seq<char>) -> bool {
    trimmed(line).len() > 0 && trimmed(line)[0] == '<'
}

/// A pattern has at most one first place from a given place on.
pub proof fn lemma_first_at_unique(s: Seq<char>, pattern: Seq<char>, from: int, a: int, b: int)
    requires
        first_at(s, pattern, from, a),
        first_at(s, pattern, from, b),
    ensures
        a == b,
{
}

/// The names of the records without the extension, in their order.
pub fn display_names(records: &Vec<IconRecord>) -> (names: Vec<String>)
    ensures
        names.deep_view() == bare_names(records.deep_view()),
{
    let ghost all = bare_names(records.deep_view());
    let mut names: Vec<String> = Vec::new();
    let mut i: usize = 0;
    while i < records.len()
        invariant
            i <= records.len(),
            all == bare_names(records.deep_view()),
            names.deep_view() == all.take(i as int),
        decreases records.len() - i,
    {
        let ghost before = names.deep_view();
        names.push(display_name(records[i].name.as_str()));
        assert(names.deep_view() =~= before.push(all[i as int]));
        assert(all.take(i + 1) =~= all.take(i as int).push(all[i as int]));
        i = i + 1;
    }
    assert(all.take(all.len() as int) =~= all);
    names
}

/// The first `limit` of the names; all of them where there are no more, or
/// where there is no limit.
pub fn limited(names: Vec<String>, limit: Option<usize>) -> (r: Vec<String>)
    ensures
        r.deep_view() == first_few(names.deep_view(), limit),
{
    let ghost all = names.deep_view();
    let mut names = names;
    match limit {
        Some(n) => {
            if n < names.len() {
                names.truncate(n);
                assert(names.deep_view() =~= all.take(n as int));
            }
        },
        None => {},
    }
    names
}

/// The items at the places picked, in the order of the picking.
pub fn picked_names(items: &Vec<String>, places: &Vec<usize>) -> (r: Vec<String>)
    requires
        forall|i: int| 0 <= i < places.len() ==> (#[trigger] places[i]) < items.len(),
    ensures
        r.deep_view() == picked(items.deep_view(), places@),
{
    let ghost all = picked(items.deep_view(), places@);
    let mut r: Vec<String> = Vec::new();
    let mut i: usize = 0;
    while i < places.len()
        invariant
            i <= places.len(),
            forall|k: int| 0 <= k < places.len() ==> (#[trigger] places[k]) < items.len(),
            all == picked(items.deep_view(), places@),
            r.deep_view() == all.take(i as int),
        decreases places.len() - i,
    {
        let ghost before = r.deep_view();
        let at = places[i];
        r.push(items[at].clone());
        assert(r.deep_view() =~= before.push(all[i as int]));
        assert(all.take(i + 1) =~= all.take(i as int).push(all[i as int]));
        i = i + 1;
    }
    assert(all.take(all.len() as int) =~= all);
    r
}

/// Whether every place picked is a place of one of `count` items.
pub fn places_fit(places: &Vec<usize>, count: usize) -> (r: bool)
    ensures
        r == forall|i: int| 0 <= i < places.len() ==> (#[trigger] places[i]) < count,
{
    let mut i: usize = 0;
    while i < places.len()
        invariant
            i <= places.len(),
            forall|k: int| 0 <= k < i ==> (#[trigger] places[k]) < count,
        decreases places.len() - i,
    {
        if places[i] >= count {
            return false;
        }
        i = i + 1;
    }
    true
}

/// The opening tag of an icon's content: from the first `<svg` to the
/// first `>` behind it.
pub fn svg_opening_tag(content: &str) -> (r: Option<String>)
    ensures
        r.deep_view() == opening_tag(content@),
{
    let chars = to_chars(content);
    let mut start: Vec<char> = Vec::new();
    start.push('<');
    start.push('s');
    start.push('v');
    start.push('g');
    assert(start@ == tag_start());
    let mut close: Vec<char> = Vec::new();
    close.push('>');
    assert(close@ == seq!['>']);
    match chars_find(chars.as_slice(), start.as_slice(), 0) {
        None => None,
        Some(at) => {
            proof {
                let chosen = choose|x: int| first_at(content@, tag_start(), 0, x);
                lemma_first_at_unique(content@, tag_start(), 0, at as int, chosen);
            }
            match chars_find(chars.as_slice(), close.as_slice(), at) {
                None => None,
                Some(end) => {
                    let n = chars.len();
                    proof {
                        let chosen = choose|x: int| first_at(content@, seq!['>'], at as int, x);
                        lemma_first_at_unique(content@, seq!['>'], at as int, end as int, chosen);
                        assert(occurs_at(content@, seq!['>'], end as int));
                        assert(end + 1 <= n);
                    }
                    Some(String::from_str(content.substring_char(at, end + 1)))
                },
            }
        },
    }
}

/// Whether the first character of the line that is no white space is `<`.
pub fn is_markup_line(line: &str) -> (r: bool)
    ensures
        r == is_markup(line@),
{
    let chars = to_chars(line);
    let inner = chars_trimmed(chars.as_slice());
    inner.len() > 0 && inner[0] == '<'
}

} // verus!

//! Icon names and file names: the extension, the stem, the canonical file
//! name, when a record answers to a requested name, and the final
//! component of a path.

use crate::text::{chars_end_with, chars_equal, chars_occur_at, ends_with, occurs_at, to_chars};
use vstd::prelude::*;
use vstd::string::*;

verus! {

/// The icon-file extension, `.svg`.
pub open spec fn icon_extension() -> Seq<char> {
    seq!['.', 's', 'v', 'g']
}

/// The file name ends in the icon-file extension.
pub open spec fn ends_in_extension(file_name: Seq<char>) -> bool {
    ends_with(file_name, icon_extension())
}

/// The file name has a stem and then the icon-file extension.
pub open spec fn has_extension(file_name: Seq<char>) -> bool {
    ends_in_extension(file_name) && file_name.len() > icon_extension().len()
}

/// The name without its extension; a name that has none, or nothing in
/// front of it, is its own stem.
pub open spec fn stem(name: Seq<char>) -> Seq<char> {
    if has_extension(name) {
        name.take(name.len() - icon_extension().len())
    } else {
        name
    }
}

/// The name without the extension, where it ends in it.
pub open spec fn bare(name: Seq<char>) -> Seq<char> {
    if ends_in_extension(name) {
        name.take(name.len() - icon_extension().len())
    } else {
        name
    }
}

/// The file name under which an icon of this name is stored: the name
/// itself where it carries the extension, else the name and the extension.
pub open spec fn file_name(name: Seq<char>) -> Seq<char> {
    if ends_in_extension(name) {
        name
    } else {
        name + icon_extension()
    }
}

/// A record of this name answers to the requested name: they are equal, or
/// one is the other followed by the extension.
pub open spec fn answers_to(record_name: Seq<char>, requested: Seq<char>) -> bool {
    ||| record_name == requested
    ||| record_name + icon_extension() == requested
    ||| record_name == requested + icon_extension()
}

/// How much of `path` is left when the separators and the `.` components
/// at its end are passed over, as a path's file name passes over them.
pub open spec fn path_end(path: Seq<u8>) -> int
    decreases path.len(),
{
    if path.len() > 0 && path.last() == 0x2fu8 {
        path_end(path.drop_last())
    } else if path.len() >= 2 && path.last() == 0x2eu8 && path[path.len() - 2] == 0x2fu8 {
        path_end(path.drop_last())
    } else {
        path.len() as int
    }
}

/// Where the last component of `path` begins: behind its last `/`.
pub open spec fn component_start(path: Seq<u8>) -> int
    decreases path.len(),
{
    if path.len() == 0 {
        0
    } else if path.last() == 0x2fu8 {
        path.len() as int
    } else {
        component_start(path.drop_last())
    }
}

/// The component is `.` or `..`, which name no file.
pub open spec fn is_dots(component: Seq<u8>) -> bool {
    component == seq![0x2eu8] || component == seq![0x2eu8, 0x2eu8]
}

/// The final component of `path`, as the file name of a path is taken:
/// separators and `.` components at the end are passed over, and what
/// then follows the last `/` is the component. It is empty where nothing
/// follows, or where `.` or `..` does.
pub open spec fn final_component(path: Seq<u8>) -> Seq<u8> {
    let kept = path.take(path_end(path));
    let component = kept.skip(component_start(kept));
    if is_dots(component) {
        Seq::empty()
    } else {
        component
    }
}

/// What is left of a path is a part of it, and ends neither in `/` nor in
/// a `.` component.
pub proof fn lemma_path_end(path: Seq<u8>)
    ensures
        0 <= path_end(path) <= path.len(),
        path_end(path) > 0 ==> path[path_end(path) - 1] != 0x2fu8,
        path_end(path) >= 2 ==> !(path[path_end(path) - 1] == 0x2eu8 && path[path_end(path) - 2]
            == 0x2fu8),
    decreases path.len(),
{
    if path.len() > 0 && path.last() == 0x2fu8 {
        lemma_path_end(path.drop_last());
    } else if path.len() >= 2 && path.last() == 0x2eu8 && path[path.len() - 2] == 0x2fu8 {
        lemma_path_end(path.drop_last());
    }
}

/// The last component begins inside the path, behind a `/` or at the
/// start, and holds no `/` itself.
pub proof fn lemma_component_start(path: Seq<u8>)
    ensures
        0 <= component_start(path) <= path.len(),
        component_start(path) > 0 ==> path[component_start(path) - 1] == 0x2fu8,
        forall|i: int| component_start(path) <= i < path.len() ==> path[i] != 0x2fu8,
    decreases path.len(),
{
    if path.len() > 0 && path.last() != 0x2fu8 {
        let front = path.drop_last();
        lemma_component_start(front);
        assert forall|i: int| component_start(path) <= i < path.len() implies path[i]
            != 0x2fu8 by {
            if i < front.len() {
                assert(front[i] == path[i]);
            }
        }
    }
}

/// A final component holds no `/`, and is neither `.` nor `..`.
pub proof fn lemma_component_is_plain(path: Seq<u8>)
    ensures
        forall|i: int|
            0 <= i < final_component(path).len() ==> (#[trigger] final_component(path)[i])
                != 0x2fu8,
        !is_dots(final_component(path)),
{
    lemma_path_end(path);
    let kept = path.take(path_end(path));
    lemma_component_start(kept);
    let component = kept.skip(component_start(kept));
    assert forall|i: int| 0 <= i < component.len() implies component[i] != 0x2fu8 by {
        assert(component[i] == kept[component_start(kept) + i]);
    }
    assert(!is_dots(Seq::<u8>::empty())) by {
        assert(seq![0x2eu8].len() == 1);
        assert(seq![0x2eu8, 0x2eu8].len() == 2);
    }
}

/// Bytes that hold no `/` and are neither `.` nor `..` are their own final
/// component.
pub proof fn lemma_plain_is_component(name: Seq<u8>)
    requires
        forall|i: int| 0 <= i < name.len() ==> name[i] != 0x2fu8,
        !is_dots(name),
    ensures
        final_component(name) == name,
{
    assert(path_end(name) == name.len());
    assert(name.take(name.len() as int) == name);
    lemma_start_without_slash(name);
    assert(name.skip(0) == name);
}

/// The final component of a final component is itself.
pub proof fn lemma_component_of_component(path: Seq<u8>)
    ensures
        final_component(final_component(path)) == final_component(path),
{
    lemma_component_is_plain(path);
    lemma_plain_is_component(final_component(path));
}

/// A path that holds no `/` is its own last component.
proof fn lemma_start_without_slash(path: Seq<u8>)
    requires
        forall|i: int| 0 <= i < path.len() ==> path[i] != 0x2fu8,
    ensures
        component_start(path) == 0,
    decreases path.len(),
{
    if path.len() > 0 {
        let front = path.drop_last();
        assert forall|i: int| 0 <= i < front.len() implies front[i] != 0x2fu8 by {
            assert(front[i] == path[i]);
        }
        lemma_start_without_slash(front);
    }
}

/// The characters of the icon-file extension.
pub fn extension_chars() -> (v: Vec<char>)
    ensures
        v@ == icon_extension(),
{
    let mut v: Vec<char> = Vec::new();
    v.push('.');
    v.push('s');
    v.push('v');
    v.push('g');
    assert(v@ == icon_extension());
    v
}

/// Whether the file name ends in `.svg`.
pub fn ends_in_icon_extension(file_name: &str) -> (r: bool)
    ensures
        r == ends_in_extension(file_name@),
{
    let chars = to_chars(file_name);
    let ext = extension_chars();
    chars_end_with(chars.as_slice(), ext.as_slice())
}

/// Whether the file name is a non-empty stem followed by `.svg`.
pub fn has_icon_extension(file_name: &str) -> (r: bool)
    ensures
        r == has_extension(file_name@),
{
    let chars = to_chars(file_name);
    let ext = extension_chars();
    chars.len() > 4 && chars_end_with(chars.as_slice(), ext.as_slice())
}

/// The name without its `.svg`; the name itself where it has none or
/// nothing in front of it.
pub fn icon_stem(name: &str) -> (r: String)
    ensures
        r@ == stem(name@),
{
    let chars = to_chars(name);
    let ext = extension_chars();
    if chars.len() > 4 && chars_end_with(chars.as_slice(), ext.as_slice()) {
        let cut = name.substring_char(0, chars.len() - 4);
        String::from_str(cut)
    } else {
        String::from_str(name)
    }
}

/// The name without `.svg`, where it ends in it.
pub fn display_name(name: &str) -> (r: String)
    ensures
        r@ == bare(name@),
{
    let chars = to_chars(name);
    let ext = extension_chars();
    if chars_end_with(chars.as_slice(), ext.as_slice()) {
        String::from_str(name.substring_char(0, chars.len() - 4))
    } else {
        String::from_str(name)
    }
}

/// The file name that stores an icon of this name: `name` where it ends in
/// `.svg`, else `name` followed by `.svg`.
pub fn canonical_file_name(name: &str) -> (r: String)
    ensures
        r@ == file_name(name@),
{
    if ends_in_icon_extension(name) {
        String::from_str(name)
    } else {
        proof {
            reveal_strlit(".svg");
            assert(".svg"@ == icon_extension());
        }
        String::from_str(name).concat(".svg")
    }
}

/// Whether a record named `record_name` answers to `requested`.
pub fn chars_answer_to(record_name: &[char], requested: &[char]) -> (r: bool)
    ensures
        r == answers_to(record_name@, requested@),
{
    let ext = extension_chars();
    let n = record_name.len();
    let m = requested.len();
    if chars_equal(record_name, requested) {
        return true;
    }
    if m >= 4 && n == m - 4 {
        let longer = chars_end_with(requested, ext.as_slice()) && chars_occur_at(
            requested,
            record_name,
            0,
        );
        proof {
            lemma_extended(record_name@, requested@);
            assert(record_name@ != requested@ + icon_extension());
        }
        return longer;
    }
    if n >= 4 && m == n - 4 {
        let longer = chars_end_with(record_name, ext.as_slice()) && chars_occur_at(
            record_name,
            requested,
            0,
        );
        proof {
            lemma_extended(requested@, record_name@);
            assert(record_name@ + icon_extension() != requested@);
        }
        return longer;
    }
    proof {
        assert((record_name@ + icon_extension()).len() == n + 4);
        assert((requested@ + icon_extension()).len() == m + 4);
    }
    false
}

/// `long` is `short` followed by the extension exactly when it begins with
/// `short` and ends in the extension, being four characters longer.
proof fn lemma_extended(short: Seq<char>, long: Seq<char>)
    requires
        long.len() == short.len() + 4,
    ensures
        (short + icon_extension() == long) <==> (ends_with(long, icon_extension()) && occurs_at(
            long,
            short,
            0,
        )),
{
    let ext = icon_extension();
    if short + ext == long {
        assert(long.subrange(long.len() - 4, long.len() as int) == ext);
        assert(long.subrange(0, short.len() as int) == short);
    }
    if ends_with(long, ext) && occurs_at(long, short, 0) {
        assert(long.subrange(0, 0 + short.len() as int) == short);
        assert(long.subrange(0, short.len() as int) + long.subrange(
            long.len() - 4,
            long.len() as int,
        ) == long);
    }
}

/// Whether a record named `record_name` answers to `requested`.
pub fn name_answers_to(record_name: &str, requested: &str) -> (r: bool)
    ensures
        r == answers_to(record_name@, requested@),
{
    let a = to_chars(record_name);
    let b = to_chars(requested);
    chars_answer_to(a.as_slice(), b.as_slice())
}

/// The final component of `path`, as the file name of a path is taken.
pub fn final_component_of(path: &[u8]) -> (r: &[u8])
    ensures
        r@ == final_component(path@),
{
    let mut end: usize = path.len();
    assert(path@.take(path@.len() as int) == path@);
    while end > 0 && (path[end - 1] == 0x2fu8 || (end >= 2 && path[end - 1] == 0x2eu8 && path[end
        - 2] == 0x2fu8))
        invariant
            end <= path.len(),
            path_end(path@) == path_end(path@.take(end as int)),
        decreases end,
    {
        assert(path@.take(end as int).drop_last() == path@.take(end - 1));
        end = end - 1;
    }
    let ghost kept = path@.take(end as int);
    assert(path_end(kept) == end);
    let mut start: usize = end;
    assert(kept.take(end as int) == kept);
    while start > 0 && path[start - 1] != 0x2fu8
        invariant
            start <= end <= path.len(),
            kept == path@.take(end as int),
            component_start(kept) == component_start(kept.take(start as int)),
        decreases start,
    {
        assert(kept.take(start as int).drop_last() == kept.take(start - 1));
        start = start - 1;
    }
    proof {
        let head = kept.take(start as int);
        if start > 0 {
            assert(head.last() == 0x2fu8);
        }
        assert(component_start(head) == start);
        assert(path@.subrange(start as int, end as int) == kept.skip(start as int));
    }
    let component = &path[start..end];
    let n = end - start;
    if (n == 1 && component[0] == 0x2eu8) || (n == 2 && component[0] == 0x2eu8 && component[1]
        == 0x2eu8) {
        proof {
            if n == 1 {
                assert(component@ =~= seq![0x2eu8]);
            } else {
                assert(component@ =~= seq![0x2eu8, 0x2eu8]);
            }
        }
        &path[0..0]
    } else {
        proof {
            if component@ == seq![0x2eu8] {
                assert(seq![0x2eu8].len() == 1);
                assert(seq![0x2eu8][0] == 0x2eu8);
            }
            if component@ == seq![0x2eu8, 0x2eu8] {
                assert(seq![0x2eu8, 0x2eu8].len() == 2);
                assert(seq![0x2eu8, 0x2eu8][0] == 0x2eu8);
                assert(seq![0x2eu8, 0x2eu8][1] == 0x2eu8);
            }
        }
        component
    }
}

} // verus!

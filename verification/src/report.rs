//! The texts that report what was found and what was copied.

use vstd::prelude::*;
use vstd::string::*;

verus! {

/// The character of a decimal digit.
pub open spec fn digit(d: int) -> char {
    (48 + d) as char
}

/// The decimal numeral of `n`, without leading zeros.
pub open spec fn numeral(n: nat) -> Seq<char>
    decreases n,
{
    if n < 10 {
        seq![digit(n as int)]
    } else {
        numeral(n / 10).push(digit((n % 10) as int))
    }
}

/// A name between double quotes.
pub open spec fn quoted(name: Seq<char>) -> Seq<char> {
    "\""@ + name + "\""@
}

/// The names, each between double quotes, with a comma and a space between
/// one and the next.
pub open spec fn enumerated(names: Seq<Seq<char>>) -> Seq<char>
    decreases names.len(),
{
    if names.len() == 0 {
        Seq::empty()
    } else if names.len() == 1 {
        quoted(names[0])
    } else {
        enumerated(names.drop_last()) + ", "@ + quoted(names.last())
    }
}

/// The text that reports the names found: `Found`, their number, and on a
/// line of its own the names between square brackets.
pub open spec fn found_text(names: Seq<Seq<char>>) -> Seq<char> {
    "Found "@ + numeral(names.len()) + "\n["@ + enumerated(names) + "]"@
}

/// The text that reports an export: how many icons were copied, and how
/// many failed.
pub open spec fn copied_text(copied: nat, failed: nat) -> Seq<char> {
    "Copied "@ + numeral(copied) + " icons ("@ + numeral(failed) + " failed)"@
}

/// The numeral of one decimal digit.
fn digit_text(d: usize) -> (r: &'static str)
    requires
        d < 10,
    ensures
        r@ == seq![digit(d as int)],
{
    proof {
        reveal_strlit("0");
        reveal_strlit("1");
        reveal_strlit("2");
        reveal_strlit("3");
        reveal_strlit("4");
        reveal_strlit("5");
        reveal_strlit("6");
        reveal_strlit("7");
        reveal_strlit("8");
        reveal_strlit("9");
    }
    let r = if d == 0 {
        "0"
    } else if d == 1 {
        "1"
    } else if d == 2 {
        "2"
    } else if d == 3 {
        "3"
    } else if d == 4 {
        "4"
    } else if d == 5 {
        "5"
    } else if d == 6 {
        "6"
    } else if d == 7 {
        "7"
    } else if d == 8 {
        "8"
    } else {
        "9"
    };
    assert(r@ =~= seq![digit(d as int)]);
    r
}

/// The decimal numeral of `n`.
pub fn decimal(n: usize) -> (r: String)
    ensures
        r@ == numeral(n as nat),
    decreases n,
{
    if n < 10 {
        String::from_str(digit_text(n))
    } else {
        let mut r = decimal(n / 10);
        r.append(digit_text(n % 10));
        assert(r@ =~= numeral((n / 10) as nat).push(digit((n % 10) as int)));
        r
    }
}

/// The text that reports the names found.
pub fn found_report(names: &Vec<String>) -> (r: String)
    ensures
        r@ == found_text(names.deep_view()),
{
    let ghost all = names.deep_view();
    let mut r = String::from_str("Found ");
    r.append(decimal(names.len()).as_str());
    r.append("\n[");
    let ghost head = r@;
    let mut i: usize = 0;
    assert(all.take(0) =~= Seq::<Seq<char>>::empty());
    assert(r@ =~= head + enumerated(all.take(0)));
    while i < names.len()
        invariant
            i <= names.len(),
            all == names.deep_view(),
            r@ == head + enumerated(all.take(i as int)),
        decreases names.len() - i,
    {
        let ghost before = all.take(i as int);
        let ghost after = all.take(i + 1);
        proof {
            assert(after.drop_last() =~= before);
            assert(after.last() == names@[i as int]@);
        }
        if i > 0 {
            r.append(", ");
        }
        r.append("\"");
        r.append(names[i].as_str());
        r.append("\"");
        proof {
            if i == 0 {
                assert(enumerated(before) =~= Seq::<char>::empty());
                assert(r@ =~= head + quoted(after[0]));
            } else {
                assert(r@ =~= head + (enumerated(before) + ", "@ + quoted(after.last())));
            }
        }
        i = i + 1;
    }
    assert(all.take(all.len() as int) =~= all);
    r.append("]");
    r
}

/// The text that reports an export.
pub fn copied_report(copied: usize, failed: usize) -> (r: String)
    ensures
        r@ == copied_text(copied as nat, failed as nat),
{
    let mut r = String::from_str("Copied ");
    r.append(decimal(copied).as_str());
    r.append(" icons (");
    r.append(decimal(failed).as_str());
    r.append(" failed)");
    r
}

} // verus!

//! The OS-family check on the contents of an `os-release` file.
//!
//! The file is a list of `KEY=value` lines.  A system is supported when the
//! value of `ID` is the supported family, or when a value of `ID_LIKE`
//! mentions it.

use crate::text::{
    chars_of, contains, find_in_range, first_index, line_ranges, lines, range_contains,
    range_equals, trim, trim_range,
};
use vstd::prelude::*;
use vstd::string::*;

verus! {

/// The family whose package manager and tmpfiles semantics this crate assumes.
pub open spec fn supported_family() -> Seq<char> {
    "fedora"@
}

/// The key that names the operating system.
pub open spec fn id_key() -> Seq<char> {
    "ID"@
}

/// The key that lists the systems this one resembles.
pub open spec fn id_like_key() -> Seq<char> {
    "ID_LIKE"@
}

/// A line read as an assignment: the trimmed text before the first `'='` is
/// the key, the trimmed text after it the value.  A line without `'='` is no
/// assignment.
pub open spec fn field(line: Seq<char>) -> Option<(Seq<char>, Seq<char>)> {
    match first_index(line, '=') {
        Some(i) => Some((trim(line.take(i)), trim(line.skip(i + 1)))),
        None => None,
    }
}

/// Whether `line` assigns to `key`.
pub open spec fn assigns(line: Seq<char>, key: Seq<char>) -> bool {
    field(line) matches Some((k, _)) && k == key
}

/// The value that the assignment `line` gives.
pub open spec fn value_of(line: Seq<char>) -> Seq<char> {
    field(line).unwrap().1
}

/// The value of the last assignment to `key` among `ls`: a later assignment
/// overrides an earlier one.
pub open spec fn last_value(ls: Seq<Seq<char>>, key: Seq<char>) -> Option<Seq<char>>
    decreases ls.len(),
{
    if ls.len() == 0 {
        None
    } else if assigns(ls.last(), key) {
        Some(value_of(ls.last()))
    } else {
        last_value(ls.drop_last(), key)
    }
}

/// Whether some assignment to `key` among `ls` has a value in which `word`
/// occurs.
pub open spec fn some_value_mentions(ls: Seq<Seq<char>>, key: Seq<char>, word: Seq<char>) -> bool {
    exists|k: int| 0 <= k < ls.len() && assigns(#[trigger] ls[k], key) && contains(value_of(ls[k]), word)
}

/// The system's identifier according to the file `text`.
pub open spec fn os_id(text: Seq<char>) -> Option<Seq<char>> {
    last_value(lines(text), id_key())
}

/// Whether the file `text` describes a system of the supported family:
/// its `ID` is the family, or the family's name occurs in a value of
/// `ID_LIKE`.
///
/// Values are taken as they stand in the file.  Quotes are not removed and
/// a list is not split into its members, so `ID_LIKE="rhel fedora"` is
/// accepted for the name that occurs in it, as is any other value that
/// holds the name, while `ID="fedora"` with its quotes is not the family.
pub open spec fn is_supported(text: Seq<char>) -> bool {
    ||| some_value_mentions(lines(text), id_like_key(), supported_family())
    ||| os_id(text) == Some(supported_family())
}

/// The refusal of a system outside the supported family.
#[derive(Debug, Clone, PartialEq, Eq)]
pub struct UnsupportedOs {
    /// The identifier the system gave for itself, if it gave one.
    pub id: Option<String>,
}

impl UnsupportedOs {
    /// The identifier as a sequence of characters.
    pub open spec fn id_view(&self) -> Option<Seq<char>> {
        match self.id {
            Some(s) => Some(s@),
            None => None,
        }
    }
}

/// Adding a line at the end adds at most that line's own mention.
proof fn lemma_mentions_step(ls: Seq<Seq<char>>, key: Seq<char>, word: Seq<char>)
    requires
        ls.len() > 0,
    ensures
        some_value_mentions(ls, key, word) == (some_value_mentions(ls.drop_last(), key, word) || (
        assigns(ls.last(), key) && contains(value_of(ls.last()), word))),
{
    let shorter = ls.drop_last();
    if some_value_mentions(ls, key, word) {
        let k = choose|k: int|
            0 <= k < ls.len() && assigns(#[trigger] ls[k], key) && contains(value_of(ls[k]), word);
        if k < ls.len() - 1 {
            assert(shorter[k] == ls[k]);
        }
    }
    if some_value_mentions(shorter, key, word) {
        let k = choose|k: int|
            0 <= k < shorter.len() && assigns(#[trigger] shorter[k], key) && contains(
                value_of(shorter[k]),
                word,
            );
        assert(shorter[k] == ls[k]);
    }
    if assigns(ls.last(), key) && contains(value_of(ls.last()), word) {
        assert(ls[ls.len() - 1] == ls.last());
    }
}

/// Checks that the `os-release` contents describe a supported system.
///
/// Succeeds exactly when `ID` is the supported family or an `ID_LIKE` value
/// mentions it; the refusal reports the `ID` that was found.
pub fn verify_osrelease(osrelease: &str) -> (r: Result<(), UnsupportedOs>)
    ensures
        r is Ok <==> is_supported(osrelease@),
        r matches Err(e) ==> e.id_view() == os_id(osrelease@),
{
    let chars = chars_of(osrelease);
    let ranges = line_ranges(&chars);
    let key_id = chars_of("ID");
    let key_like = chars_of("ID_LIKE");
    let family = chars_of("fedora");
    let ghost ls = lines(chars@);
    let mut like: bool = false;
    let mut id: Option<(usize, usize)> = None;
    let mut n: usize = 0;
    while n < ranges.len()
        invariant
            n <= ranges@.len() == ls.len(),
            ls == lines(chars@),
            key_id@ == id_key(),
            key_like@ == id_like_key(),
            family@ == supported_family(),
            forall|k: int|
                #![trigger ranges@[k]]
                0 <= k < ranges@.len() ==> {
                    &&& ranges@[k].0 <= ranges@[k].1 <= chars@.len()
                    &&& chars@.subrange(ranges@[k].0 as int, ranges@[k].1 as int) == ls[k]
                },
            like == some_value_mentions(ls.take(n as int), id_like_key(), supported_family()),
            match id {
                Some((a, b)) => a <= b <= chars@.len() && last_value(ls.take(n as int), id_key())
                    == Some(chars@.subrange(a as int, b as int)),
                None => last_value(ls.take(n as int), id_key()) is None,
            },
        decreases ranges.len() - n,
    {
        let (from, to) = ranges[n];
        let ghost line = ls[n as int];
        proof {
            assert(ranges@[n as int] == (from, to));
            assert(ls.take(n + 1).drop_last() == ls.take(n as int));
            assert(ls.take(n + 1).last() == line);
            lemma_mentions_step(ls.take(n + 1), id_like_key(), supported_family());
            reveal_strlit("ID");
            reveal_strlit("ID_LIKE");
            assert(id_key().len() != id_like_key().len());
        }
        match find_in_range(&chars, from, to, '=') {
            None => {},
            Some(eq) => {
                let (ka, kb) = trim_range(&chars, from, eq);
                let (va, vb) = trim_range(&chars, eq + 1, to);
                proof {
                    assert(line.take(eq - from) == chars@.subrange(from as int, eq as int));
                    assert(line.skip(eq - from + 1) == chars@.subrange(eq + 1, to as int));
                }
                if range_equals(&chars, ka, kb, &key_id) {
                    id = Some((va, vb));
                } else if range_equals(&chars, ka, kb, &key_like) {
                    if range_contains(&chars, va, vb, &family) {
                        like = true;
                    }
                }
            },
        }
        n = n + 1;
    }
    assert(ls.take(n as int) == ls);
    let named = match id {
        Some((a, b)) => range_equals(&chars, a, b, &family),
        None => false,
    };
    if like || named {
        Ok(())
    } else {
        let id = match id {
            Some((a, b)) => Some(osrelease.substring_char(a, b).to_owned()),
            None => None,
        };
        Err(UnsupportedOs { id })
    }
}

} // verus!

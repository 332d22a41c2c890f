//! Character-level text primitives shared by the rest of the crate.
//!
//! Text is handled as a vector of characters together with index ranges into
//! it, so that every operation has a direct meaning on `Seq<char>`.

use vstd::prelude::*;
use vstd::string::*;
use vstd::utf8::{decode_utf8, encode_utf8, encode_utf8_decode_utf8};

verus! {

/// Whether `c` carries the Unicode `White_Space` property.
pub open spec fn is_whitespace(c: char) -> bool {
    let u = c as u32;
    ||| 0x09 <= u <= 0x0D
    ||| u == 0x20
    ||| u == 0x85
    ||| u == 0xA0
    ||| u == 0x1680
    ||| 0x2000 <= u <= 0x200A
    ||| u == 0x2028
    ||| u == 0x2029
    ||| u == 0x202F
    ||| u == 0x205F
    ||| u == 0x3000
}

/// `s` without its leading whitespace.
pub open spec fn trim_start(s: Seq<char>) -> Seq<char>
    decreases s.len(),
{
    if s.len() > 0 && is_whitespace(s.first()) {
        trim_start(s.drop_first())
    } else {
        s
    }
}

/// `s` without its trailing whitespace.
pub open spec fn trim_end(s: Seq<char>) -> Seq<char>
    decreases s.len(),
{
    if s.len() > 0 && is_whitespace(s.last()) {
        trim_end(s.drop_last())
    } else {
        s
    }
}

/// `s` without leading and trailing whitespace.
pub open spec fn trim(s: Seq<char>) -> Seq<char> {
    trim_end(trim_start(s))
}

/// Whether `i` is the position of the first occurrence of `c` in `s`.
pub open spec fn is_first_index(s: Seq<char>, c: char, i: int) -> bool {
    &&& 0 <= i < s.len()
    &&& s[i] == c
    &&& forall|j: int| 0 <= j < i ==> s[j] != c
}

/// The position of the first occurrence of `c` in `s`, if there is one.
pub open spec fn first_index(s: Seq<char>, c: char) -> Option<int> {
    if exists|i: int| is_first_index(s, c, i) {
        Some(choose|i: int| is_first_index(s, c, i))
    } else {
        None
    }
}

/// Whether `needle` occurs in `hay` at offset `i`.
pub open spec fn occurs_at(hay: Seq<char>, needle: Seq<char>, i: int) -> bool {
    &&& 0 <= i
    &&& i + needle.len() <= hay.len()
    &&& hay.subrange(i, i + needle.len()) == needle
}

/// Whether `needle` occurs somewhere in `hay` as a contiguous run.
pub open spec fn contains(hay: Seq<char>, needle: Seq<char>) -> bool {
    exists|i: int| occurs_at(hay, needle, i)
}

/// The lines of `text`: every `'\n'` ends the current line and opens a new
/// one, so a text with `n` newlines has `n + 1` lines, none holding a newline.
pub open spec fn lines(text: Seq<char>) -> Seq<Seq<char>>
    decreases text.len(),
{
    if text.len() == 0 {
        seq![Seq::<char>::empty()]
    } else if text.last() == '\n' {
        lines(text.drop_last()).push(Seq::<char>::empty())
    } else {
        let before = lines(text.drop_last());
        before.drop_last().push(before.last().push(text.last()))
    }
}

/// The first occurrence is unique, so knowing one position pins `first_index`.
pub proof fn lemma_first_index_is(s: Seq<char>, c: char, i: int)
    requires
        is_first_index(s, c, i),
    ensures
        first_index(s, c) == Some(i),
{
    let k = choose|k: int| is_first_index(s, c, k);
    assert(is_first_index(s, c, k));
    if k < i {
        assert(s[k] != c);
    } else if i < k {
        assert(s[i] != c);
    }
}

/// A sequence without `c` has no first occurrence of it.
pub proof fn lemma_first_index_none(s: Seq<char>, c: char)
    requires
        forall|j: int| 0 <= j < s.len() ==> s[j] != c,
    ensures
        first_index(s, c) is None,
{
}

/// The characters of `s`, in order.
pub fn chars_of(s: &str) -> (out: Vec<char>)
    ensures
        out@ == s@,
{
    let mut out: Vec<char> = Vec::new();
    for c in it: s.chars()
        invariant
            out@ == it.seq().take(it.index() as int),
            it.seq() == s@,
    {
        out.push(c);
    }
    out
}

/// Decides the `White_Space` property of one character.
pub fn char_is_whitespace(c: char) -> (b: bool)
    ensures
        b == is_whitespace(c),
{
    let u: u32 = c as u32;
    (0x09 <= u && u <= 0x0D) || u == 0x20 || u == 0x85 || u == 0xA0 || u == 0x1680 || (0x2000 <= u
        && u <= 0x200A) || u == 0x2028 || u == 0x2029 || u == 0x202F || u == 0x205F || u == 0x3000
}

/// Narrows the range `from..to` of `s` to its trimmed part.
pub fn trim_range(s: &Vec<char>, from: usize, to: usize) -> (r: (usize, usize))
    requires
        from <= to <= s.len(),
    ensures
        from <= r.0 <= r.1 <= to,
        s@.subrange(r.0 as int, r.1 as int) == trim(s@.subrange(from as int, to as int)),
{
    let mut a: usize = from;
    while a < to && char_is_whitespace(s[a])
        invariant
            from <= a <= to <= s.len(),
            trim_start(s@.subrange(a as int, to as int)) == trim_start(
                s@.subrange(from as int, to as int),
            ),
        decreases to - a,
    {
        assert(s@.subrange(a as int, to as int).drop_first() == s@.subrange(a + 1, to as int));
        a = a + 1;
    }
    let mut b: usize = to;
    while b > a && char_is_whitespace(s[b - 1])
        invariant
            a <= b <= to <= s.len(),
            trim_end(s@.subrange(a as int, b as int)) == trim_end(s@.subrange(a as int, to as int)),
        decreases b - a,
    {
        assert(s@.subrange(a as int, b as int).drop_last() == s@.subrange(a as int, b - 1));
        b = b - 1;
    }
    (a, b)
}

/// Finds the first occurrence of `c` within the range `from..to` of `s`.
///
/// The position returned is absolute; the contract relates it to the
/// position relative to the start of the range.
pub fn find_in_range(s: &Vec<char>, from: usize, to: usize, c: char) -> (r: Option<usize>)
    requires
        from <= to <= s.len(),
    ensures
        match r {
            Some(i) => from <= i < to && first_index(s@.subrange(from as int, to as int), c)
                == Some(i - from),
            None => first_index(s@.subrange(from as int, to as int), c) is None,
        },
{
    let ghost sub = s@.subrange(from as int, to as int);
    let mut k: usize = from;
    while k < to
        invariant
            from <= k <= to <= s.len(),
            sub == s@.subrange(from as int, to as int),
            forall|j: int| 0 <= j < k - from ==> sub[j] != c,
        decreases to - k,
    {
        if s[k] == c {
            proof {
                assert(sub[k - from] == c);
                lemma_first_index_is(sub, c, k - from);
            }
            return Some(k);
        }
        assert(sub[k - from] != c);
        k = k + 1;
    }
    proof {
        lemma_first_index_none(sub, c);
    }
    None
}

/// Decides whether `needle` occurs in `s` at the absolute position `at`,
/// looking no further than `to`.
fn range_occurs_at(s: &Vec<char>, from: usize, to: usize, at: usize, needle: &Vec<char>) -> (b:
    bool)
    requires
        from <= at <= to <= s.len(),
    ensures
        b == occurs_at(s@.subrange(from as int, to as int), needle@, at - from),
{
    let ghost sub = s@.subrange(from as int, to as int);
    if needle.len() > to - at {
        return false;
    }
    let mut k: usize = 0;
    while k < needle.len()
        invariant
            from <= at <= to <= s.len(),
            at + needle.len() <= to,
            k <= needle.len(),
            sub == s@.subrange(from as int, to as int),
            forall|j: int| 0 <= j < k ==> sub[at - from + j] == needle@[j],
        decreases needle.len() - k,
    {
        if s[at + k] != needle[k] {
            proof {
                let window = sub.subrange(at - from, at - from + needle@.len());
                assert(window[k as int] == s@[at + k]);
            }
            return false;
        }
        k = k + 1;
    }
    assert(sub.subrange(at - from, at - from + needle@.len()) =~= needle@);
    true
}

/// Decides whether `needle` occurs within the range `from..to` of `s`.
pub fn range_contains(s: &Vec<char>, from: usize, to: usize, needle: &Vec<char>) -> (b: bool)
    requires
        from <= to <= s.len(),
    ensures
        b == contains(s@.subrange(from as int, to as int), needle@),
{
    let ghost sub = s@.subrange(from as int, to as int);
    let mut at: usize = from;
    loop
        invariant
            from <= at <= to <= s.len(),
            sub == s@.subrange(from as int, to as int),
            forall|i: int| 0 <= i < at - from ==> !occurs_at(sub, needle@, i),
        decreases to - at,
    {
        if range_occurs_at(s, from, to, at, needle) {
            return true;
        }
        if at == to {
            return false;
        }
        at = at + 1;
    }
}

/// Decides whether two strings hold the same characters.
pub fn str_eq(a: &str, b: &str) -> (same: bool)
    ensures
        same == (a@ == b@),
{
    let x = a.as_bytes();
    let y = b.as_bytes();
    proof {
        // Encoding is injective: decoding gives the characters back.
        encode_utf8_decode_utf8(a@);
        encode_utf8_decode_utf8(b@);
        assert(x@ == y@ ==> a@ == b@);
    }
    if x.len() != y.len() {
        return false;
    }
    let mut k: usize = 0;
    while k < x.len()
        invariant
            x@.len() == y@.len(),
            x@ == encode_utf8(a@),
            y@ == encode_utf8(b@),
            k <= x@.len(),
            forall|j: int| 0 <= j < k ==> x@[j] == y@[j],
        decreases x.len() - k,
    {
        if x[k] != y[k] {
            assert(x@[k as int] != y@[k as int]);
            assert(x@ == encode_utf8(a@) && y@ == encode_utf8(b@));
            return false;
        }
        k = k + 1;
    }
    assert(x@ =~= y@);
    true
}

/// Decides whether the range `from..to` of `s` spells exactly `word`.
pub fn range_equals(s: &Vec<char>, from: usize, to: usize, word: &Vec<char>) -> (b: bool)
    requires
        from <= to <= s.len(),
    ensures
        b == (s@.subrange(from as int, to as int) == word@),
{
    let ghost sub = s@.subrange(from as int, to as int);
    if to - from != word.len() {
        return false;
    }
    let mut k: usize = 0;
    while k < word.len()
        invariant
            from <= to <= s.len(),
            to - from == word.len(),
            k <= word.len(),
            sub == s@.subrange(from as int, to as int),
            forall|j: int| 0 <= j < k ==> sub[j] == word@[j],
        decreases word.len() - k,
    {
        if s[from + k] != word[k] {
            assert(sub[k as int] != word@[k as int]);
            return false;
        }
        k = k + 1;
    }
    assert(sub =~= word@);
    true
}

/// Splits `s` into its lines, each given as an index range `(start, end)`.
pub fn line_ranges(s: &Vec<char>) -> (out: Vec<(usize, usize)>)
    ensures
        out@.len() == lines(s@).len(),
        forall|k: int|
            #![trigger out@[k]]
            0 <= k < out@.len() ==> {
                &&& out@[k].0 <= out@[k].1 <= s@.len()
                &&& s@.subrange(out@[k].0 as int, out@[k].1 as int) == lines(s@)[k]
            },
{
    let mut out: Vec<(usize, usize)> = Vec::new();
    let mut start: usize = 0;
    let mut pos: usize = 0;
    while pos < s.len()
        invariant
            start <= pos <= s.len(),
            lines(s@.take(pos as int)).len() == out@.len() + 1,
            lines(s@.take(pos as int)).last() == s@.subrange(start as int, pos as int),
            forall|k: int|
                #![trigger out@[k]]
                0 <= k < out@.len() ==> {
                    &&& out@[k].0 <= out@[k].1 <= s@.len()
                    &&& s@.subrange(out@[k].0 as int, out@[k].1 as int) == lines(
                        s@.take(pos as int),
                    )[k]
                },
        decreases s.len() - pos,
    {
        let ghost before = lines(s@.take(pos as int));
        let ghost after = lines(s@.take(pos + 1));
        let ghost done = out@;
        assert(s@.take(pos + 1).drop_last() == s@.take(pos as int));
        assert(s@.take(pos + 1).last() == s@[pos as int]);
        if s[pos] == '\n' {
            out.push((start, pos));
            start = pos + 1;
            assert(s@.subrange(start as int, pos + 1) == Seq::<char>::empty());
            assert(after == before.push(Seq::<char>::empty()));
        } else {
            assert(s@.subrange(start as int, pos + 1) == before.last().push(s@[pos as int]));
            assert(after == before.drop_last().push(before.last().push(s@[pos as int])));
        }
        assert forall|k: int| #![trigger out@[k]] 0 <= k < out@.len() implies {
            &&& out@[k].0 <= out@[k].1 <= s@.len()
            &&& s@.subrange(out@[k].0 as int, out@[k].1 as int) == after[k]
        } by {
            if k < done.len() {
                assert(out@[k] == done[k]);
                assert(after[k] == before[k]);
            }
        }
        pos = pos + 1;
    }
    assert(s@.take(pos as int) == s@);
    out.push((start, pos));
    out
}

} // verus!

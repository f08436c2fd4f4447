//! Text as sequences of characters: the conversions, searches and cuts that
//! the listing parser is made of.

use std::string::FromUtf8Error;
use vstd::prelude::*;
use vstd::utf8::{
    char_is_scalar, decode_utf8, encode_scalar, encode_utf8, encode_utf8_decode_utf8, valid_utf8,
};

verus! {

/// Trusted: `String::push` appends the given character to the end of the
/// string and changes nothing else.
pub assume_specification[ String::push ](s: &mut String, ch: char)
    ensures
        final(s)@ == old(s)@.push(ch),
;

/// Trusted: the standard library's error for bytes that are not UTF-8,
/// opaque here.
#[verifier::external_type_specification]
#[verifier::external_body]
pub struct ExFromUtf8Error(FromUtf8Error);

/// Trusted: `String::from_utf8` accepts exactly the byte sequences that are
/// valid UTF-8, and the string it makes consists of the bytes given.
#[verifier::external_body]
fn string_from_utf8(bytes: Vec<u8>) -> (text: Result<String, FromUtf8Error>)
    ensures
        text is Ok <==> valid_utf8(bytes@),
        text matches Ok(s) ==> encode_utf8(s@) == bytes@,
{
    String::from_utf8(bytes)
}

/// Decodes UTF-8: the text that `bytes` encode, if they encode any.
pub fn decode(bytes: Vec<u8>) -> (text: Option<String>)
    ensures
        match text {
            Some(s) => valid_utf8(bytes@) && s@ == decode_utf8(bytes@),
            None => !valid_utf8(bytes@),
        },
{
    match string_from_utf8(bytes) {
        Ok(s) => {
            proof {
                encode_utf8_decode_utf8(s@);
            }
            Some(s)
        },
        Err(_) => None,
    }
}

/// The characters of `s`, in order.
pub fn chars_of(s: &str) -> (chars: Vec<char>)
    ensures
        chars@ == s@,
{
    let mut chars: Vec<char> = Vec::new();
    for c in it: s.chars()
        invariant
            it.seq() == s@,
            chars@ == it.seq().take(it.index() as int),
    {
        chars.push(c);
    }
    chars
}

/// The string made of `chars`, in order.
pub fn string_of(chars: &[char]) -> (s: String)
    ensures
        s@ == chars@,
{
    let mut s = String::new();
    let mut i: usize = 0;
    while i < chars.len()
        invariant
            i <= chars.len(),
            s@ == chars@.take(i as int),
        decreases chars.len() - i,
    {
        s.push(chars[i]);
        i += 1;
    }
    s
}

/// A copy of `s[from..to]`.
pub fn copy_range(s: &[char], from: usize, to: usize) -> (piece: Vec<char>)
    requires
        from <= to <= s.len(),
    ensures
        piece@ == s@.subrange(from as int, to as int),
{
    let mut piece: Vec<char> = Vec::new();
    let mut i: usize = from;
    while i < to
        invariant
            from <= i <= to <= s.len(),
            piece@ == s@.subrange(from as int, i as int),
        decreases to - i,
    {
        piece.push(s[i]);
        i += 1;
    }
    piece
}

/// `needle` stands in `s` at index `i`.
pub open spec fn occurs_at(s: Seq<char>, needle: Seq<char>, i: int) -> bool {
    &&& 0 <= i
    &&& i + needle.len() <= s.len()
    &&& forall|k: int| 0 <= k < needle.len() ==> s[i + k] == needle[k]
}

/// The least index from `start` on at which `needle` stands in `s`.
pub open spec fn find_from(s: Seq<char>, needle: Seq<char>, start: int) -> Option<int>
    decreases s.len() - start,
{
    if start < 0 || start + needle.len() > s.len() {
        None
    } else if occurs_at(s, needle, start) {
        Some(start)
    } else {
        find_from(s, needle, start + 1)
    }
}

/// `needle` stands somewhere in `s`.
pub open spec fn contains(s: Seq<char>, needle: Seq<char>) -> bool {
    exists|i: int| occurs_at(s, needle, i)
}

/// `find_from` returns the first occurrence at or after `start`, and `None`
/// exactly when there is none.
pub proof fn lemma_find_from(s: Seq<char>, needle: Seq<char>, start: int)
    requires
        0 <= start,
    ensures
        match find_from(s, needle, start) {
            Some(i) => start <= i && occurs_at(s, needle, i) && forall|j: int|
                start <= j < i ==> !occurs_at(s, needle, j),
            None => forall|j: int| start <= j ==> !occurs_at(s, needle, j),
        },
    decreases s.len() - start,
{
    if start + needle.len() > s.len() {
    } else if occurs_at(s, needle, start) {
    } else {
        lemma_find_from(s, needle, start + 1);
    }
}

/// Searching from the start decides `contains`.
pub proof fn lemma_contains_is_find(s: Seq<char>, needle: Seq<char>)
    ensures
        contains(s, needle) <==> find_from(s, needle, 0) is Some,
{
    lemma_find_from(s, needle, 0);
}

/// Whether `needle` stands in `s` at index `i`.
pub fn occurs_at_index(s: &[char], needle: &[char], i: usize) -> (found: bool)
    ensures
        found == occurs_at(s@, needle@, i as int),
{
    if needle.len() > s.len() || i > s.len() - needle.len() {
        return false;
    }
    let mut k: usize = 0;
    while k < needle.len()
        invariant
            k <= needle.len(),
            i + needle.len() <= s.len(),
            forall|j: int| 0 <= j < k ==> s@[i + j] == needle@[j],
        decreases needle.len() - k,
    {
        if s[i + k] != needle[k] {
            return false;
        }
        k += 1;
    }
    true
}

/// The first index from `start` on at which `needle` stands in `s`.
pub fn find(s: &[char], needle: &[char], start: usize) -> (found: Option<usize>)
    ensures
        match found {
            Some(i) => find_from(s@, needle@, start as int) == Some(i as int),
            None => find_from(s@, needle@, start as int) is None,
        },
{
    if needle.len() > s.len() {
        return None;
    }
    let last: usize = s.len() - needle.len();
    let mut i: usize = start;
    while i < last
        invariant
            start <= i,
            last == s.len() - needle.len(),
            find_from(s@, needle@, start as int) == find_from(s@, needle@, i as int),
        decreases last - i,
    {
        if occurs_at_index(s, needle, i) {
            return Some(i);
        }
        i += 1;
    }
    if i == last && occurs_at_index(s, needle, i) {
        Some(i)
    } else {
        assert(find_from(s@, needle@, i + 1) is None);
        None
    }
}

/// Whether `needle` stands somewhere in `s`.
pub fn has_infix(s: &[char], needle: &[char]) -> (found: bool)
    ensures
        found == contains(s@, needle@),
{
    proof {
        lemma_contains_is_find(s@, needle@);
    }
    find(s, needle, 0).is_some()
}

/// Whether `s` begins with `prefix`.
pub fn has_prefix(s: &[char], prefix: &[char]) -> (found: bool)
    ensures
        found == prefix@.is_prefix_of(s@),
{
    let found = occurs_at_index(s, prefix, 0);
    proof {
        if found {
            assert(prefix@ =~= s@.subrange(0, prefix@.len() as int));
        }
    }
    found
}

/// `s` without the characters equal to `c`.
pub open spec fn without(s: Seq<char>, c: char) -> Seq<char> {
    s.filter(|x: char| x != c)
}

/// A copy of `s` that leaves out every `c`.
pub fn remove_char(s: &[char], c: char) -> (kept: Vec<char>)
    ensures
        kept@ == without(s@, c),
{
    let mut kept: Vec<char> = Vec::new();
    let mut i: usize = 0;
    proof {
        reveal(Seq::filter);
    }
    while i < s.len()
        invariant
            i <= s.len(),
            kept@ == without(s@.take(i as int), c),
        decreases s.len() - i,
    {
        proof {
            reveal(Seq::filter);
            assert(s@.take(i + 1).drop_last() =~= s@.take(i as int));
        }
        if s[i] != c {
            kept.push(s[i]);
        }
        i += 1;
    }
    proof {
        assert(s@.take(s.len() as int) =~= s@);
    }
    kept
}

/// The pieces of `s` from `start` on that lie between the occurrences of
/// `separator`, found from left to right without overlap. There is always
/// one piece more than there are separators.
pub open spec fn split_from(s: Seq<char>, separator: Seq<char>, start: int) -> Seq<Seq<char>>
    decreases s.len() - start,
    when separator.len() > 0 && 0 <= start
    via split_from_decreases
{
    match find_from(s, separator, start) {
        Some(i) => seq![s.subrange(start, i)] + split_from(s, separator, i + separator.len()),
        None => seq![s.subrange(start, s.len() as int)],
    }
}

#[via_fn]
proof fn split_from_decreases(s: Seq<char>, separator: Seq<char>, start: int) {
    lemma_find_from(s, separator, start);
}

/// The pieces of `s` between the occurrences of a nonempty `separator`.
pub open spec fn split(s: Seq<char>, separator: Seq<char>) -> Seq<Seq<char>> {
    split_from(s, separator, 0)
}

/// The character sequences that `pieces` hold.
pub open spec fn views(pieces: Seq<Vec<char>>) -> Seq<Seq<char>> {
    pieces.map_values(|p: Vec<char>| p@)
}

/// Cuts `s` at every occurrence of `separator`.
pub fn split_on(s: &[char], separator: &[char]) -> (pieces: Vec<Vec<char>>)
    requires
        separator.len() > 0,
    ensures
        views(pieces@) == split(s@, separator@),
        pieces.len() >= 1,
{
    let mut pieces: Vec<Vec<char>> = Vec::new();
    let mut start: usize = 0;
    loop
        invariant
            start <= s.len(),
            separator.len() > 0,
            views(pieces@) + split_from(s@, separator@, start as int) == split(s@, separator@),
        decreases s.len() - start,
    {
        proof {
            lemma_find_from(s@, separator@, start as int);
        }
        match find(s, separator, start) {
            Some(i) => {
                let piece = copy_range(s, start, i);
                proof {
                    assert(views(pieces@.push(piece)) =~= views(pieces@).push(piece@));
                    assert(views(pieces@).push(piece@) + split_from(
                        s@,
                        separator@,
                        i + separator.len(),
                    ) =~= views(pieces@) + split_from(s@, separator@, start as int));
                }
                pieces.push(piece);
                start = i + separator.len();
            },
            None => {
                let piece = copy_range(s, start, s.len());
                proof {
                    assert(views(pieces@.push(piece)) =~= views(pieces@).push(piece@));
                    assert(views(pieces@).push(piece@) =~= views(pieces@) + split_from(
                        s@,
                        separator@,
                        start as int,
                    ));
                }
                pieces.push(piece);
                return pieces;
            },
        }
    }
}

/// How many bytes the UTF-8 encoding of `c` takes.
pub open spec fn utf8_width(c: char) -> int {
    if (c as u32) < 0x80 {
        1
    } else if (c as u32) < 0x800 {
        2
    } else if (c as u32) < 0x1_0000 {
        3
    } else {
        4
    }
}

/// What is left of `s` after the characters whose UTF-8 encodings fill its
/// first `n` bytes; `None` when `s` is shorter than that, or when the `n`th
/// byte falls inside a character.
pub open spec fn after_bytes(s: Seq<char>, n: int) -> Option<Seq<char>>
    decreases s.len(),
{
    if n == 0 {
        Some(s)
    } else if n < 0 || s.len() == 0 {
        None
    } else {
        after_bytes(s.drop_first(), n - utf8_width(s[0]))
    }
}

/// The width is the length of the character's encoding.
pub proof fn lemma_utf8_width(c: char)
    ensures
        utf8_width(c) == encode_scalar(c as u32).len(),
{
    char_is_scalar(c);
}

/// After the bytes that encode the first `k` characters come the
/// characters from the `k`th on.
pub proof fn law_after_bytes_is_an_offset_in_bytes(s: Seq<char>, k: int)
    requires
        0 <= k <= s.len(),
    ensures
        after_bytes(s, encode_utf8(s.take(k)).len() as int) == Some(s.skip(k)),
    decreases k,
{
    if k == 0 {
        assert(s.take(0) =~= Seq::<char>::empty());
        assert(s.skip(0) =~= s);
    } else {
        lemma_utf8_width(s[0]);
        assert(s.take(k)[0] == s[0]);
        assert(s.take(k).drop_first() =~= s.drop_first().take(k - 1));
        assert(s.drop_first().skip(k - 1) =~= s.skip(k));
        law_after_bytes_is_an_offset_in_bytes(s.drop_first(), k - 1);
    }
}

/// The width of `c` in UTF-8.
pub fn width_of(c: char) -> (w: usize)
    ensures
        w == utf8_width(c),
{
    let code: u32 = c as u32;
    if code < 0x80 {
        1
    } else if code < 0x800 {
        2
    } else if code < 0x1_0000 {
        3
    } else {
        4
    }
}

/// Drops the first `n` bytes' worth of characters from `s`.
pub fn skip_bytes(s: &[char], n: usize) -> (rest: Option<Vec<char>>)
    ensures
        match rest {
            Some(r) => after_bytes(s@, n as int) == Some(r@),
            None => after_bytes(s@, n as int) is None,
        },
{
    let mut i: usize = 0;
    let mut left: usize = n;
    proof {
        assert(s@.skip(0) =~= s@);
    }
    while left > 0
        invariant
            i <= s.len(),
            after_bytes(s@, n as int) == after_bytes(s@.skip(i as int), left as int),
        decreases s.len() - i,
    {
        if i >= s.len() {
            return None;
        }
        let w = width_of(s[i]);
        proof {
            assert(s@.skip(i as int).drop_first() =~= s@.skip(i + 1));
        }
        if w > left {
            assert(after_bytes(s@.skip(i + 1), left - w) is None);
            return None;
        }
        left -= w;
        i += 1;
    }
    let rest = copy_range(s, i, s.len());
    proof {
        assert(s@.skip(i as int) =~= s@.subrange(i as int, s.len() as int));
    }
    Some(rest)
}

} // verus!

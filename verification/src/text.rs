//! Slicing text by byte offsets and truncating it by Unicode scalar values.
//!
//! A string is modelled by its sequence of `char`s. Byte offsets refer to the
//! UTF-8 encoding of that sequence; an offset is usable for slicing only when
//! it falls on a character boundary.

use vstd::prelude::*;
use vstd::string::*;
use vstd::utf8::*;

verus! {

/// The texts held by a list of strings.
pub open spec fn texts_of(strings: Seq<String>) -> Seq<Seq<char>> {
    Seq::new(strings.len(), |i: int| strings[i]@)
}

/// Whether every entry of `found` holds a text.
pub open spec fn all_present(found: Seq<Option<Seq<char>>>) -> bool {
    forall|i: int| 0 <= i < found.len() ==> (#[trigger] found[i]) is Some
}

/// Length in bytes of the UTF-8 encoding of `text`.
pub open spec fn byte_len(text: Seq<char>) -> nat {
    encode_utf8(text).len()
}

/// True when byte offset `i` falls between two characters of `text`
/// (or at its start or end).
pub open spec fn is_boundary(text: Seq<char>, i: int) -> bool {
    is_char_boundary(encode_utf8(text), i)
}

/// The characters of `text` whose encoding occupies the bytes `a..b`.
pub open spec fn byte_slice(text: Seq<char>, a: int, b: int) -> Seq<char> {
    decode_utf8(encode_utf8(text).subrange(a, b))
}

/// Number of characters of `text` encoded before byte offset `i`.
pub open spec fn chars_before(text: Seq<char>, i: int) -> nat {
    byte_slice(text, 0, i).len()
}

/// The first `n` characters of `s`, or all of `s` when it has fewer.
pub open spec fn first_chars(s: Seq<char>, n: nat) -> Seq<char> {
    if n < s.len() {
        s.take(n as int)
    } else {
        s
    }
}

/// The last `n` characters of `s`, or all of `s` when it has fewer.
pub open spec fn last_chars(s: Seq<char>, n: nat) -> Seq<char> {
    if n < s.len() {
        s.skip(s.len() - n)
    } else {
        s
    }
}

/// A character boundary lies within the encoding.
pub proof fn lemma_boundary_in_range(text: Seq<char>, i: int)
    requires
        is_boundary(text, i),
    ensures
        0 <= i <= byte_len(text),
{
    encode_utf8_valid_utf8(text);
    lemma_char_boundary_in_range(encode_utf8(text), i);
}

proof fn lemma_char_boundary_in_range(bytes: Seq<u8>, i: int)
    requires
        valid_utf8(bytes),
        is_char_boundary(bytes, i),
    ensures
        0 <= i <= bytes.len(),
    decreases bytes.len(),
{
    if i != 0 {
        if bytes.len() > 0 {
            lemma_char_boundary_in_range(pop_first_scalar(bytes), i - length_of_first_scalar(bytes));
        }
    }
}

/// A boundary of a text is still a boundary of any prefix that ends at a
/// later boundary.
proof fn lemma_boundary_of_prefix(bytes: Seq<u8>, a: int, b: int)
    requires
        valid_utf8(bytes),
        is_char_boundary(bytes, a),
        is_char_boundary(bytes, b),
        a <= b,
    ensures
        valid_utf8(bytes.subrange(0, b)),
        is_char_boundary(bytes.subrange(0, b), a),
{
    lemma_char_boundary_in_range(bytes, a);
    lemma_char_boundary_in_range(bytes, b);
    valid_utf8_split(bytes, b);
    let prefix = bytes.subrange(0, b);
    if a == b {
        is_char_boundary_start_end_of_seq(prefix);
    } else {
        is_char_boundary_iff_not_is_continuation_byte(bytes, a);
        is_char_boundary_iff_not_is_continuation_byte(prefix, a);
    }
}

/// Between two boundaries of a text lies a well-formed encoding, and every
/// boundary of the text in that range is a boundary of the part.
proof fn lemma_boundary_of_part(bytes: Seq<u8>, a: int, b: int, c: int)
    requires
        valid_utf8(bytes),
        is_char_boundary(bytes, a),
        is_char_boundary(bytes, b),
        is_char_boundary(bytes, c),
        a <= b <= c,
    ensures
        valid_utf8(bytes.subrange(a, c)),
        is_char_boundary(bytes.subrange(a, c), b - a),
{
    lemma_char_boundary_in_range(bytes, a);
    lemma_char_boundary_in_range(bytes, c);
    lemma_boundary_of_prefix(bytes, a, c);
    let prefix = bytes.subrange(0, c);
    valid_utf8_split(prefix, a);
    let part = bytes.subrange(a, c);
    assert(prefix.subrange(a, prefix.len() as int) =~= part);
    if b == a {
    } else if b == c {
        is_char_boundary_start_end_of_seq(part);
    } else {
        is_char_boundary_iff_not_is_continuation_byte(bytes, b);
        is_char_boundary_iff_not_is_continuation_byte(part, b - a);
    }
}

/// Slicing a text from its first to its last byte gives the text back.
pub proof fn lemma_slice_whole(text: Seq<char>)
    ensures
        byte_slice(text, 0, byte_len(text) as int) == text,
{
    let bytes = encode_utf8(text);
    assert(bytes.subrange(0, bytes.len() as int) =~= bytes);
    encode_utf8_decode_utf8(text);
}

/// Two slices that meet at a boundary join to the slice over both.
pub proof fn lemma_slice_join(text: Seq<char>, a: int, b: int, c: int)
    requires
        is_boundary(text, a),
        is_boundary(text, b),
        is_boundary(text, c),
        a <= b <= c,
    ensures
        byte_slice(text, a, b) + byte_slice(text, b, c) == byte_slice(text, a, c),
{
    let bytes = encode_utf8(text);
    encode_utf8_valid_utf8(text);
    lemma_char_boundary_in_range(bytes, a);
    lemma_char_boundary_in_range(bytes, c);
    lemma_boundary_of_part(bytes, a, b, c);
    let part = bytes.subrange(a, c);
    decode_utf8_split(part, b - a);
    assert(part.subrange(0, b - a) =~= bytes.subrange(a, b));
    assert(part.subrange(b - a, part.len() as int) =~= bytes.subrange(b, c));
}

/// A slice between two boundaries is the run of characters of the text from
/// the character at the first boundary up to the character at the second.
pub proof fn lemma_slice_is_subrange(text: Seq<char>, a: int, b: int)
    requires
        is_boundary(text, a),
        is_boundary(text, b),
        a <= b,
    ensures
        chars_before(text, a) <= chars_before(text, b) <= text.len(),
        byte_slice(text, a, b) == text.subrange(
            chars_before(text, a) as int,
            chars_before(text, b) as int,
        ),
{
    let bytes = encode_utf8(text);
    encode_utf8_valid_utf8(text);
    is_char_boundary_start_end_of_seq(bytes);
    lemma_char_boundary_in_range(bytes, a);
    lemma_char_boundary_in_range(bytes, b);
    let end = bytes.len() as int;
    lemma_slice_join(text, 0, a, b);
    lemma_slice_join(text, 0, b, end);
    lemma_slice_whole(text);
    let head = byte_slice(text, 0, a);
    let middle = byte_slice(text, a, b);
    let tail = byte_slice(text, b, end);
    assert(text == (head + middle) + tail);
    assert(text.subrange(head.len() as int, (head + middle).len() as int) =~= middle);
}

/// A slice between two distinct boundaries holds at least one character.
pub proof fn lemma_slice_nonempty(text: Seq<char>, a: int, b: int)
    requires
        is_boundary(text, a),
        is_boundary(text, b),
        a < b,
    ensures
        byte_slice(text, a, b).len() > 0,
{
    let bytes = encode_utf8(text);
    encode_utf8_valid_utf8(text);
    lemma_char_boundary_in_range(bytes, a);
    lemma_char_boundary_in_range(bytes, b);
    lemma_boundary_of_part(bytes, a, a, b);
}

/// The slice of `s` between the byte offsets `a` and `b`.
pub fn slice_between<'a>(s: &'a str, a: usize, b: usize) -> (r: &'a str)
    requires
        a <= b,
        is_boundary(s@, a as int),
        is_boundary(s@, b as int),
    ensures
        r@ == byte_slice(s@, a as int, b as int),
{
    broadcast use {encode_utf8_valid_utf8, encode_utf8_decode_utf8};

    proof {
        lemma_boundary_in_range(s@, b as int);
        lemma_boundary_of_prefix(s.spec_bytes(), a as int, b as int);
    }
    let (head, _) = s.split_at(b);
    let (_, middle) = head.split_at(a);
    proof {
        let bytes = s.spec_bytes();
        assert(middle.spec_bytes() =~= bytes.subrange(a as int, b as int));
        assert(decode_utf8(encode_utf8(middle@)) == middle@);
    }
    middle
}

/// Whether two strings hold the same characters.
pub fn same_text(a: &str, b: &str) -> (same: bool)
    ensures
        same == (a@ == b@),
{
    let left = a.to_owned();
    let right = b.to_owned();
    left == right
}

/// Truncates `s` to its first `n` characters; returns `s` when it has no
/// more than `n`. Characters are Unicode scalar values, never bytes.
pub fn first_n_chars<'a>(s: &'a str, n: usize) -> (r: &'a str)
    ensures
        r@ == first_chars(s@, n as nat),
{
    let len = s.unicode_len();
    if n < len {
        let r = s.substring_char(0, n);
        assert(s@.subrange(0, n as int) =~= s@.take(n as int));
        r
    } else {
        s
    }
}

/// Truncates `s` to its last `n` characters; returns `s` when it has no
/// more than `n`. Characters are Unicode scalar values, never bytes.
pub fn last_n_chars<'a>(s: &'a str, n: usize) -> (r: &'a str)
    ensures
        r@ == last_chars(s@, n as nat),
{
    let len = s.unicode_len();
    if n < len {
        let r = s.substring_char(len - n, len);
        assert(s@.subrange(len - n, len as int) =~= s@.skip(len - n));
        r
    } else {
        s
    }
}

} // verus!

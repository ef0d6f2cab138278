//! UTF-8 facts that the inputs rest on, and the two calls into `core::str`
//! and `char` that they make.

use vstd::prelude::*;
use vstd::string::StringSliceAdditionalSpecFns;
use vstd::utf8::{
    decode_utf8, decode_utf8_encode_utf8, encode_scalar, encode_utf8, encode_utf8_decode_utf8,
    encode_utf8_valid_utf8, is_char_boundary, length_of_first_scalar, pop_first_scalar,
    valid_first_scalar, valid_utf8, valid_utf8_concat, valid_utf8_split,
};

verus! {

/// Why a byte sequence is not UTF-8.
#[derive(Debug, Clone, Copy, PartialEq, Eq, Structural)]
pub struct Utf8Fault {
    /// Length of the longest prefix that is valid UTF-8.
    pub valid_up_to: usize,
    /// Length of the offending sequence, or `None` where the bytes end in the
    /// middle of a character.
    pub error_len: Option<usize>,
}

/// Whether `v` is the length of the longest prefix of `bytes` that is valid
/// UTF-8.
pub open spec fn is_longest_valid_prefix(bytes: Seq<u8>, v: int) -> bool {
    &&& 0 <= v <= bytes.len()
    &&& valid_utf8(bytes.take(v))
    &&& forall|j: int| v < j <= bytes.len() ==> !valid_utf8(#[trigger] bytes.take(j))
}

/// The length of the longest prefix of `bytes` that is valid UTF-8.
pub open spec fn valid_up_to(bytes: Seq<u8>) -> int {
    choose|v: int| is_longest_valid_prefix(bytes, v)
}

/// There is one longest valid prefix.
pub proof fn lemma_longest_valid_prefix(bytes: Seq<u8>, v: int)
    requires
        is_longest_valid_prefix(bytes, v),
    ensures
        valid_up_to(bytes) == v,
{
    let w = valid_up_to(bytes);
    assert(is_longest_valid_prefix(bytes, w));
    if w < v {
        assert(!valid_utf8(bytes.take(v)));
    }
    if v < w {
        assert(!valid_utf8(bytes.take(w)));
    }
}

/// Whether `tail` is the beginning of a character that is cut off: bytes
/// that more bytes can complete to the encoding of one character.
pub open spec fn cut_off(tail: Seq<u8>) -> bool {
    &&& 0 < tail.len() < 4
    &&& exists|rest: Seq<u8>| #[trigger]
        valid_first_scalar(tail + rest) && length_of_first_scalar(tail + rest) > tail.len()
}

/// Where the longest valid prefix of `held` is followed by bytes that are not
/// the beginning of a character that is cut off, no bytes that come after
/// `held` make a character of them.
pub proof fn lemma_offending(held: Seq<u8>, v: int, more: Seq<u8>)
    requires
        is_longest_valid_prefix(held, v),
        v < held.len(),
        !cut_off(held.skip(v)),
    ensures
        !valid_first_scalar((held + more).skip(v)),
{
    let tail = held.skip(v);
    let all = (held + more).skip(v);
    assert(all =~= tail + more);
    if valid_first_scalar(all) {
        let l = length_of_first_scalar(all);
        if l <= tail.len() {
            assert(forall|i: int| 0 <= i < l ==> tail[i] == all[i]);
            assert(valid_first_scalar(tail));
            assert(length_of_first_scalar(tail) == l);
            assert(tail =~= held.subrange(v, held.len() as int));
            assert(held.take(v) =~= held.subrange(0, v));
            vstd::utf8::partial_valid_utf8_extend(held, v);
            assert(held.subrange(0, v + l) =~= held.take(v + l));
            assert(!valid_utf8(held.take(v + l)));
        } else {
            assert(valid_first_scalar(tail + more) && length_of_first_scalar(tail + more)
                > tail.len());
        }
    }
}

/// Where all of the longest valid prefix is taken away, what is left has no
/// valid prefix but the empty one.
pub proof fn lemma_longest_after(bytes: Seq<u8>, v: int)
    requires
        is_longest_valid_prefix(bytes, v),
    ensures
        is_longest_valid_prefix(bytes.skip(v), 0),
{
    let rest = bytes.skip(v);
    assert(rest.take(0) =~= Seq::<u8>::empty());
    assert forall|j: int| 0 < j <= rest.len() implies !valid_utf8(#[trigger] rest.take(j)) by {
        if valid_utf8(rest.take(j)) {
            valid_utf8_concat(bytes.take(v), rest.take(j));
            assert(bytes.take(v) + rest.take(j) =~= bytes.take(v + j));
            assert(!valid_utf8(bytes.take(v + j)));
        }
    }
}

/// What `core::str::Utf8Error::error_len` reports for the error that
/// `core::str::from_utf8` finds in `bytes`.
pub uninterp spec fn utf8_error_len(bytes: Seq<u8>) -> Option<usize>;

/// `core::str::from_utf8`: the bytes as a string where they are valid UTF-8,
/// and otherwise the length of the longest valid prefix (the largest index up
/// to which the bytes are valid) and the error length. The error length is
/// `None` where the end of the bytes was reached in the middle of a
/// character, that is, where what follows the valid prefix is the beginning
/// of a character that is cut off; it is the length of the offending
/// sequence where an unexpected byte was met.
#[verifier::external_body]
pub(crate) fn str_from_utf8(bytes: &[u8]) -> (r: Result<&str, Utf8Fault>)
    ensures
        match r {
            Ok(s) => valid_utf8(bytes@) && s.spec_bytes() == bytes@,
            Err(fault) => {
                &&& !valid_utf8(bytes@)
                &&& fault.valid_up_to < bytes@.len()
                &&& is_longest_valid_prefix(bytes@, fault.valid_up_to as int)
                &&& fault.error_len == utf8_error_len(bytes@)
                &&& fault.error_len is None <==> cut_off(bytes@.skip(fault.valid_up_to as int))
            },
        },
{
    match core::str::from_utf8(bytes) {
        Ok(s) => Ok(s),
        Err(e) => Err(Utf8Fault { valid_up_to: e.valid_up_to(), error_len: e.error_len() }),
    }
}

/// Valid UTF-8 bytes as text.
pub fn text_of(bytes: &[u8]) -> (s: &str)
    requires
        valid_utf8(bytes@),
    ensures
        s.spec_bytes() == bytes@,
{
    str_from_utf8(bytes).unwrap()
}

/// `char::len_utf8`: the number of bytes of the character's UTF-8 encoding.
pub assume_specification[ char::len_utf8 ](c: char) -> (n: usize)
    ensures
        n == encode_scalar(c as u32).len(),
        1 <= n <= 4,
;

/// A valid prefix of valid bytes ends on a character boundary.
pub proof fn lemma_valid_prefix_is_boundary(bytes: Seq<u8>, n: int)
    requires
        valid_utf8(bytes),
        0 <= n <= bytes.len(),
        valid_utf8(bytes.take(n)),
    ensures
        is_char_boundary(bytes, n),
    decreases bytes.len(),
{
    if n != 0 {
        let prefix = bytes.take(n);
        let l = length_of_first_scalar(bytes);
        assert(valid_first_scalar(prefix));
        assert(valid_first_scalar(bytes));
        assert(prefix[0] == bytes[0]);
        assert(length_of_first_scalar(prefix) == l);
        assert(pop_first_scalar(prefix) =~= pop_first_scalar(bytes).take(n - l));
        lemma_valid_prefix_is_boundary(pop_first_scalar(bytes), n - l);
    }
}

/// Valid bytes split at a character boundary into two valid parts, and the
/// text of the whole is the text of the parts.
pub proof fn lemma_split_at_boundary(bytes: Seq<u8>, n: int)
    requires
        valid_utf8(bytes),
        is_char_boundary(bytes, n),
    ensures
        0 <= n <= bytes.len(),
        valid_utf8(bytes.take(n)),
        valid_utf8(bytes.skip(n)),
        decode_utf8(bytes) == decode_utf8(bytes.take(n)) + decode_utf8(bytes.skip(n)),
{
    lemma_boundary_in_range(bytes, n);
    valid_utf8_split(bytes, n);
    vstd::utf8::decode_utf8_split(bytes, n);
}

/// A character boundary lies within the bytes.
pub proof fn lemma_boundary_in_range(bytes: Seq<u8>, n: int)
    requires
        valid_utf8(bytes),
        is_char_boundary(bytes, n),
    ensures
        0 <= n <= bytes.len(),
    decreases bytes.len(),
{
    if n != 0 {
        lemma_boundary_in_range(pop_first_scalar(bytes), n - length_of_first_scalar(bytes));
    }
}

/// The encoding of a text in two parts is the two encodings, one after the
/// other.
pub proof fn lemma_encode_concat(a: Seq<char>, b: Seq<char>)
    ensures
        encode_utf8(a + b) == encode_utf8(a) + encode_utf8(b),
    decreases a.len(),
{
    if a.len() == 0 {
        assert(a + b =~= b);
        assert(encode_utf8(a) + encode_utf8(b) =~= encode_utf8(b));
    } else {
        assert((a + b).drop_first() =~= a.drop_first() + b);
        lemma_encode_concat(a.drop_first(), b);
        assert(encode_utf8(a + b) =~= encode_utf8(a) + encode_utf8(b));
    }
}

/// The encoding of a text of one character is the encoding of the character.
pub proof fn lemma_encode_one(c: char)
    ensures
        encode_utf8(seq![c]) == encode_scalar(c as u32),
{
    let one = seq![c];
    assert(one.drop_first() =~= Seq::<char>::empty());
    assert(encode_utf8(one.drop_first()) =~= Seq::<u8>::empty());
    assert(encode_utf8(one) =~= encode_scalar(c as u32));
}

/// Two valid byte sequences, one after the other, are valid, and their text
/// is the two texts, one after the other.
pub proof fn lemma_decode_concat(x: Seq<u8>, y: Seq<u8>)
    requires
        valid_utf8(x),
        valid_utf8(y),
    ensures
        valid_utf8(x + y),
        decode_utf8(x + y) == decode_utf8(x) + decode_utf8(y),
{
    valid_utf8_concat(x, y);
    decode_utf8_encode_utf8(x);
    decode_utf8_encode_utf8(y);
    lemma_encode_concat(decode_utf8(x), decode_utf8(y));
    encode_utf8_decode_utf8(decode_utf8(x) + decode_utf8(y));
}

/// The encoding of the first `j` characters of a text ends on a character
/// boundary of the text's encoding.
pub proof fn lemma_chars_boundary(text: Seq<char>, j: int)
    requires
        0 <= j <= text.len(),
    ensures
        encode_utf8(text) == encode_utf8(text.take(j)) + encode_utf8(text.skip(j)),
        is_char_boundary(encode_utf8(text), encode_utf8(text.take(j)).len() as int),
        valid_utf8(encode_utf8(text)),
{
    lemma_encode_concat(text.take(j), text.skip(j));
    assert(text.take(j) + text.skip(j) =~= text);
    encode_utf8_valid_utf8(text);
    encode_utf8_valid_utf8(text.take(j));
    let whole = encode_utf8(text);
    let n = encode_utf8(text.take(j)).len() as int;
    assert(whole.take(n) =~= encode_utf8(text.take(j)));
    lemma_valid_prefix_is_boundary(whole, n);
}

/// The first character of valid bytes ends on a character boundary.
pub proof fn lemma_first_char_boundary(bytes: Seq<u8>)
    requires
        valid_utf8(bytes),
        bytes.len() > 0,
    ensures
        encode_scalar(decode_utf8(bytes)[0] as u32).len() <= bytes.len(),
        is_char_boundary(bytes, encode_scalar(decode_utf8(bytes)[0] as u32).len() as int),
{
    vstd::utf8::decode_utf8_first_scalar(bytes);
    let l = length_of_first_scalar(bytes);
    assert(vstd::utf8::take_first_scalar(bytes).len() == l);
    assert(is_char_boundary(pop_first_scalar(bytes), 0));
}

/// The text of a string is what its bytes decode to.
pub proof fn lemma_text_of_bytes(s: &str, bytes: Seq<u8>)
    requires
        s.spec_bytes() == bytes,
    ensures
        valid_utf8(bytes),
        s@ == decode_utf8(bytes),
{
    encode_utf8_valid_utf8(s@);
    encode_utf8_decode_utf8(s@);
}

} // verus!

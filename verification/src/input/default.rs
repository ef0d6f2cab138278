//! The scans that every input shares.

use vstd::prelude::*;
use vstd::std_specs::iter::IteratorSpec;
use vstd::string::StringSliceAdditionalSpecFns;
use vstd::utf8::{decode_utf8, encode_utf8, is_char_boundary, valid_first_scalar, valid_utf8};

use crate::input::utf8::{
    is_longest_valid_prefix, lemma_chars_boundary, lemma_decode_concat, lemma_longest_after,
    lemma_text_of_bytes, lemma_valid_prefix_is_boundary,
};
use crate::input::{refill_post, Input, ReadError, EOF_INDEX};

verus! {

/// What a predicate can say of a character: the verdict `b` on `c` is one
/// where a call of `func` on `c` can return `b`.
pub open spec fn verdicts<F: Fn(char) -> bool>(func: &F) -> spec_fn(char, bool) -> bool {
    |c: char, b: bool| call_ensures(*func, (c,), b)
}

/// Whether no is a verdict on every character of `text`.
pub open spec fn all_no(says: spec_fn(char, bool) -> bool, text: Seq<char>) -> bool {
    forall|k: int| 0 <= k < text.len() ==> says(#[trigger] text[k], false)
}

/// Whether yes is a verdict on the first character that `bytes` encode.
pub open spec fn first_yes(says: spec_fn(char, bool) -> bool, bytes: Seq<u8>) -> bool {
    bytes.len() > 0 && says(decode_utf8(bytes)[0], true)
}

/// Whether `bytes` begin with `n` bytes of valid text with the verdict no on
/// its every character.
pub open spec fn no_over(says: spec_fn(char, bool) -> bool, bytes: Seq<u8>, n: int) -> bool {
    &&& 0 <= n <= bytes.len()
    &&& valid_utf8(bytes.take(n))
    &&& all_no(says, decode_utf8(bytes.take(n)))
}

/// Whether the predicate can say no to every character of `text`.
pub open spec fn rejects<F: Fn(char) -> bool>(func: &F, text: Seq<char>) -> bool {
    all_no(verdicts(func), text)
}

/// Whether the predicate can say yes to the first character that `bytes`
/// encode.
pub open spec fn accepts_first<F: Fn(char) -> bool>(func: &F, bytes: Seq<u8>) -> bool {
    first_yes(verdicts(func), bytes)
}

/// Whether `bytes` begin with `n` bytes of valid text whose every character
/// the predicate can say no to.
pub open spec fn passes_over<F: Fn(char) -> bool>(func: &F, bytes: Seq<u8>, n: int) -> bool {
    no_over(verdicts(func), bytes, n)
}

/// A text is rejected where its two parts are.
pub proof fn lemma_rejects_concat<F: Fn(char) -> bool>(func: &F, a: Seq<char>, b: Seq<char>)
    requires
        rejects(func, a),
        rejects(func, b),
    ensures
        rejects(func, a + b),
{
    assert forall|k: int| 0 <= k < (a + b).len() implies call_ensures(
        *func,
        (#[trigger] (a + b)[k],),
        false,
    ) by {
        if k < a.len() {
            assert((a + b)[k] == a[k]);
        } else {
            assert((a + b)[k] == b[k - a.len()]);
        }
    }
}

/// What is passed over in two goes is passed over.
pub proof fn lemma_passes_over_more<F: Fn(char) -> bool>(
    func: &F,
    bytes: Seq<u8>,
    n: int,
    m: int,
)
    requires
        passes_over(func, bytes, n),
        passes_over(func, bytes.skip(n), m),
    ensures
        passes_over(func, bytes, n + m),
{
    let first = bytes.take(n);
    let second = bytes.skip(n).take(m);
    assert(bytes.take(n + m) =~= first + second);
    lemma_decode_concat(first, second);
    lemma_rejects_concat(func, decode_utf8(first), decode_utf8(second));
}

/// The byte offset of the first character of `text` that the predicate says
/// yes to, if there is one.
pub fn find_first<F: Fn(char) -> bool>(text: &str, func: &F) -> (r: Option<usize>)
    requires
        forall|c: char| call_requires(*func, (c,)),
        text.spec_bytes().len() <= usize::MAX,
    ensures
        match r {
            Some(i) => {
                &&& i < text.spec_bytes().len()
                &&& is_char_boundary(text.spec_bytes(), i as int)
                &&& passes_over(func, text.spec_bytes(), i as int)
                &&& accepts_first(func, text.spec_bytes().skip(i as int))
            },
            None => rejects(func, text@),
        },
{
    broadcast use vstd::string::group_string_axioms;

    let ghost bytes = text.spec_bytes();
    let mut chars = text.chars();
    let ghost mut seen: int = 0;
    let mut i: usize = 0;
    proof {
        assert(text@.take(0) =~= Seq::<char>::empty());
        lemma_chars_boundary(text@, 0);
    }
    loop
        invariant
            forall|c: char| call_requires(*func, (c,)),
            bytes == text.spec_bytes(),
            bytes.len() <= usize::MAX,
            chars.obeys_prophetic_iter_laws(),
            0 <= seen <= text@.len(),
            chars.remaining() == text@.skip(seen),
            i == encode_utf8(text@.take(seen)).len(),
            i <= bytes.len(),
            rejects(func, text@.take(seen)),
        decreases text@.len() - seen,
    {
        match chars.next() {
            None => {
                assert(text@.take(seen) =~= text@);
                return None;
            },
            Some(c) => {
                assert(c == text@[seen]);
                proof {
                    lemma_chars_boundary(text@, seen);
                    lemma_chars_boundary(text@, seen + 1);
                    vstd::utf8::encode_utf8_valid_utf8(text@.take(seen));
                    vstd::utf8::encode_utf8_decode_utf8(text@.take(seen));
                    vstd::utf8::encode_utf8_valid_utf8(text@.skip(seen));
                    vstd::utf8::encode_utf8_decode_utf8(text@.skip(seen));
                    assert(bytes.take(i as int) =~= encode_utf8(text@.take(seen)));
                    assert(bytes.skip(i as int) =~= encode_utf8(text@.skip(seen)));
                }
                if func(c) {
                    return Some(i);
                }
                proof {
                    assert(text@.take(seen + 1) =~= text@.take(seen) + seq![c]);
                    crate::input::utf8::lemma_encode_concat(text@.take(seen), seq![c]);
                    crate::input::utf8::lemma_encode_one(c);
                    assert(text@.skip(seen).drop_first() =~= text@.skip(seen + 1));
                    seen = seen + 1;
                }
                i += c.len_utf8();
            },
        }
    }
}

/// A result without its value.
pub open spec fn outcome<T>(r: Result<T, ReadError>) -> Result<(), ReadError> {
    match r {
        Ok(_) => Ok(()),
        Err(e) => Err(e),
    }
}

/// `buffer_at_least(n)`, and on success the buffered prefix as text.
#[inline(always)]
pub fn default_read_at_least<I: Input>(input: &mut I, n: usize) -> (r: Result<
    &str,
    ReadError,
>)
    requires
        old(input).wf(),
        n <= old(input).limit(),
    ensures
        refill_post(&*old(input), n, &*final(input), outcome(r)),
        r matches Ok(s) ==> s.spec_bytes() == final(input).buffered() && is_char_boundary(
            final(input).buffered(),
            final(input).buffered().len() as int,
        ),
{
    let refill = input.buffer_at_least(n);
    proof {
        assert(refill_post(old(input), n, input, refill));
    }
    match refill {
        Ok(()) => {
            let s = input.read();
            proof {
                assert(refill->Ok_0 == ());
            }
            Ok(s)
        },
        Err(e) => Err(e),
    }
}

/// The first character of the input, after a refill to four bytes.
#[inline(always)]
pub fn default_peek<I: Input>(input: &mut I) -> (r: Result<char, ReadError>)
    requires
        old(input).wf(),
        4 <= old(input).limit(),
    ensures
        refill_post(old(input), 4, final(input), outcome(r)),
        r matches Ok(c) ==> final(input).buffered().len() > 0 && c == decode_utf8(
            final(input).buffered(),
        )[0],
{
    broadcast use vstd::string::group_string_axioms;

    match default_read_at_least(input, 4) {
        Ok(s) => {
            proof {
                lemma_text_of_bytes(s, s.spec_bytes());
                if s@.len() == 0 {
                    assert(encode_utf8(s@) =~= Seq::<u8>::empty());
                }
            }
            let mut chars = s.chars();
            Ok(chars.next().unwrap())
        },
        Err(e) => Err(e),
    }
}

/// The number of bytes by which `post` is ahead of `pre`.
pub open spec fn advance<I: Input>(pre: &I, post: &I) -> int {
    pre.unread().len() - post.unread().len()
}

/// Whether `post` is `pre` moved forward over text that the predicate can
/// say no to, character by character.
pub open spec fn moved_past<I: Input, F: Fn(char) -> bool>(pre: &I, post: &I, func: &F) -> bool {
    &&& post.wf()
    &&& post.limit() == pre.limit()
    &&& passes_over(func, pre.unread(), advance(pre, post))
    &&& post.unread() == pre.unread().skip(advance(pre, post))
    &&& post.position() == if pre.position() == EOF_INDEX || post.position() == EOF_INDEX {
        EOF_INDEX as int
    } else {
        pre.position() + advance(pre, post)
    }
}

/// Whether `post` is `mid` after its first `n` bytes have been consumed:
/// what every input promises of that, together with what the input itself
/// says of it.
pub open spec fn consumed<I: Input>(mid: &I, n: int, post: &I) -> bool {
    &&& mid.consumes(n as usize, post)
    &&& post.wf()
    &&& post.limit() == mid.limit()
    &&& 0 <= n <= mid.buffered().len()
    &&& post.buffered() == mid.buffered().skip(n)
    &&& post.unread() == mid.unread().skip(n)
    &&& post.position() == if mid.position() == EOF_INDEX {
        EOF_INDEX as int
    } else {
        mid.position() + n
    }
}

/// The number of bytes that a scan asks for at a time: a chunk, but no less
/// than the four bytes of the longest character, so that every refill that
/// succeeds brings a character.
pub open spec fn refill_size(chunk_size: usize) -> usize {
    if chunk_size < 4 {
        4
    } else {
        chunk_size
    }
}

/// What a scan that consumes makes of an input `pre` whose end is not
/// latched, where `says` holds the verdicts of the predicate: the input
/// `post` and the result `r`.
///
/// A refill makes `mid` of `pre`. An encoding error of the refill is the
/// result, and `mid` is left. Else the buffered prefix is scanned. Where yes
/// is the verdict on a character, what is before it is consumed and the
/// scan succeeds. Where no is the verdict on all, all of the prefix is
/// consumed; if the end of the input is then latched, it is the result; else
/// the scan goes on from there in the same way.
pub open spec fn scans_by<I: Input>(
    pre: &I,
    post: &I,
    says: spec_fn(char, bool) -> bool,
    chunk_size: usize,
    r: Result<(), ReadError>,
) -> bool
    decreases pre.unread().len(),
{
    exists|mid: I, refill: Result<(), ReadError>|
        {
            &&& #[trigger] refill_post(pre, refill_size(chunk_size), &mid, refill)
            &&& if refill is Err && refill->Err_0 is InvalidUtf8 {
                r == refill && *post == mid
            } else {
                ||| {
                    &&& r is Ok
                    &&& no_over(says, mid.buffered(), advance(&mid, post))
                    &&& first_yes(says, post.buffered())
                    &&& consumed(&mid, advance(&mid, post), post)
                }
                ||| {
                    &&& all_no(says, decode_utf8(mid.buffered()))
                    &&& exists|next: I|
                        {
                            &&& #[trigger] consumed(&mid, mid.buffered().len() as int, &next)
                            &&& if next.position() == EOF_INDEX {
                                r == Err::<(), ReadError>(ReadError::EOF) && *post == next
                            } else {
                                next.unread().len() < pre.unread().len() && scans_by(
                                    &next,
                                    post,
                                    says,
                                    chunk_size,
                                    r,
                                )
                            }
                        }
                }
            }
        }
}

/// [`scans_by`] with the verdicts of `func`.
pub open spec fn scans<I: Input, F: Fn(char) -> bool>(
    pre: &I,
    post: &I,
    func: &F,
    chunk_size: usize,
    r: Result<(), ReadError>,
) -> bool {
    scans_by(pre, post, verdicts(func), chunk_size, r)
}

/// What a scan that consumes makes of the input `pre`: the input `post` and
/// the result `r`.
///
/// An input whose end is latched stays as it is, and the end of the input is
/// the result. Else the input is moved forward over text that the predicate
/// says no to, refill by refill, as [`scans`] says. On success the next
/// character is buffered and is one that the predicate says yes to. At the
/// end of the input nothing is buffered and what is left has no valid text
/// at its front. An encoding error names the offset of bytes that begin no
/// character.
pub open spec fn consume_until_post<I: Input, F: Fn(char) -> bool>(
    pre: &I,
    post: &I,
    func: &F,
    chunk_size: usize,
    r: Result<(), ReadError>,
) -> bool {
    &&& moved_past(pre, post, func)
    &&& pre.position() == EOF_INDEX ==> r == Err::<(), ReadError>(ReadError::EOF) && *post
        == *pre
    &&& pre.position() != EOF_INDEX ==> scans(pre, post, func, chunk_size, r)
    &&& match r {
        Ok(()) => accepts_first(func, post.buffered()),
        Err(ReadError::EOF) => {
            &&& post.position() == EOF_INDEX
            &&& pre.position() != EOF_INDEX ==> post.buffered().len() == 0
                && is_longest_valid_prefix(post.unread(), 0)
        },
        Err(ReadError::InvalidUtf8(e)) => {
            &&& post.position() != EOF_INDEX
            &&& post.position() + post.buffered().len() <= e.index
            &&& e.index < post.position() + post.unread().len()
            &&& valid_utf8(post.unread().take(e.index - post.position()))
            &&& !valid_first_scalar(post.unread().skip(e.index - post.position()))
        },
    }
}

/// Moves forward to the first character that the predicate says yes to. The
/// input is refilled [`refill_size`] bytes at a time, and every character
/// before that one is consumed. Where the input ends first, all of its text
/// has been consumed, the end is latched, and what is left has no valid text
/// at its front. An encoding error ends the scan where the refill met it. An
/// input whose end is latched is left as it is.
///
/// The input must be able to hold [`refill_size`] bytes.
pub fn default_consume_until<I: Input, F: Fn(char) -> bool>(
    input: &mut I,
    chunk_size: usize,
    func: F,
) -> (r: Result<(), ReadError>)
    requires
        old(input).wf(),
        refill_size(chunk_size) <= old(input).limit(),
        forall|c: char| call_requires(func, (c,)),
    ensures
        consume_until_post(old(input), final(input), &func, chunk_size, r),
{
    proof {
        assert(old(input).unread().take(0) =~= Seq::<u8>::empty());
        assert(old(input).unread().skip(0) =~= old(input).unread());
        assert(decode_utf8(Seq::<u8>::empty()) =~= Seq::<char>::empty());
    }
    if input.is_eof() {
        return Err(ReadError::EOF);
    }
    let size = if chunk_size < 4 {
        4
    } else {
        chunk_size
    };
    let ghost mut begun = *input;
    loop
        invariant
            size == refill_size(chunk_size),
            size <= input.limit(),
            forall|c: char| call_requires(func, (c,)),
            moved_past(old(input), input, &func),
            input.position() != EOF_INDEX,
            old(input).position() != EOF_INDEX,
            begun == *input,
            forall|post: I, res: Result<(), ReadError>| #[trigger]
                scans(&begun, &post, &func, chunk_size, res) ==> scans(
                    old(input),
                    &post,
                    &func,
                    chunk_size,
                    res,
                ),
        decreases input.unread().len(),
    {
        let ghost done = advance(old(input), input);
        let refill = input.buffer_at_least(size);
        let ghost mid = *input;
        proof {
            assert(refill_post(&begun, size, &mid, refill));
        }
        if let Err(ReadError::InvalidUtf8(err)) = refill {
            proof {
                assert(scans(&begun, input, &func, chunk_size, Err(ReadError::InvalidUtf8(err))));
            }
            return Err(ReadError::InvalidUtf8(err));
        }
        proof {
            input.lemma_wf();
        }
        let read = input.read();
        let ghost view = input.buffered();
        let found = find_first(read, &func);
        let len = read.len();
        proof {
            lemma_text_of_bytes(read, view);
        }
        match found {
            Some(i) => {
                input.consume(i);
                proof {
                    assert(mid.unread().take(i as int) =~= view.take(i as int));
                    assert(passes_over(&func, old(input).unread().skip(done), i as int));
                    lemma_passes_over_more(&func, old(input).unread(), done, i as int);
                    assert(input.unread() =~= old(input).unread().skip(done + i));
                    assert(consumed(&mid, advance(&mid, input), input));
                    assert(scans(&begun, input, &func, chunk_size, Ok(())));
                }
                return Ok(());
            },
            None => {},
        }
        proof {
            vstd::utf8::is_char_boundary_start_end_of_seq(view);
            assert(view.take(len as int) =~= view);
        }
        input.consume(len);
        proof {
            assert(mid.unread().take(len as int) =~= view);
            assert(passes_over(&func, old(input).unread().skip(done), len as int));
            lemma_passes_over_more(&func, old(input).unread(), done, len as int);
            assert(input.unread() =~= old(input).unread().skip(done + len));
        }
        let ghost next = *input;
        proof {
            assert(consumed(&mid, mid.buffered().len() as int, &next));
        }
        if input.is_eof() {
            proof {
                if refill is Err {
                    lemma_longest_after(mid.unread(), len as int);
                } else {
                    mid.lemma_wf();
                    assert(input.unread() =~= Seq::<u8>::empty());
                    assert(input.unread().take(0) =~= Seq::<u8>::empty());
                }
                assert(scans(&begun, input, &func, chunk_size, Err(ReadError::EOF)));
            }
            return Err(ReadError::EOF);
        }
        proof {
            assert forall|post: I, res: Result<(), ReadError>| #[trigger]
                scans(&next, &post, &func, chunk_size, res) implies scans(
                old(input),
                &post,
                &func,
                chunk_size,
                res,
            ) by {
                assert(scans(&begun, &post, &func, chunk_size, res));
            }
            begun = next;
        }
    }
}

/// What a scan that does not consume makes of an input `pre` whose end is
/// not latched and of whose buffered prefix the first `count` bytes have been
/// scanned, where `says` holds the verdicts of the predicate: the input
/// `post` and the result `r`, which is the length of the text that the scan
/// returns or the error with which it fails.
///
/// The lookahead of the scan is bounded by the limit of the input. Where
/// another refill would not fit within the limit, the scan stops with the
/// `count` bytes scanned so far: the buffer is full. Else a refill makes
/// `mid` of `pre`. An encoding error of the refill is the result. Else the
/// bytes behind the first `count` are scanned. Where yes is the verdict on a
/// character, the length of what is before it is the result. Where no is
/// the verdict on all, a refill that met the end of the input makes that the
/// result, and after a refill that succeeded the scan goes on in the same
/// way with all of the buffered prefix scanned.
pub open spec fn reads_by<I: Input>(
    pre: &I,
    count: int,
    post: &I,
    says: spec_fn(char, bool) -> bool,
    chunk_size: usize,
    r: Result<int, ReadError>,
) -> bool
    decreases pre.unread().len() - count,
{
    if refill_size(chunk_size) > pre.limit() - count {
        *post == *pre && r == Ok::<int, ReadError>(count)
    } else {
        exists|mid: I, refill: Result<(), ReadError>|
            {
                &&& #[trigger] refill_post(
                    pre,
                    (count + refill_size(chunk_size)) as usize,
                    &mid,
                    refill,
                )
                &&& *post == mid || !(refill is Err)
                &&& if refill is Err && refill->Err_0 is InvalidUtf8 {
                    r == Err::<int, ReadError>(refill->Err_0)
                } else {
                    ||| {
                        &&& *post == mid
                        &&& r is Ok
                        &&& count <= r->Ok_0 < mid.buffered().len()
                        &&& no_over(says, mid.buffered().skip(count), r->Ok_0 - count)
                        &&& first_yes(says, mid.buffered().skip(r->Ok_0))
                    }
                    ||| {
                        &&& all_no(says, decode_utf8(mid.buffered().skip(count)))
                        &&& if refill is Err {
                            r == Err::<int, ReadError>(ReadError::EOF)
                        } else {
                            &&& count < mid.buffered().len()
                            &&& mid.unread().len() == pre.unread().len()
                            &&& mid.buffered().len() <= mid.unread().len()
                            &&& reads_by(
                                &mid,
                                mid.buffered().len() as int,
                                post,
                                says,
                                chunk_size,
                                r,
                            )
                        }
                    }
                }
            }
    }
}

/// [`reads_by`] with the verdicts of `func`.
pub open spec fn reads<I: Input, F: Fn(char) -> bool>(
    pre: &I,
    count: int,
    post: &I,
    func: &F,
    chunk_size: usize,
    r: Result<int, ReadError>,
) -> bool {
    reads_by(pre, count, post, verdicts(func), chunk_size, r)
}

/// What a scan that does not consume makes of the input `pre`: the input
/// `post` and the result `r`, which is the length of the text that the scan
/// returns or the error with which it fails.
///
/// Nothing is consumed. An input whose end is latched stays as it is, and
/// the end of the input is the result. Else the scan goes refill by refill
/// as [`reads`] says, and ends in one of four ways.
///
/// * The character is found: the text before it is returned, and the
///   character is buffered behind it.
/// * The input ends first: the end of the input is the result. Every
///   character of the buffered prefix is one that the predicate says no to,
///   and no valid text follows the prefix. The scan itself latches nothing.
/// * The buffer is full: the character is not among the buffered text and
///   another refill would not fit within the limit. The text returned is
///   then all of the buffered prefix, with no character behind it, and this
///   is how the caller knows that nothing was found.
/// * A refill meets an encoding error: that is the result.
pub open spec fn read_until_post<I: Input, F: Fn(char) -> bool>(
    pre: &I,
    post: &I,
    func: &F,
    chunk_size: usize,
    r: Result<int, ReadError>,
) -> bool {
    &&& post.wf()
    &&& post.limit() == pre.limit()
    &&& post.unread() == pre.unread()
    &&& post.buffered().len() >= pre.buffered().len()
    &&& post.position() == pre.position() || post.position() == EOF_INDEX
    &&& pre.position() == EOF_INDEX ==> r == Err::<int, ReadError>(ReadError::EOF) && *post
        == *pre
    &&& pre.position() != EOF_INDEX ==> reads(pre, 0, post, func, chunk_size, r)
    &&& match r {
        Ok(n) => {
            &&& 0 <= n <= post.buffered().len()
            &&& is_char_boundary(post.buffered(), n)
            &&& passes_over(func, post.buffered(), n)
            &&& if n < post.buffered().len() {
                accepts_first(func, post.buffered().skip(n))
            } else {
                &&& n > 0
                &&& refill_size(chunk_size) > post.limit() - n
                &&& post.position() == pre.position()
            }
        },
        Err(ReadError::EOF) => pre.position() != EOF_INDEX ==> {
            &&& passes_over(func, post.buffered(), post.buffered().len() as int)
            &&& is_longest_valid_prefix(post.unread(), post.buffered().len() as int)
        },
        Err(ReadError::InvalidUtf8(e)) => {
            &&& post.position() == pre.position()
            &&& post.position() != EOF_INDEX
            &&& post.position() + post.buffered().len() <= e.index
            &&& e.index < post.position() + post.unread().len()
            &&& valid_utf8(post.unread().take(e.index - post.position()))
            &&& !valid_first_scalar(post.unread().skip(e.index - post.position()))
        },
    }
}

/// The length of the text of a result, or its error.
pub open spec fn lengths(r: Result<&str, ReadError>) -> Result<int, ReadError> {
    match r {
        Ok(s) => Ok(s.spec_bytes().len() as int),
        Err(e) => Err(e),
    }
}

/// The text up to the first character that the predicate says yes to,
/// without consuming it. The input is refilled until that character is
/// buffered, each time for [`refill_size`] bytes more than have been
/// scanned. Where the input ends before the character is found, the end of
/// the input is the result; the scan itself never latches it, a refill may.
/// Where the buffer is full before the character is found, all of the
/// buffered text is returned. An input whose end is latched is left as it
/// is. [`read_until_post`] says all of this.
///
/// The input must be able to hold [`refill_size`] bytes.
pub fn default_read_until<'a, I: Input, F: Fn(char) -> bool>(
    input: &'a mut I,
    chunk_size: usize,
    func: F,
) -> (r: Result<&'a str, ReadError>)
    requires
        old(input).wf(),
        refill_size(chunk_size) <= old(input).limit(),
        forall|c: char| call_requires(func, (c,)),
    ensures
        read_until_post(old(input), final(input), &func, chunk_size, lengths(r)),
        r matches Ok(s) ==> s.spec_bytes() == final(input).buffered().take(
            s.spec_bytes().len() as int,
        ) && rejects(&func, s@),
{
    if input.is_eof() {
        return Err(ReadError::EOF);
    }
    let capacity = input.capacity();
    let size = if chunk_size < 4 {
        4
    } else {
        chunk_size
    };
    let mut count: usize = 0;
    let ghost mut begun = *input;
    proof {
        input.lemma_wf();
        assert(input.buffered().take(0) =~= Seq::<u8>::empty());
        assert(decode_utf8(Seq::<u8>::empty()) =~= Seq::<char>::empty());
    }
    loop
        invariant_except_break
            input.position() == old(input).position(),
            count == 0 || count == input.buffered().len(),
            begun == *input,
            forall|post: I, res: Result<int, ReadError>| #[trigger]
                reads(&begun, count as int, &post, &func, chunk_size, res) ==> reads(
                    old(input),
                    0,
                    &post,
                    &func,
                    chunk_size,
                    res,
                ),
        invariant
            old(input).position() != EOF_INDEX,
            size == refill_size(chunk_size),
            size <= input.limit(),
            forall|c: char| call_requires(func, (c,)),
            input.wf(),
            capacity == input.limit(),
            input.limit() == old(input).limit(),
            input.unread() == old(input).unread(),
            input.buffered().len() >= old(input).buffered().len(),
            input.position() == old(input).position() || input.position() == EOF_INDEX,
            passes_over(&func, input.buffered(), count as int),
        ensures
            reads(old(input), 0, input, &func, chunk_size, Ok(count as int)),
            if count < input.buffered().len() {
                accepts_first(&func, input.buffered().skip(count as int))
            } else {
                &&& count > 0
                &&& size > input.limit() - count
                &&& input.position() == old(input).position()
            },
        decreases input.unread().len() - count,
    {
        proof {
            input.lemma_wf();
        }
        if size > capacity - count {
            proof {
                assert(reads(&begun, count as int, input, &func, chunk_size, Ok(count as int)));
            }
            break ;
        }
        let ghost kept = input.buffered();
        let refill = input.buffer_at_least(count + size);
        let ghost mid = *input;
        proof {
            assert(refill_post(&begun, (count + size) as usize, &mid, refill));
        }
        if let Err(ReadError::InvalidUtf8(err)) = refill {
            proof {
                assert(reads(
                    &begun,
                    count as int,
                    input,
                    &func,
                    chunk_size,
                    Err(ReadError::InvalidUtf8(err)),
                ));
            }
            return Err(ReadError::InvalidUtf8(err));
        }
        let read = input.read();
        let ghost view = input.buffered();
        proof {
            input.lemma_wf();
            lemma_text_of_bytes(read, view);
            assert(view.take(count as int) =~= kept.take(count as int));
            lemma_valid_prefix_is_boundary(view, count as int);
        }
        let (_, fresh) = read.split_at(count);
        match find_first(fresh, &func) {
            Some(i) => {
                proof {
                    lemma_passes_over_more(&func, view, count as int, i as int);
                    assert(view.skip(count as int).skip(i as int) =~= view.skip(count + i));
                    assert(reads(
                        &begun,
                        count as int,
                        input,
                        &func,
                        chunk_size,
                        Ok((count + i) as int),
                    ));
                }
                count += i;
                break ;
            },
            None => {},
        }
        let len = read.len();
        proof {
            lemma_text_of_bytes(fresh, view.skip(count as int));
            assert(view.skip(count as int).take(len - count) =~= view.skip(count as int));
            assert(passes_over(&func, view.skip(count as int), len - count));
            lemma_passes_over_more(&func, view, count as int, len - count);
        }
        if refill.is_err() {
            proof {
                assert(reads(&begun, count as int, input, &func, chunk_size, Err(ReadError::EOF)));
            }
            return Err(ReadError::EOF);
        }
        proof {
            assert forall|post: I, res: Result<int, ReadError>| #[trigger]
                reads(&mid, len as int, &post, &func, chunk_size, res) implies reads(
                old(input),
                0,
                &post,
                &func,
                chunk_size,
                res,
            ) by {
                assert(reads(&begun, count as int, &post, &func, chunk_size, res));
            }
            begun = mid;
        }
        count = len;
    }
    let read = input.read();
    proof {
        input.lemma_wf();
        lemma_valid_prefix_is_boundary(input.buffered(), count as int);
    }
    let (head, _) = read.split_at(count);
    proof {
        lemma_text_of_bytes(head, input.buffered().take(count as int));
    }
    Ok(head)
}

} // verus!

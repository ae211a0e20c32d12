//! Showing digests in a short form.

use crate::text::{find_char, first_of, lemma_first_of};
use vstd::prelude::*;
use vstd::utf8::{
    decode_utf8, decode_utf8_encode_utf8, decode_utf8_split, encode_utf8, encode_utf8_decode_utf8,
    encode_utf8_valid_utf8, is_ascii_chars, is_ascii_chars_encode_utf8, is_char_boundary,
    is_char_boundary_iff_not_is_continuation_byte, is_char_boundary_start_end_of_seq, is_continuation_byte,
    valid_utf8_split,
};

verus! {

/// How many bytes of the hash are shown.
pub const SHOWN: usize = 12;

/// The length in bytes of the part of a digest up to its first `:`, this
/// included; nothing without a `:`.
pub open spec fn label_len(digest: Seq<char>) -> int {
    let i = first_of(digest, ':');
    if i < digest.len() {
        encode_utf8(digest.take(i + 1)).len() as int
    } else {
        0
    }
}

/// The length in bytes of the short form of a digest: the label and the first
/// bytes of the hash, or the whole digest if it is no longer than that.
pub open spec fn short_len(digest: Seq<char>) -> int {
    let total = encode_utf8(digest).len() as int;
    if label_len(digest) + SHOWN < total {
        label_len(digest) + SHOWN
    } else {
        total
    }
}

/// Whether the short form ends between two characters. It always does if the
/// digest is ASCII.
pub open spec fn sliceable(digest: Seq<char>) -> bool {
    is_ascii_chars(digest) || is_char_boundary(encode_utf8(digest), short_len(digest))
}

/// The text of the first bytes of a digest.
pub open spec fn short_form(digest: Seq<char>) -> Seq<char> {
    decode_utf8(encode_utf8(digest).take(short_len(digest)))
}

/// The short form of a digest, with an ellipsis if it is not the whole digest.
pub open spec fn truncated(digest: Seq<char>) -> Seq<char> {
    if short_len(digest) < encode_utf8(digest).len() {
        short_form(digest) + seq!['\u{2026}']
    } else {
        digest
    }
}

/// The short form of an ASCII digest is its beginning, up to the twelfth
/// character after the first `:`.
pub proof fn law_ascii_short_form(digest: Seq<char>)
    requires
        is_ascii_chars(digest),
    ensures
        label_len(digest) == if digest.contains(':') {
            first_of(digest, ':') + 1
        } else {
            0
        },
        encode_utf8(digest).len() == digest.len(),
        0 <= short_len(digest) <= digest.len(),
        is_char_boundary(encode_utf8(digest), short_len(digest)),
        short_form(digest) == digest.take(short_len(digest)),
{
    lemma_first_of(digest, ':');
    is_ascii_chars_encode_utf8(digest);
    let i = first_of(digest, ':');
    let head = digest.take(i + 1);
    if i < digest.len() {
        assert(is_ascii_chars(head));
        is_ascii_chars_encode_utf8(head);
    }
    let m = short_len(digest);
    let front = digest.take(m);
    assert(is_ascii_chars(front));
    is_ascii_chars_encode_utf8(front);
    assert(encode_utf8(front) =~= encode_utf8(digest).take(m));
    encode_utf8_decode_utf8(front);
    encode_utf8_valid_utf8(digest);
    if m < digest.len() {
        is_char_boundary_iff_not_is_continuation_byte(encode_utf8(digest), m);
        assert(!is_continuation_byte(encode_utf8(digest)[m]));
    } else {
        is_char_boundary_start_end_of_seq(encode_utf8(digest));
    }
}

/// The short form is the beginning of the digest, and as long as announced.
pub proof fn law_short_form_is_a_prefix(digest: Seq<char>)
    requires
        sliceable(digest),
    ensures
        short_form(digest).is_prefix_of(digest),
        encode_utf8(short_form(digest)).len() == short_len(digest),
{
    if is_ascii_chars(digest) {
        law_ascii_short_form(digest);
    }
    lemma_short_len(digest);
    let bytes = encode_utf8(digest);
    let m = short_len(digest);
    encode_utf8_valid_utf8(digest);
    valid_utf8_split(bytes, m);
    assert(bytes.take(m) =~= bytes.subrange(0, m));
    decode_utf8_split(bytes, m);
    encode_utf8_decode_utf8(digest);
    decode_utf8_encode_utf8(bytes.subrange(0, m));
    assert(short_form(digest) =~= digest.subrange(0, short_form(digest).len() as int));
}

/// The encoding of text joined is the encodings joined.
pub proof fn lemma_encode_add(a: Seq<char>, b: Seq<char>)
    ensures
        encode_utf8(a + b) == encode_utf8(a) + encode_utf8(b),
    decreases a.len(),
{
    if a.len() == 0 {
        assert(a + b =~= b);
        assert(encode_utf8(a) + encode_utf8(b) =~= encode_utf8(b));
    } else {
        lemma_encode_add(a.drop_first(), b);
        assert((a + b).drop_first() =~= a.drop_first() + b);
        assert(encode_utf8(a + b) =~= encode_utf8(a) + encode_utf8(b));
    }
}

proof fn lemma_short_len(digest: Seq<char>)
    ensures
        0 <= label_len(digest) <= encode_utf8(digest).len(),
        0 <= short_len(digest) <= encode_utf8(digest).len(),
{
    lemma_first_of(digest, ':');
    let i = first_of(digest, ':');
    if i < digest.len() {
        lemma_encode_add(digest.take(i + 1), digest.skip(i + 1));
        assert(digest.take(i + 1) + digest.skip(i + 1) =~= digest);
    }
}

/// The length in bytes of the short form of a digest.
fn short_length(digest: &str) -> (end: usize)
    ensures
        end == short_len(digest@),
{
    proof {
        lemma_short_len(digest@);
        lemma_first_of(digest@, ':');
    }
    let total: usize = digest.as_bytes().len();
    let label: usize = match find_char(digest, ':') {
        Some(i) => {
            let head = digest.substring_char(0, i + 1);
            assert(head@ =~= digest@.take(i + 1));
            head.as_bytes().len()
        },
        None => 0,
    };
    if total - label > SHOWN {
        label + SHOWN
    } else {
        total
    }
}

/// Whether the short form of a digest ends between two characters.
pub fn is_sliceable(digest: &str) -> (yes: bool)
    ensures
        yes == sliceable(digest@),
{
    proof {
        if is_ascii_chars(digest@) {
            law_ascii_short_form(digest@);
        }
    }
    let end: usize = short_length(digest);
    digest.is_char_boundary(end)
}

/// The short form of a digest.
pub fn short_digest<'a>(digest: &'a str) -> (short: &'a str)
    requires
        sliceable(digest@),
    ensures
        short@ == short_form(digest@),
        is_ascii_chars(digest@) ==> short@ == digest@.take(short_len(digest@)),
{
    proof {
        if is_ascii_chars(digest@) {
            law_ascii_short_form(digest@);
        }
        lemma_short_len(digest@);
        let bytes = encode_utf8(digest@);
        assert(bytes.take(short_len(digest@)) =~= bytes.subrange(0, short_len(digest@)));
    }
    let end: usize = short_length(digest);
    let (short, rest) = digest.split_at(end);
    proof {
        encode_utf8_decode_utf8(short@);
    }
    short
}

/// The short form of a digest, marked with an ellipsis if something was left
/// out.
pub fn truncate_digest(digest: &str) -> (text: String)
    requires
        sliceable(digest@),
    ensures
        text@ == truncated(digest@),
{
    let end: usize = short_length(digest);
    if end < digest.as_bytes().len() {
        let mut text: String = short_digest(digest).to_owned();
        text.append("\u{2026}");
        proof {
            reveal_strlit("\u{2026}");
            assert("\u{2026}"@ =~= seq!['\u{2026}']);
        }
        text
    } else {
        digest.to_owned()
    }
}

} // verus!

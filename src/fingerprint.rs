use vstd::prelude::*;
use vstd::utf8::encode_utf8;
use crate::charset::{
    char_set, lemma_char_set_exists, lemma_sorted_same_chars_equal, same_chars, sort_characters,
};
use crate::digits::{hex_text, push_hex};

verus! {

/// The 64-bit XXH3 hash, with seed 0, of `bytes`.
pub uninterp spec fn xxh3_64_of(bytes: Seq<u8>) -> u64;

/// Relies on `xxhash_rust::xxh3::xxh3_64`, applied to the UTF-8 bytes of the
/// characters: its result depends on those bytes alone.
#[verifier::external_body]
fn xxh3_of_chars(chars: &Vec<char>) -> (r: u64)
    ensures
        r == xxh3_64_of(encode_utf8(chars@)),
{
    let s: String = chars.iter().collect();
    xxhash_rust::xxh3::xxh3_64(s.as_bytes())
}

/// The fingerprint text of a 64-bit digest: its upper 32 bits in lower-case
/// hexadecimal without leading zeros.
pub open spec fn digest_text(digest: u64) -> Seq<char> {
    hex_text(digest as nat / 0x1_0000_0000, false)
}

/// The fingerprint of `text`: the digest of the UTF-8 bytes of its distinct
/// characters in ascending order, rendered by `digest_text`.
pub open spec fn fingerprint(text: Seq<char>) -> Seq<char> {
    digest_text(xxh3_64_of(encode_utf8(char_set(text))))
}

/// Renders a 64-bit digest as a fingerprint: the upper 32 bits, lower-case
/// hexadecimal.
pub fn fingerprint_of_digest(digest: u64) -> (r: String)
    ensures
        r@ == digest_text(digest),
{
    let upper: u64 = digest >> 32;
    assert(upper == digest / 0x1_0000_0000) by (bit_vector)
        requires
            upper == digest >> 32,
    ;
    let mut out = String::new();
    push_hex(&mut out, upper as u32, false);
    assert(out@ =~= digest_text(digest));
    out
}

/// A short hexadecimal key for the character set of `text`; it depends on
/// `text` through the set of its characters only.
pub fn hash(text: &str) -> (r: String)
    ensures
        r@ == fingerprint(text@),
{
    let characters = sort_characters(text);
    let digest = xxh3_of_chars(&characters);
    fingerprint_of_digest(digest)
}

/// Two texts with the same characters, whatever their order and repetitions,
/// have the same normalized character set.
pub proof fn lemma_char_set_order_independent(a: Seq<char>, b: Seq<char>)
    requires
        same_chars(a, b),
    ensures
        char_set(a) == char_set(b),
{
    lemma_char_set_exists(a);
    lemma_char_set_exists(b);
    lemma_sorted_same_chars_equal(char_set(a), char_set(b));
}

/// The fingerprint does not depend on the order or repetition of characters:
/// texts with the same characters have the same fingerprint.
pub proof fn lemma_fingerprint_order_independent(a: Seq<char>, b: Seq<char>)
    requires
        same_chars(a, b),
    ensures
        fingerprint(a) == fingerprint(b),
{
    lemma_char_set_order_independent(a, b);
}

} // verus!

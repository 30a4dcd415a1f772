//! Salted SHA-256 digests rendered as lowercase hexadecimal text.

use vstd::prelude::*;
use vstd::utf8::encode_utf8;
use sha2::Digest;

verus! {

/// What SHA-256 computes on a byte sequence.
pub uninterp spec fn sha256_of(data: Seq<u8>) -> Seq<u8>;

/// Calls `sha2::Sha256::digest` (through the `Digest` trait) on `data`.
/// The contract claims that the digest is the named function of the input
/// bytes and that it is 32 bytes long (the output size of `Sha256`).
#[verifier::external_body]
fn sha256_digest(data: &[u8]) -> (out: Vec<u8>)
    ensures
        out@ == sha256_of(data@),
        out@.len() == 32,
{
    sha2::Sha256::digest(data).to_vec()
}

/// The lowercase hexadecimal digit for a value below 16.
pub open spec fn hex_digit(n: u8) -> char {
    if n < 10 {
        (48 + n) as char
    } else {
        (87 + n) as char
    }
}

/// Each byte of `bytes` as two lowercase hexadecimal digits, high nibble
/// first, without separators.
pub open spec fn hex_lower(bytes: Seq<u8>) -> Seq<char>
    decreases bytes.len(),
{
    if bytes.len() == 0 {
        Seq::empty()
    } else {
        hex_lower(bytes.drop_last()) + seq![hex_digit(bytes.last() >> 4), hex_digit(bytes.last() & 15)]
    }
}

/// The salted digest text of `s` under the salt `salt`: the hexadecimal
/// SHA-256 digest of the salt's bytes followed by the text's bytes.
pub open spec fn salted_digest(s: Seq<char>, salt: Seq<char>) -> Seq<char> {
    hex_lower(sha256_of(encode_utf8(salt) + encode_utf8(s)))
}

/// The hexadecimal text of `bytes` has two digits per byte, each a digit
/// `0`-`9` or a letter `a`-`f`.
pub proof fn lemma_hex_lower_shape(bytes: Seq<u8>)
    ensures
        hex_lower(bytes).len() == 2 * bytes.len(),
        forall|i: int| 0 <= i < hex_lower(bytes).len() ==>
            (('0' <= #[trigger] hex_lower(bytes)[i] <= '9') || ('a' <= hex_lower(bytes)[i] <= 'f')),
    decreases bytes.len(),
{
    if bytes.len() > 0 {
        lemma_hex_lower_shape(bytes.drop_last());
        let b = bytes.last();
        assert(b >> 4 < 16 && b & 15 < 16) by (bit_vector);
    }
}

/// Each byte `bytes[i]` is rendered at positions `2 * i` (its high nibble)
/// and `2 * i + 1` (its low nibble).
pub proof fn lemma_hex_lower_index(bytes: Seq<u8>)
    ensures
        hex_lower(bytes).len() == 2 * bytes.len(),
        forall|i: int| 0 <= i < bytes.len() ==> #[trigger] hex_lower(bytes)[2 * i] == hex_digit(bytes[i] >> 4)
            && hex_lower(bytes)[2 * i + 1] == hex_digit(bytes[i] & 15),
    decreases bytes.len(),
{
    lemma_hex_lower_shape(bytes);
    if bytes.len() > 0 {
        let u = bytes.drop_last();
        lemma_hex_lower_index(u);
        lemma_hex_lower_shape(u);
        assert forall|i: int| 0 <= i < bytes.len() implies #[trigger] hex_lower(bytes)[2 * i] == hex_digit(bytes[i] >> 4)
            && hex_lower(bytes)[2 * i + 1] == hex_digit(bytes[i] & 15) by {
            if i < u.len() {
                assert(hex_lower(u)[2 * i] == hex_digit(u[i] >> 4));
                assert(u[i] == bytes[i]);
            }
        }
    }
}

/// Different bytes are rendered as different texts: the hexadecimal text
/// gives back every byte.
pub proof fn lemma_hex_lower_injective(a: Seq<u8>, b: Seq<u8>)
    requires
        hex_lower(a) == hex_lower(b),
    ensures
        a == b,
{
    lemma_hex_lower_index(a);
    lemma_hex_lower_index(b);
    assert forall|i: int| 0 <= i < a.len() implies a[i] == b[i] by {
        assert(hex_lower(a)[2 * i] == hex_digit(a[i] >> 4));
        assert(hex_lower(b)[2 * i] == hex_digit(b[i] >> 4));
        let (x, y) = (a[i], b[i]);
        assert(x >> 4 < 16 && y >> 4 < 16 && x & 15 < 16 && y & 15 < 16) by (bit_vector);
        assert(x >> 4 == y >> 4);
        assert(x & 15 == y & 15);
        assert((x >> 4 == y >> 4 && x & 15 == y & 15) ==> x == y) by (bit_vector);
    }
    assert(a =~= b);
}

/// Two salted digest texts agree exactly when the SHA-256 digests of the
/// full salt-then-text bytes agree: the check digits stand for the digest
/// of every byte of both.
pub proof fn lemma_salted_digest_is_full_digest(s1: Seq<char>, salt1: Seq<char>, s2: Seq<char>, salt2: Seq<char>)
    ensures
        salted_digest(s1, salt1) == hex_lower(sha256_of(encode_utf8(salt1) + encode_utf8(s1))),
        (salted_digest(s1, salt1) == salted_digest(s2, salt2))
            <==> (sha256_of(encode_utf8(salt1) + encode_utf8(s1)) == sha256_of(encode_utf8(salt2) + encode_utf8(s2))),
{
    if salted_digest(s1, salt1) == salted_digest(s2, salt2) {
        lemma_hex_lower_injective(sha256_of(encode_utf8(salt1) + encode_utf8(s1)), sha256_of(encode_utf8(salt2) + encode_utf8(s2)));
    }
}

fn hex_char(n: u8) -> (c: char)
    requires
        n < 16,
    ensures
        c == hex_digit(n),
{
    if n < 10 {
        (48 + n) as char
    } else {
        (87 + n) as char
    }
}

/// The bytes rendered as lowercase hexadecimal text.
pub fn to_hex_lower(bytes: &[u8]) -> (out: String)
    ensures
        out@ == hex_lower(bytes@),
        out@.len() == 2 * bytes@.len(),
{
    proof {
        lemma_hex_lower_shape(bytes@);
    }
    let mut out = String::new();
    let mut i: usize = 0;
    assert(bytes@.take(0) =~= Seq::<u8>::empty());
    while i < bytes.len()
        invariant
            i <= bytes.len(),
            out@ == hex_lower(bytes@.take(i as int)),
        decreases bytes.len() - i,
    {
        let b = bytes[i];
        assert(b >> 4 < 16 && b & 15 < 16) by (bit_vector);
        crate::text::push_char(&mut out, hex_char(b >> 4));
        crate::text::push_char(&mut out, hex_char(b & 15));
        assert(bytes@.take(i + 1).drop_last() =~= bytes@.take(i as int));
        i += 1;
    }
    assert(bytes@.take(bytes.len() as int) =~= bytes@);
    out
}

/// The salted digest text of `s`: SHA-256 of the bytes of `b` followed by
/// the bytes of `s`, as lowercase hexadecimal.
pub fn sha256text(s: &str, b: &str) -> (out: String)
    ensures
        out@ == salted_digest(s@, b@),
        out@ == hex_lower(sha256_of(encode_utf8(b@) + encode_utf8(s@))),
        out@.len() == 64,
{
    let salt = b.as_bytes();
    let text = s.as_bytes();
    let mut data: Vec<u8> = Vec::new();
    let mut i: usize = 0;
    while i < salt.len()
        invariant
            i <= salt.len(),
            data@ == salt@.take(i as int),
        decreases salt.len() - i,
    {
        data.push(salt[i]);
        assert(salt@.take(i + 1) =~= salt@.take(i as int).push(salt@[i as int]));
        i += 1;
    }
    assert(salt@.take(salt.len() as int) =~= salt@);
    let mut j: usize = 0;
    while j < text.len()
        invariant
            j <= text.len(),
            data@ == salt@ + text@.take(j as int),
        decreases text.len() - j,
    {
        data.push(text[j]);
        assert(text@.take(j + 1) =~= text@.take(j as int).push(text@[j as int]));
        j += 1;
    }
    assert(text@.take(text.len() as int) =~= text@);
    let digest = sha256_digest(&data);
    to_hex_lower(&digest)
}

} // verus!

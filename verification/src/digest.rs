use vstd::prelude::*;

use sha2::{Digest, Sha256};

use crate::text::push_char;

verus! {

/// The SHA-256 digest of `data` (FIPS 180-4), as `sha2::Sha256` computes it.
pub uninterp spec fn sha256_digest(data: Seq<u8>) -> Seq<u8>;

/// SHA-256 of `data`.
///
/// Trusted: `<sha2::Sha256 as digest::Digest>::digest`, which hashes `data` in one
/// call. The contract claims that the result is the SHA-256 digest of `data`, a
/// function of `data` alone, and that it has 32 bytes (the output size `U32` of
/// `Sha256`).
#[verifier::external_body]
pub fn sha256_of(data: &[u8]) -> (d: Vec<u8>)
    ensures
        d@ == sha256_digest(data@),
        d@.len() == 32,
{
    Sha256::digest(data).to_vec()
}

/// The lower-case hexadecimal digit for `n < 16`.
pub open spec fn hex_digit(n: u8) -> char
    recommends
        n < 16,
{
    if n < 10 {
        ((48 + n) as u8) as char
    } else {
        ((87 + n) as u8) as char
    }
}

/// Each byte as two lower-case hexadecimal digits, high half first.
pub open spec fn hex_lower(b: Seq<u8>) -> Seq<char>
    decreases b.len(),
{
    if b.len() == 0 {
        Seq::empty()
    } else {
        hex_lower(b.drop_last()) + seq![hex_digit(b.last() / 16), hex_digit(b.last() % 16)]
    }
}

/// `hex_digit` tells the sixteen values apart.
pub proof fn lemma_hex_digit_injective(m: u8, n: u8)
    requires
        m < 16,
        n < 16,
        hex_digit(m) == hex_digit(n),
    ensures
        m == n,
{
}

/// Two hex digits per byte.
pub proof fn lemma_hex_lower_len(b: Seq<u8>)
    ensures
        hex_lower(b).len() == 2 * b.len(),
    decreases b.len(),
{
    if b.len() > 0 {
        lemma_hex_lower_len(b.drop_last());
    }
}

/// Every character of a hexadecimal form is a digit or one of `a` to `f`.
pub proof fn lemma_hex_lower_digits(b: Seq<u8>)
    ensures
        forall|i: int|
            0 <= i < hex_lower(b).len() ==> ('0' <= #[trigger] hex_lower(b)[i] <= '9') || ('a'
                <= hex_lower(b)[i] <= 'f'),
    decreases b.len(),
{
    if b.len() > 0 {
        lemma_hex_lower_digits(b.drop_last());
        lemma_hex_lower_len(b.drop_last());
        let h = hex_lower(b.drop_last());
        assert forall|i: int| 0 <= i < hex_lower(b).len() implies ('0' <= #[trigger] hex_lower(
            b,
        )[i] <= '9') || ('a' <= hex_lower(b)[i] <= 'f') by {
            if i < h.len() {
                assert(hex_lower(b)[i] == h[i]);
            }
        }
    }
}

/// Byte strings of one length with the same hexadecimal form are equal.
pub proof fn lemma_hex_lower_injective(a: Seq<u8>, b: Seq<u8>)
    requires
        a.len() == b.len(),
        hex_lower(a) == hex_lower(b),
    ensures
        a == b,
    decreases a.len(),
{
    if a.len() > 0 {
        let n = a.len() as int;
        lemma_hex_lower_len(a.drop_last());
        lemma_hex_lower_len(b.drop_last());
        let ha = hex_lower(a);
        assert(ha.subrange(0, 2 * n - 2) =~= hex_lower(a.drop_last()));
        assert(hex_lower(b).subrange(0, 2 * n - 2) =~= hex_lower(b.drop_last()));
        lemma_hex_lower_injective(a.drop_last(), b.drop_last());
        assert(ha[2 * n - 2] == hex_digit(a.last() / 16));
        assert(hex_lower(b)[2 * n - 2] == hex_digit(b.last() / 16));
        assert(ha[2 * n - 1] == hex_digit(a.last() % 16));
        assert(hex_lower(b)[2 * n - 1] == hex_digit(b.last() % 16));
        lemma_hex_digit_injective(a.last() / 16, b.last() / 16);
        lemma_hex_digit_injective(a.last() % 16, b.last() % 16);
        assert(a.last() == b.last());
        assert(a =~= a.drop_last().push(a.last()));
        assert(b =~= b.drop_last().push(b.last()));
    }
}

fn hex_char(n: u8) -> (c: char)
    requires
        n < 16,
    ensures
        c == hex_digit(n),
{
    if n < 10 {
        (48 + n) as char
    } else {
        (87 + n) as char
    }
}

/// The lower-case hexadecimal form of `bytes`.
pub fn to_hex_lower(bytes: &[u8]) -> (s: String)
    ensures
        s@ == hex_lower(bytes@),
        s@.len() == 2 * bytes@.len(),
{
    let mut s = String::new();
    let mut i: usize = 0;
    while i < bytes.len()
        invariant
            0 <= i <= bytes@.len(),
            s@ == hex_lower(bytes@.take(i as int)),
            s@.len() == 2 * i,
        decreases bytes@.len() - i,
    {
        let b = bytes[i];
        push_char(&mut s, hex_char(b / 16));
        push_char(&mut s, hex_char(b % 16));
        assert(bytes@.take(i + 1).drop_last() =~= bytes@.take(i as int));
        assert(hex_lower(bytes@.take(i as int)).push(hex_digit(b / 16)).push(hex_digit(b % 16))
            =~= hex_lower(bytes@.take(i as int)) + seq![hex_digit(b / 16), hex_digit(b % 16)]);
        i += 1;
    }
    assert(bytes@.take(bytes@.len() as int) =~= bytes@);
    s
}

/// The lower-case hexadecimal SHA-256 of `bytes`.
pub fn sha256_hex(bytes: &[u8]) -> (s: String)
    ensures
        s@ == hex_lower(sha256_digest(bytes@)),
        s@.len() == 64,
{
    let d = sha256_of(bytes);
    to_hex_lower(d.as_slice())
}

} // verus!

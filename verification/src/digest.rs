//! SHA-256 digests and their hexadecimal form.
use vstd::prelude::*;
use vstd::string::*;

verus! {

/// The SHA-256 digest of the bytes.
pub uninterp spec fn sha256(bytes: Seq<u8>) -> Seq<u8>;

/// Calls `sha2::Sha256::digest`. The result is named [`sha256`]; of it only the
/// length is stated.
#[verifier::external_body]
pub(crate) fn digest_sha256(bytes: &[u8]) -> (r: Vec<u8>)
    ensures
        r@ == sha256(bytes@),
        r@.len() == 32,
{
    <sha2::Sha256 as sha2::Digest>::digest(bytes).to_vec()
}

/// The small hexadecimal digit of a value below sixteen.
pub open spec fn hex_digit(n: nat) -> char {
    if n < 10 {
        (n + 48) as u8 as char
    } else {
        (n + 87) as u8 as char
    }
}

/// Bytes in hexadecimal, two small digits each.
pub open spec fn hex_text(bytes: Seq<u8>) -> Seq<char>
    decreases bytes.len(),
{
    if bytes.len() == 0 {
        Seq::empty()
    } else {
        hex_text(bytes.drop_last()).push(hex_digit((bytes.last() / 16) as nat)).push(
            hex_digit((bytes.last() % 16) as nat),
        )
    }
}

fn digit(n: u8) -> (c: char)
    requires
        n < 16,
    ensures
        c == hex_digit(n as nat),
{
    if n < 10 {
        (n + 48) as char
    } else {
        (n + 87) as char
    }
}

/// Bytes in hexadecimal.
pub fn to_hex(bytes: &[u8]) -> (r: String)
    ensures
        r@ == hex_text(bytes@),
{
    let mut r = String::new();
    let mut i: usize = 0;
    while i < bytes.len()
        invariant
            i <= bytes@.len(),
            r@ == hex_text(bytes@.take(i as int)),
        decreases bytes@.len() - i,
    {
        let b = bytes[i];
        proof {
            assert(bytes@.take(i + 1).drop_last() =~= bytes@.take(i as int));
            assert(bytes@.take(i + 1).last() == b);
        }
        r.push(digit(b / 16));
        r.push(digit(b % 16));
        i += 1;
    }
    proof {
        assert(bytes@.take(i as int) =~= bytes@);
    }
    r
}

/// The SHA-256 digest of the bytes in hexadecimal.
pub fn sha256_hex(bytes: &[u8]) -> (r: String)
    ensures
        r@ == hex_text(sha256(bytes@)),
{
    let d = digest_sha256(bytes);
    to_hex(d.as_slice())
}

/// Every byte is two digits in hexadecimal, the greater one first; the digits from ten on
/// are the small letters from `a`.
pub proof fn law_two_digits_to_a_byte(bytes: Seq<u8>, i: int)
    requires
        0 <= i < bytes.len(),
    ensures
        hex_text(bytes).len() == 2 * bytes.len(),
        hex_text(bytes)[2 * i] as int == bytes[i] as int / 16 + (if bytes[i] < 160 {
            48int
        } else {
            87int
        }),
        hex_text(bytes)[2 * i + 1] as int == bytes[i] as int % 16 + (if bytes[i] % 16 < 10 {
            48int
        } else {
            87int
        }),
    decreases bytes.len(),
{
    let d = bytes.drop_last();
    let b = bytes.last();
    let h = hex_text(d);
    lemma_hex_length(d);
    assert(hex_text(bytes) =~= h.push(hex_digit((b / 16) as nat)).push(hex_digit((b % 16) as nat)));
    if i < d.len() {
        law_two_digits_to_a_byte(d, i);
        assert(hex_text(bytes)[2 * i] == h[2 * i]);
        assert(hex_text(bytes)[2 * i + 1] == h[2 * i + 1]);
    }
}

proof fn lemma_hex_length(bytes: Seq<u8>)
    ensures
        hex_text(bytes).len() == 2 * bytes.len(),
    decreases bytes.len(),
{
    if bytes.len() > 0 {
        lemma_hex_length(bytes.drop_last());
    }
}

} // verus!

//! The hash of the files that a run depends on.

use sha2::{Digest, Sha256};
use vstd::prelude::*;

verus! {

/// The SHA-256 digest of bytes.
pub uninterp spec fn sha256(bytes: Seq<u8>) -> Seq<u8>;

/// Calls `sha2::Digest::digest` for `sha2::Sha256`, which computes the SHA-256
/// digest of bytes. It depends on the bytes alone, and has 32 bytes itself.
#[verifier::external_body]
fn compute_sha256(bytes: &Vec<u8>) -> (r: Vec<u8>)
    ensures
        r@ == sha256(bytes@),
        r@.len() == 32,
{
    Sha256::digest(bytes.as_slice()).to_vec()
}

/// A hexadecimal digit.
pub open spec fn hex_digit(d: int) -> char {
    "0123456789abcdef"@[d]
}

/// Bytes in hexadecimal, with two digits for each.
pub open spec fn hex(bytes: Seq<u8>) -> Seq<char>
    decreases bytes.len(),
{
    if bytes.len() == 0 {
        seq![]
    } else {
        hex(bytes.drop_last()) + seq![
            hex_digit(bytes.last() as int / 16),
            hex_digit(bytes.last() as int % 16),
        ]
    }
}

fn hex_digit_text(d: u8) -> (r: &'static str)
    requires
        d < 16,
    ensures
        r@ == seq![hex_digit(d as int)],
{
    let digits = "0123456789abcdef";
    proof {
        reveal_strlit("0123456789abcdef");
    }
    let r = digits.substring_char(d as usize, d as usize + 1);
    assert(r@ =~= seq![hex_digit(d as int)]);
    r
}

/// Bytes in hexadecimal.
pub fn hex_text(bytes: &Vec<u8>) -> (r: String)
    ensures
        r@ == hex(bytes@),
{
    let mut r = "".to_owned();
    proof {
        reveal_strlit("");
        assert(r@ =~= seq![]);
        assert(bytes@.take(0) =~= seq![]);
    }
    let mut i: usize = 0;
    while i < bytes.len()
        invariant
            i <= bytes@.len(),
            r@ == hex(bytes@.take(i as int)),
        decreases bytes@.len() - i,
    {
        let b = bytes[i];
        let ghost before = r@;
        let high = hex_digit_text(b / 16);
        let low = hex_digit_text(b % 16);
        r.append(high);
        r.append(low);
        proof {
            let next = bytes@.take(i + 1);
            assert(next.drop_last() =~= bytes@.take(i as int));
            assert(before + high@ + low@ =~= before + seq![
                hex_digit(b as int / 16),
                hex_digit(b as int % 16),
            ]);
        }
        i = i + 1;
    }
    assert(bytes@.take(i as int) =~= bytes@);
    r
}

/// The message that gives the hash of the architecture and its configuration,
/// which are the bytes.
pub fn hash_message(bytes: &Vec<u8>) -> (r: String)
    ensures
        r@ == "Architecture + config hash: "@ + hex(sha256(bytes@)),
{
    let digest = compute_sha256(bytes);
    "Architecture + config hash: ".to_owned().concat(hex_text(&digest).as_str())
}

} // verus!

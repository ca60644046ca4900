//! Small text helpers for diagnostics.
//!
//! Decimal rendering is verified down to the digit bytes; only the
//! final step from ASCII bytes to an owned string, and plain string
//! concatenation, rely on the standard library.

use vstd::prelude::*;

verus! {

broadcast use {vstd::seq::group_seq_axioms, vstd::std_specs::vec::group_vec_axioms};

/// Decimal digits of a number, most significant first, as ASCII bytes.
pub open spec fn dec_bytes(n: nat) -> Seq<u8>
    decreases n,
{
    if n < 10 {
        seq![(n + 48) as u8]
    } else {
        dec_bytes(n / 10).push((n % 10 + 48) as u8)
    }
}

/// Decimal digit bytes are ASCII, and there is at least one of them.
pub proof fn lemma_dec_bytes_ascii(n: nat)
    ensures
        dec_bytes(n).len() >= 1,
        forall|i: int| 0 <= i < dec_bytes(n).len() ==> #[trigger] dec_bytes(n)[i] < 128,
    decreases n,
{
    if n >= 10 {
        lemma_dec_bytes_ascii(n / 10);
        assert forall|i: int| 0 <= i < dec_bytes(n).len() implies #[trigger] dec_bytes(n)[i]
            < 128 by {
            if i < dec_bytes(n).len() - 1 {
                assert(dec_bytes(n)[i] == dec_bytes(n / 10)[i]);
            }
        }
    }
}

/// The characters a byte sequence spells, one character per byte.
pub open spec fn chars_of_bytes(b: Seq<u8>) -> Seq<char> {
    Seq::new(b.len(), |i: int| b[i] as char)
}

/// Relies on `String::from_utf8`: a sequence of ASCII bytes is valid
/// UTF-8 and decodes to one character per byte.
#[verifier::external_body]
fn ascii_string(bytes: Vec<u8>) -> (s: String)
    requires
        forall|i: int| 0 <= i < bytes@.len() ==> #[trigger] bytes@[i] < 128,
    ensures
        s@ == chars_of_bytes(bytes@),
{
    String::from_utf8(bytes).unwrap_or_default()
}

/// Relies on `format!`: the concatenation of two strings.
#[verifier::external_body]
pub(crate) fn str_concat(a: &str, b: &str) -> (r: String)
    ensures
        r@ == a@ + b@,
{
    format!("{a}{b}")
}

/// The decimal digit bytes of a machine word.
fn dec_bytes_of(n: u64) -> (d: Vec<u8>)
    ensures
        d@ == dec_bytes(n as nat),
    decreases n,
{
    if n < 10 {
        let mut d: Vec<u8> = Vec::new();
        d.push((n as u8) + 48);
        proof {
            assert(d@ =~= dec_bytes(n as nat));
        }
        d
    } else {
        let mut d = dec_bytes_of(n / 10);
        d.push(((n % 10) as u8) + 48);
        d
    }
}

/// The decimal form of a machine word.
pub fn u64_dec(n: u64) -> (s: String)
    ensures
        s@ == chars_of_bytes(dec_bytes(n as nat)),
{
    let d = dec_bytes_of(n);
    proof {
        lemma_dec_bytes_ascii(n as nat);
    }
    ascii_string(d)
}

} // verus!

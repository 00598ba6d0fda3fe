//! Identifier generation: short random tokens drawn from the alphanumeric
//! alphabet, one fresh token per successful store operation.

use rand::distr::{Alphanumeric, SampleString};
use vstd::prelude::*;

verus! {

/// Length, in characters, of every identifier this module hands out.
pub const ID_SIZE: usize = 8;

/// The identifier alphabet: ASCII lower-case letters, upper-case letters and
/// digits (62 symbols).
pub open spec fn is_id_char(c: char) -> bool {
    (97 <= c as u32 && c as u32 <= 122)  // 'a'..='z'
    || (65 <= c as u32 && c as u32 <= 90)  // 'A'..='Z'
    || (48 <= c as u32 && c as u32 <= 57)  // '0'..='9'
}

/// An identifier as the store issues it: exactly `ID_SIZE` characters, each
/// from the alphanumeric alphabet.
pub open spec fn valid_id(s: Seq<char>) -> bool {
    &&& s.len() == ID_SIZE
    &&& forall|i: int| 0 <= i < s.len() ==> is_id_char(#[trigger] s[i])
}

/// Relies on rand's `Alphanumeric` distribution: every character it samples is
/// an ASCII letter or digit, and `sample_string` collects exactly `len` of
/// them. Each call draws independently from the process-wide random source, so
/// nothing beyond the shape of the result is promised.
#[verifier::external_body]
pub fn random_id() -> (id: String)
    ensures
        valid_id(id@),
{
    Alphanumeric.sample_string(&mut rand::rng(), ID_SIZE)
}

} // verus!

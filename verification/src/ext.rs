//! The library's trusted boundary: small wrappers around outside calls whose
//! contracts the rest of the crate is verified against. Each wrapper names the
//! function it relies on.

use vstd::prelude::*;
use crate::text::hex_pair_bytes;
use std::time::{SystemTime, UNIX_EPOCH};

verus! {

/// Relies on `SystemTime::now`: the wall-clock time, reported as nanoseconds
/// since the Unix epoch (zero if the clock reads before the epoch). Nothing
/// can be promised of the value itself.
#[verifier::external_body]
pub fn now_unix_nanos() -> u128 {
    SystemTime::now().duration_since(UNIX_EPOCH).map(|d| d.as_nanos()).unwrap_or(0)
}

/// Relies on `rand::fill`: fills the buffer from the thread-local
/// cryptographically secure generator. Nothing holds of the bytes beyond
/// their number.
#[verifier::external_body]
pub fn random_bytes_8() -> (r: Vec<u8>)
    ensures
        r@.len() == 8,
{
    let mut b = vec![0u8; 8];
    rand::fill(&mut b[..]);
    b
}

/// Relies on `rand::random_range`: a uniform draw from `0..bound`.
#[verifier::external_body]
pub fn random_u16_below(bound: u16) -> (r: u16)
    requires
        bound > 0,
    ensures
        r < bound,
{
    rand::random_range(0..bound)
}

/// Relies on `hex::encode`: two lowercase hexadecimal digits per input byte,
/// high nibble first.
#[verifier::external_body]
pub fn hex_lower(data: &Vec<u8>) -> (r: Vec<u8>)
    ensures
        r@ == hex_pair_bytes(data@),
{
    hex::encode(data.as_slice()).into_bytes()
}

/// Relies on `String::from_utf8`: succeeds exactly on valid UTF-8 and then
/// carries the decoded characters.
#[verifier::external_body]
pub fn utf8_string(bytes: &Vec<u8>) -> (r: Option<String>)
    ensures
        r is Some <==> vstd::utf8::valid_utf8(bytes@),
        r matches Some(s) ==> s@ == vstd::utf8::decode_utf8(bytes@),
{
    String::from_utf8(bytes.clone()).ok()
}

/// The display width, in terminal columns, of a character sequence.
pub uninterp spec fn text_width(s: Seq<char>) -> nat;

/// Relies on `console::measure_text_width`: the terminal display width of the
/// text; for text made of printable ASCII it equals the character count.
#[verifier::external_body]
pub fn display_width(s: &str) -> (r: usize)
    ensures
        r == text_width(s@),
        (forall|i: int| 0 <= i < s@.len() ==> ' ' <= #[trigger] s@[i] && s@[i] <= '~') ==> r
            == s@.len(),
{
    console::measure_text_width(s)
}

} // verus!

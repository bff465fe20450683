//! Randomness and unique identifiers from outside crates.

use vstd::prelude::*;

use crate::srgb::lower_hex_char;

verus! {

/// A value drawn uniformly from `0..n` by `rand::random_range`, which panics
/// on an empty range; nothing more is claimed of the value than its range.
#[verifier::external_body]
pub(crate) fn random_below(n: usize) -> (r: usize)
    requires
        n > 0,
    ensures
        r < n,
{
    rand::random_range(0..n)
}

/// A fresh random identifier from `uuid::Uuid::new_v4`, as the 128-bit number
/// that `as_u128` reads from it. Of the random number only the marks of a
/// version-4 identifier are claimed: its version digit is 4 and the two top
/// bits of its variant digit are `10`.
#[verifier::external_body]
pub(crate) fn random_uuid() -> (r: u128)
    ensures
        (r >> 76u128) & 0xf == 4,
        (r >> 62u128) & 0x3 == 2,
{
    uuid::Uuid::new_v4().as_u128()
}

/// The `i`-th base-16 digit of `n`, counting from the most significant.
pub open spec fn uuid_digit(n: u128, i: int) -> int {
    ((n >> ((124 - 4 * i) as u128)) & 0xf) as int
}

/// The text of the identifier numbered `n`: its 32 lower-case base-16 digits,
/// most significant first, in groups of 8, 4, 4, 4 and 12 joined by hyphens.
pub open spec fn uuid_hyphenated(n: u128) -> Seq<char> {
    Seq::new(
        36,
        |k: int|
            if k == 8 || k == 13 || k == 18 || k == 23 {
                '-'
            } else {
                let i = if k < 8 {
                    k
                } else if k < 13 {
                    k - 1
                } else if k < 18 {
                    k - 2
                } else if k < 23 {
                    k - 3
                } else {
                    k - 4
                };
                lower_hex_char(uuid_digit(n, i))
            },
    )
}

/// The text that `uuid::Uuid`'s `Display` writes for the identifier built by
/// `uuid::Uuid::from_u128(n)`: the hyphenated lower-case form of `n`.
#[verifier::external_body]
pub(crate) fn uuid_text(n: u128) -> (s: String)
    ensures
        s@ == uuid_hyphenated(n),
{
    uuid::Uuid::from_u128(n).to_string()
}

} // verus!

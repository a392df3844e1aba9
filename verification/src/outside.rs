//! The calls that leave the library: UUIDs, the system clock, Unicode case, settings of
//! the Parquet writer.

use std::time::SystemTime;

use parquet::file::properties::WriterProperties;
use uuid::Uuid;
use vstd::arithmetic::power::pow;
use vstd::prelude::*;

use crate::text;

verus! {

/// The hexadecimal digit, in lower case, for `d`.
pub open spec fn hex_digit(d: nat) -> char {
    if d < 10 {
        text::digit(d)
    } else if d == 10 {
        'a'
    } else if d == 11 {
        'b'
    } else if d == 12 {
        'c'
    } else if d == 13 {
        'd'
    } else if d == 14 {
        'e'
    } else {
        'f'
    }
}

/// The hexadecimal digit of a 128-bit number at position `k`, counted from the
/// most significant one.
pub open spec fn nibble(u: u128, k: int) -> nat {
    ((u as int) / pow(16, (31 - k) as nat) % 16) as nat
}

/// How many hyphens stand before position `i` of a hyphenated UUID.
pub open spec fn hyphens_before(i: int) -> int {
    if i > 23 {
        4
    } else if i > 18 {
        3
    } else if i > 13 {
        2
    } else if i > 8 {
        1
    } else {
        0
    }
}

/// A UUID in its hyphenated form: 32 hexadecimal digits in groups of 8, 4, 4, 4
/// and 12.
pub open spec fn hyphenated(u: u128) -> Seq<char> {
    Seq::new(
        36,
        |i: int|
            if i == 8 || i == 13 || i == 18 || i == 23 {
                '-'
            } else {
                hex_digit(nibble(u, i - hyphens_before(i)))
            },
    )
}

/// Whether a 128-bit number is a version 7 UUID of the standard variant.
pub open spec fn is_uuid_v7(u: u128) -> bool {
    &&& nibble(u, 12) == 7
    &&& 8 <= nibble(u, 16) <= 11
}

/// `uuid::Uuid::now_v7`, as a number. The value depends on the clock and on
/// chance; what is claimed of it holds of each: its version is 7 and its variant
/// is the standard one. The call needs a clock that does not stand before 1970.
#[verifier::external_body]
pub(crate) fn uuid_now_v7() -> (u: u128)
    ensures
        is_uuid_v7(u),
{
    Uuid::now_v7().as_u128()
}

/// `to_string` of a `uuid::Uuid`, which writes the hyphenated form in lower case.
#[verifier::external_body]
pub(crate) fn uuid_to_string(u: u128) -> (text: String)
    ensures
        text@ == hyphenated(u),
{
    Uuid::from_u128(u).to_string()
}

/// `std::time::SystemTime::now`, in nanoseconds since the Unix epoch, or in
/// nanoseconds before it as an error. The value is whatever the clock shows, so
/// nothing is claimed of it.
#[verifier::external_body]
pub(crate) fn clock_nanos() -> (nanos: Result<u128, u128>) {
    match SystemTime::now().duration_since(SystemTime::UNIX_EPOCH) {
        Ok(since) => Ok(since.as_nanos()),
        Err(e) => Err(e.duration().as_nanos()),
    }
}

/// The lower case of a text as Unicode defines it: what `str::to_lowercase`
/// returns for a text that is not ASCII.
pub uninterp spec fn lowercase(s: Seq<char>) -> Seq<char>;

/// Whether every character of `s` is an ASCII character.
pub open spec fn all_ascii(s: Seq<char>) -> bool {
    forall|i: int| 0 <= i < s.len() ==> (#[trigger] s[i] as u32) < 128
}

/// `s` with `A` to `Z` turned into `a` to `z`.
pub open spec fn ascii_lowercase(s: Seq<char>) -> Seq<char> {
    Seq::new(s.len(), |i: int| text::ascii_lower(s[i]))
}

/// The lower case of a text: that of its letters `A` to `Z` where it is ASCII, and
/// otherwise what Unicode defines.
pub open spec fn lower_case(s: Seq<char>) -> Seq<char> {
    if all_ascii(s) {
        ascii_lowercase(s)
    } else {
        lowercase(s)
    }
}

/// `str::to_lowercase`. Of an ASCII text it is claimed that the letters `A` to `Z`
/// turn into `a` to `z` and nothing else changes; the lower case of any other text
/// is only named.
#[verifier::external_body]
pub(crate) fn to_lowercase(s: &str) -> (lower: String)
    ensures
        all_ascii(s@) ==> lower@ == ascii_lowercase(s@),
        !all_ascii(s@) ==> lower@ == lowercase(s@),
{
    s.to_lowercase()
}

/// `parquet::file::properties::WriterProperties`, the settings of a Parquet writer.
/// They are handed on as they are; nothing is claimed of what is in them.
#[verifier::external_type_specification]
#[verifier::external_body]
pub struct ExWriterProperties(parquet::file::properties::WriterProperties);

/// `WriterProperties::default`, the default settings of a Parquet writer. Nothing is
/// claimed of them.
#[verifier::external_body]
pub(crate) fn default_writer_properties() -> (properties: WriterProperties) {
    WriterProperties::default()
}

} // verus!

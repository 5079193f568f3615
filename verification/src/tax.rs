//! Sales tax (VAT/GST) rates by country, in hundredths of a percent.

use vstd::prelude::*;
use vstd::string::*;
use crate::text::opt_text;

verus! {

/// The rate, in hundredths of a percent, charged in US state `state`.
pub open spec fn us_state_rate(state: Option<Seq<char>>) -> u32 {
    match state {
        Some(s) => if s =~= seq!['C', 'A'] {
            725
        } else if s =~= seq!['T', 'X'] {
            625
        } else if s =~= seq!['N', 'Y'] {
            800
        } else if s =~= seq!['F', 'L'] {
            600
        } else {
            500
        },
        None => 500,
    }
}

/// The rate, in hundredths of a percent, for the two-letter code `a b`
/// (already in upper case).
pub open spec fn two_letter_rate(a: char, b: char, state: Option<Seq<char>>) -> u32 {
    match (a, b) {
        ('K', 'E') => 1600,
        ('N', 'G') => 750,
        ('Z', 'A') => 1500,
        ('G', 'H') => 1500,
        ('T', 'Z') => 1800,
        ('U', 'G') => 1800,
        ('R', 'W') => 1800,
        ('U', 'S') => us_state_rate(state),
        ('G', 'B') => 2000,
        ('U', 'K') => 2000,
        ('D', 'E') => 1900,
        ('F', 'R') => 2000,
        ('I', 'T') => 2200,
        ('E', 'S') => 2100,
        ('N', 'L') => 2100,
        ('S', 'E') => 2500,
        ('N', 'O') => 2500,
        ('D', 'K') => 2500,
        ('C', 'H') => 810,
        ('I', 'E') => 2300,
        ('A', 'U') => 1000,
        ('N', 'Z') => 1500,
        ('I', 'N') => 1800,
        ('J', 'P') => 1000,
        ('K', 'R') => 1000,
        ('S', 'G') => 900,
        ('C', 'N') => 1300,
        ('B', 'R') => 1700,
        ('M', 'X') => 1600,
        ('A', 'E') => 500,
        ('S', 'A') => 500,
        ('C', 'A') => 500,
        _ => 0,
    }
}

/// The tax rate, in hundredths of a percent, for an upper-case country code;
/// codes that are not in the table are charged nothing.
pub open spec fn tax_rate_spec(code: Seq<char>, state: Option<Seq<char>>) -> u32 {
    if code.len() == 2 {
        two_letter_rate(code[0], code[1], state)
    } else {
        0
    }
}

/// Upper-cases a string as `str::to_uppercase` does (full Unicode mapping).
pub uninterp spec fn upper_case_text(s: Seq<char>) -> Seq<char>;

/// The upper-case form of an ASCII character: `a`..`z` become `A`..`Z`,
/// every other character stays.
pub open spec fn ascii_upper(c: char) -> char {
    if 'a' <= c && c <= 'z' {
        ((c as u32) - 32) as char
    } else {
        c
    }
}

/// Every character is ASCII.
pub open spec fn is_ascii_text(s: Seq<char>) -> bool {
    forall|i: int| 0 <= i < s.len() ==> (#[trigger] s[i] as u32) < 128
}

/// Trusted: `str::to_uppercase`. Its result is taken to be a function of the
/// text alone, named `upper_case_text`. On ASCII text the Unicode upper-case
/// mapping it applies changes `a`..`z` to `A`..`Z` one for one and leaves
/// every other character as it is.
#[verifier::external_body]
fn to_upper(s: &str) -> (r: String)
    ensures
        r@ == upper_case_text(s@),
        is_ascii_text(s@) ==> r@ == s@.map_values(|c: char| ascii_upper(c)),
{
    s.to_uppercase()
}

fn state_rate(state: Option<&str>) -> (r: u32)
    ensures
        r == us_state_rate(opt_text(state)),
{
    match state {
        None => 500,
        Some(s) => {
            if s.unicode_len() != 2 {
                500
            } else {
                let a = s.get_char(0);
                let b = s.get_char(1);
                proof {
                    assert(s@ =~= seq![a, b]);
                }
                if a == 'C' && b == 'A' {
                    725
                } else if a == 'T' && b == 'X' {
                    625
                } else if a == 'N' && b == 'Y' {
                    800
                } else if a == 'F' && b == 'L' {
                    600
                } else {
                    500
                }
            }
        },
    }
}

/// The tax rate, in hundredths of a percent, for an upper-case country
/// code and an optional US state.
pub fn tax_rate_for_code(code: &str, state: Option<&str>) -> (r: u32)
    ensures
        r == tax_rate_spec(code@, opt_text(state)),
{
    if code.unicode_len() != 2 {
        return 0;
    }
    let a = code.get_char(0);
    let b = code.get_char(1);
    match (a, b) {
        ('K', 'E') => 1600,
        ('N', 'G') => 750,
        ('Z', 'A') => 1500,
        ('G', 'H') => 1500,
        ('T', 'Z') => 1800,
        ('U', 'G') => 1800,
        ('R', 'W') => 1800,
        ('U', 'S') => state_rate(state),
        ('G', 'B') => 2000,
        ('U', 'K') => 2000,
        ('D', 'E') => 1900,
        ('F', 'R') => 2000,
        ('I', 'T') => 2200,
        ('E', 'S') => 2100,
        ('N', 'L') => 2100,
        ('S', 'E') => 2500,
        ('N', 'O') => 2500,
        ('D', 'K') => 2500,
        ('C', 'H') => 810,
        ('I', 'E') => 2300,
        ('A', 'U') => 1000,
        ('N', 'Z') => 1500,
        ('I', 'N') => 1800,
        ('J', 'P') => 1000,
        ('K', 'R') => 1000,
        ('S', 'G') => 900,
        ('C', 'N') => 1300,
        ('B', 'R') => 1700,
        ('M', 'X') => 1600,
        ('A', 'E') => 500,
        ('S', 'A') => 500,
        ('C', 'A') => 500,
        _ => 0,
    }
}

/// The tax rate, in hundredths of a percent, for a country code in any
/// case (it is upper-cased first) and an optional US state, which is
/// matched as given. Unknown countries are charged nothing.
pub fn get_tax_rate(country: &str, state: Option<&str>) -> (r: u32)
    ensures
        r == tax_rate_spec(upper_case_text(country@), opt_text(state)),
        is_ascii_text(country@) ==> r == tax_rate_spec(
            country@.map_values(|c: char| ascii_upper(c)),
            opt_text(state),
        ),
{
    let code = to_upper(country);
    tax_rate_for_code(code.as_str(), state)
}

} // verus!

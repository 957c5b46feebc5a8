use vstd::prelude::*;
use vstd::string::StrSliceExecFns;
use vstd::string::StringExecFns;
use rand::RngExt;
use rand::distr::SampleString;

use crate::timestamp::is_digit;
use crate::timestamp::parse_spec;

verus! {

/// An ASCII letter or digit, as the characters of issued tokens.
pub open spec fn is_alnum(c: char) -> bool {
    ||| '0' as u32 <= c as u32 <= '9' as u32
    ||| 'a' as u32 <= c as u32 <= 'z' as u32
    ||| 'A' as u32 <= c as u32 <= 'Z' as u32
}

/// Relies on rand's `Alphanumeric` distribution with `sample_string`:
/// exactly `length` characters are appended, each sampled from the ASCII
/// letters and digits. Nothing is promised about which ones.
#[verifier::external_body]
pub fn generate_token(length: usize) -> (r: String)
    ensures
        r@.len() == length,
        forall|i: int| 0 <= i < r@.len() ==> is_alnum(#[trigger] r@[i]),
{
    rand::distr::Alphanumeric.sample_string(&mut rand::rng(), length)
}

/// A fresh opaque identifier; same alphabet as issued tokens.
pub fn generate_id(length: usize) -> (r: String)
    ensures
        r@.len() == length,
        forall|i: int| 0 <= i < r@.len() ==> is_alnum(#[trigger] r@[i]),
{
    generate_token(length)
}

/// Relies on rand's `random_range` over `0..10`: a value below ten.
/// Nothing is promised about which one.
#[verifier::external_body]
fn random_decimal() -> (r: u32)
    ensures
        r <= 9,
{
    rand::rng().random_range(0..10)
}

/// A fresh pairing code: ten decimal digits.
pub fn generate_pair_code() -> (r: String)
    ensures
        r@.len() == 10,
        forall|i: int| 0 <= i < r@.len() ==> is_digit(#[trigger] r@[i]),
{
    let mut code = String::new();
    let mut i: usize = 0;
    while i < 10
        invariant
            i <= 10,
            code@.len() == i,
            forall|j: int| 0 <= j < i ==> is_digit(#[trigger] code@[j]),
        decreases 10 - i,
    {
        let d = random_decimal();
        let piece: &str = if d == 0 {
            "0"
        } else if d == 1 {
            "1"
        } else if d == 2 {
            "2"
        } else if d == 3 {
            "3"
        } else if d == 4 {
            "4"
        } else if d == 5 {
            "5"
        } else if d == 6 {
            "6"
        } else if d == 7 {
            "7"
        } else if d == 8 {
            "8"
        } else {
            "9"
        };
        proof {
            reveal_strlit("0");
            reveal_strlit("1");
            reveal_strlit("2");
            reveal_strlit("3");
            reveal_strlit("4");
            reveal_strlit("5");
            reveal_strlit("6");
            reveal_strlit("7");
            reveal_strlit("8");
            reveal_strlit("9");
        }
        assert(piece@.len() == 1 && is_digit(piece@[0]));
        code.append(piece);
        i = i + 1;
    }
    code
}

/// Relies on chrono's `Utc::now().to_rfc3339()`: the current instant,
/// rendered with a four-digit year, a `T` separator, an optional
/// fractional part and a numeric UTC offset — a string this library's
/// own timestamp grammar accepts. Which instant it names depends on the
/// clock, so nothing more is promised.
#[verifier::external_body]
pub fn now_rfc3339() -> (r: String)
    ensures
        parse_spec(r@) is Some,
{
    chrono::Utc::now().to_rfc3339()
}

/// Relies on `local_ip_address::local_ip`: the machine's local IP
/// address, rendered as text; the all-zero address when it cannot be
/// determined. The value depends on the machine, so nothing is promised.
#[verifier::external_body]
pub fn local_ip_string() -> (r: String) {
    match local_ip_address::local_ip() {
        Ok(ip) => ip.to_string(),
        Err(_) => "0.0.0.0".to_owned(),
    }
}

} // verus!

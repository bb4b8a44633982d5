//! The crate's trusted boundary: small wrappers around outside crates
//! and around parts of the standard library that vstd gives no
//! specification. Verus believes the contracts stated here; everything
//! else in the crate is proved against them.

use vstd::prelude::*;

verus! {

/// What `str::trim` returns for a given character sequence. The exact
/// whitespace table is Unicode's; the result is a function of the
/// characters alone.
pub uninterp spec fn trim_of(s: Seq<char>) -> Seq<char>;

/// Relies on `str::trim`: returns the input with leading and trailing
/// whitespace removed, so the result is never longer than the input and
/// an empty input stays empty.
#[verifier::external_body]
pub fn trim_str(s: &str) -> (r: String)
    ensures
        r@ == trim_of(s@),
        r@.len() <= s@.len(),
        s@.len() == 0 ==> r@.len() == 0,
{
    s.trim().to_string()
}

/// Relies on `uuid::Uuid::new_v4`, which draws a random identifier:
/// nothing can be promised of the value.
#[verifier::external_body]
pub fn fresh_id() -> u128 {
    uuid::Uuid::new_v4().as_u128()
}

/// Relies on `chrono::Local::now` and `chrono::Datelike`: the month
/// ranges from 1 to 12, and the year of any chrono date lies strictly
/// within the documented range of representable years.
#[verifier::external_body]
pub fn current_date() -> (r: (i32, u32))
    ensures
        1 <= r.1 <= 12,
        -262143 <= r.0 <= 262142,
{
    let now = chrono::Local::now();
    (chrono::Datelike::year(&now), chrono::Datelike::month(&now))
}

/// Relies on `std::path::Path::is_file`. The answer depends on the file
/// system at the moment of the call, so nothing is promised of it.
#[verifier::external_body]
pub fn path_is_file(path: &str) -> bool {
    std::path::Path::new(path).is_file()
}

/// Relies on `String: FromIterator<char>`: collecting characters builds
/// the string of exactly those characters in order.
#[verifier::external_body]
pub fn chars_to_string(v: &Vec<char>) -> (r: String)
    ensures
        r@ == v@,
{
    v.iter().collect()
}

} // verus!

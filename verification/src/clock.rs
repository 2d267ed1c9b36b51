use vstd::prelude::*;

verus! {

pub open spec fn is_ascii_digit(c: char) -> bool {
    '0' <= c && c <= '9'
}

pub open spec fn all_digits(s: Seq<char>) -> bool {
    forall|i: int| 0 <= i < s.len() ==> is_ascii_digit(#[trigger] s[i])
}

/// The year of an RFC 3339 timestamp as chrono writes it: four digits, or for a
/// year past 9999 a `+` and five or more digits.
pub open spec fn rfc3339_year(y: Seq<char>) -> bool {
    ||| y.len() == 4 && all_digits(y)
    ||| y.len() >= 6 && y[0] == '+' && all_digits(y.skip(1))
}

/// The fraction of a second: nothing, or a `.` and 3, 6 or 9 digits.
pub open spec fn rfc3339_fraction(f: Seq<char>) -> bool {
    ||| f.len() == 0
    ||| (f.len() == 4 || f.len() == 7 || f.len() == 10) && f[0] == '.' && all_digits(f.skip(1))
}

/// `-MM-DDThh:mm:ss`, each field two digits.
pub open spec fn rfc3339_date_time(t: Seq<char>) -> bool {
    &&& t.len() == 15
    &&& t[0] == '-' && t[3] == '-' && t[6] == 'T' && t[9] == ':' && t[12] == ':'
    &&& is_ascii_digit(t[1]) && is_ascii_digit(t[2])
    &&& is_ascii_digit(t[4]) && is_ascii_digit(t[5])
    &&& is_ascii_digit(t[7]) && is_ascii_digit(t[8])
    &&& is_ascii_digit(t[10]) && is_ascii_digit(t[11])
    &&& is_ascii_digit(t[13]) && is_ascii_digit(t[14])
}

/// A UTC timestamp in the RFC 3339 form chrono's `to_rfc3339` writes:
/// `{year}-MM-DDThh:mm:ss{fraction}+00:00`.
pub open spec fn is_utc_rfc3339(s: Seq<char>) -> bool {
    exists|y: Seq<char>, f: Seq<char>|
        #![trigger rfc3339_year(y), rfc3339_fraction(f)]
        {
            let a: int = y.len() as int;
            let b: int = a + 15;
            let c: int = b + f.len();
            &&& rfc3339_year(y)
            &&& rfc3339_fraction(f)
            &&& s.len() == c + 6
            &&& s.take(a) == y
            &&& rfc3339_date_time(s.subrange(a, b))
            &&& s.subrange(b, c) == f
            &&& s.skip(c) == seq!['+', '0', '0', ':', '0', '0']
        }
}

/// The error reported when the system clock cannot give a timestamp (it reads a
/// time before 1970, or past what a timestamp can hold).
pub open spec fn clock_error() -> Seq<char> {
    "The system clock reads a time before 1970"@
}

pub fn clock_error_text() -> (r: String)
    ensures
        r@ == clock_error(),
{
    "The system clock reads a time before 1970".to_owned()
}

/// The current time as an RFC 3339 timestamp with the offset `+00:00`, as
/// `chrono::Utc::now().to_rfc3339()` writes it: `SystemTime::now` since the Unix
/// epoch, `chrono::DateTime::from_timestamp`, then `to_rfc3339`. `None` when the
/// system clock reads a time before 1970 (where `Utc::now` would panic) or one
/// that chrono cannot hold. Which time it is, the clock decides.
#[verifier::external_body]
pub(crate) fn now_rfc3339() -> (r: Option<String>)
    ensures
        r matches Some(t) ==> is_utc_rfc3339(t@),
{
    let since = std::time::SystemTime::now().duration_since(std::time::UNIX_EPOCH).ok()?;
    let secs = i64::try_from(since.as_secs()).ok()?;
    let t = chrono::DateTime::from_timestamp(secs, since.subsec_nanos())?;
    Some(t.to_rfc3339())
}

} // verus!

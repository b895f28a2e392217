//! Which log files are old enough to compress, and what they are renamed to.

use vstd::prelude::*;

use crate::text::{chars_of, ends_with, ends_with_exec, push_str, starts_with, starts_with_exec, string_from, string_of, sub_vec};

verus! {

/// The date that `chrono::NaiveDate::parse_from_str(s, "%Y-%m-%d")` reads
/// from `s`, as (year, month, day).
pub uninterp spec fn ymd_of(s: Seq<char>) -> Option<(i32, u32, u32)>;

/// `chrono::NaiveDate::parse_from_str` with the format `%Y-%m-%d`, the date
/// given as year, month and day (`Datelike`); which texts are dates is only
/// named here.
#[verifier::external_body]
fn parse_ymd(s: &str) -> (r: Option<(i32, u32, u32)>)
    ensures
        r == ymd_of(s@),
{
    chrono::NaiveDate::parse_from_str(s, "%Y-%m-%d").ok().map(
        |d| (chrono::Datelike::year(&d), chrono::Datelike::month(&d), chrono::Datelike::day(&d)),
    )
}

/// The beginning of the name of a rotated log file.
pub open spec fn log_prefix() -> Seq<char> {
    "server.log."@
}

/// The date of a rotated, not yet compressed log file `server.log.<date>`.
pub open spec fn rotated_log_date(name: Seq<char>) -> Option<(i32, u32, u32)> {
    if starts_with(name, log_prefix()) && !ends_with(name, ".gz"@) {
        ymd_of(name.skip(log_prefix().len() as int))
    } else {
        None
    }
}

/// Date `a` is strictly earlier than date `b`.
pub open spec fn date_before(a: (i32, u32, u32), b: (i32, u32, u32)) -> bool {
    a.0 < b.0 || (a.0 == b.0 && (a.1 < b.1 || (a.1 == b.1 && a.2 < b.2)))
}

/// The log file is compressed: it is a rotated log of a day before today.
pub open spec fn compress_due(name: Seq<char>, today: (i32, u32, u32)) -> bool {
    match rotated_log_date(name) {
        Some(d) => date_before(d, today),
        None => false,
    }
}

/// The date of a rotated, not yet compressed log file.
pub fn log_file_date(name: &str) -> (r: Option<(i32, u32, u32)>)
    ensures
        r == rotated_log_date(name@),
{
    let n = chars_of(name);
    let p = chars_of("server.log.");
    let gz = chars_of(".gz");
    if starts_with_exec(n.as_slice(), p.as_slice()) && !ends_with_exec(n.as_slice(), gz.as_slice()) {
        let rest = sub_vec(n.as_slice(), p.len(), n.len());
        assert(rest@ =~= name@.skip(log_prefix().len() as int));
        let text = string_of(rest.as_slice());
        parse_ymd(text.as_str())
    } else {
        None
    }
}

/// Tests whether the log file `name` is due for compression on `today`.
pub fn should_compress(name: &str, today: (i32, u32, u32)) -> (r: bool)
    ensures
        r == compress_due(name@, today),
{
    match log_file_date(name) {
        Some(d) => d.0 < today.0 || (d.0 == today.0 && (d.1 < today.1 || (d.1 == today.1 && d.2 < today.2))),
        None => false,
    }
}

/// The name of a compressed log file: `.gz` appended.
pub fn compressed_name(path: &str) -> (r: String)
    ensures
        r@ == path@ + ".gz"@,
{
    let mut s = string_from(path);
    push_str(&mut s, ".gz");
    s
}

/// Today's log and compressed logs are never compressed again.
pub proof fn lemma_never_recompress(name: Seq<char>, today: (i32, u32, u32))
    ensures
        ends_with(name, ".gz"@) ==> !compress_due(name, today),
        rotated_log_date(name) == Some(today) ==> !compress_due(name, today),
{
}

/// A rotated log is compressed exactly when its date comes before today in
/// the calendar: counting each year as 13 months of 32 days, it is compressed
/// when its day count is smaller than today's. So a log of an earlier year,
/// or of an earlier month of the same year whatever the days, is compressed,
/// and one of today or later is not.
pub proof fn lemma_compress_in_calendar_order(name: Seq<char>, today: (i32, u32, u32))
    requires
        1 <= today.1 <= 12,
        1 <= today.2 <= 31,
    ensures
        match rotated_log_date(name) {
            Some(d) => 1 <= d.1 <= 12 && 1 <= d.2 <= 31 ==> (compress_due(name, today) <==> 416 * d.0
                + 32 * d.1 + d.2 < 416 * today.0 + 32 * today.1 + today.2),
            None => !compress_due(name, today),
        },
{
}

} // verus!

//! Human-readable renderings of bars and collections, for logs and debugging.

use vstd::prelude::*;
use vstd::string::*;

verus! {

/// The text that chrono gives for the date and time `ms` milliseconds after
/// the epoch, as an optional value.
pub uninterp spec fn datetime_text(ms: int) -> Seq<char>;

/// Relies on chrono's `NaiveDateTime::from_timestamp_millis` and its `Debug`
/// rendering: the text depends on the number of milliseconds alone.
#[verifier::external_body]
#[allow(deprecated)]
pub(crate) fn timestamp_text(ms: i64) -> (r: String)
    ensures
        r@ == datetime_text(ms as int),
{
    format!("{:?}", chrono::NaiveDateTime::from_timestamp_millis(ms))
}

/// Relies on std's `Debug` formatting of `v`; nothing is stated of the text.
#[verifier::external_body]
pub(crate) fn debug_text<V: core::fmt::Debug>(v: &V) -> String {
    format!("{:?}", v)
}

/// The text of a bar from the texts of its fields.
pub open spec fn bar_text_of(
    volume: Seq<char>,
    open: Seq<char>,
    high: Seq<char>,
    low: Seq<char>,
    close: Seq<char>,
    start: Seq<char>,
    end: Seq<char>,
    is_fill_fwd: bool,
) -> Seq<char> {
    "volume: "@ + volume + ", open: "@ + open + ", high: "@ + high + ", low: "@ + low + ", close: "@
        + close + ", start time: "@ + start + ", end_time: "@ + end + ", fill fwd: "@ + (if is_fill_fwd {
        "true"@
    } else {
        "false"@
    })
}

/// Lays out the texts of a bar's fields, labelled, in one line.
pub fn bar_text(
    volume: &str,
    open: &str,
    high: &str,
    low: &str,
    close: &str,
    start: &str,
    end: &str,
    is_fill_fwd: bool,
) -> (r: String)
    ensures
        r@ == bar_text_of(volume@, open@, high@, low@, close@, start@, end@, is_fill_fwd),
{
    let mut r = String::new();
    r.append("volume: ");
    r.append(volume);
    r.append(", open: ");
    r.append(open);
    r.append(", high: ");
    r.append(high);
    r.append(", low: ");
    r.append(low);
    r.append(", close: ");
    r.append(close);
    r.append(", start time: ");
    r.append(start);
    r.append(", end_time: ");
    r.append(end);
    r.append(", fill fwd: ");
    if is_fill_fwd {
        r.append("true");
    } else {
        r.append("false");
    }
    r
}

/// The items joined with `sep` between each two.
pub open spec fn joined(items: Seq<Seq<char>>, sep: Seq<char>) -> Seq<char>
    decreases items.len(),
{
    if items.len() == 0 {
        Seq::empty()
    } else if items.len() == 1 {
        items[0]
    } else {
        joined(items.drop_last(), sep) + sep + items.last()
    }
}

/// The items joined with commas, in braces, as a mapping is written.
pub open spec fn braced(items: Seq<Seq<char>>) -> Seq<char> {
    "{"@ + joined(items, ", "@) + "}"@
}

} // verus!

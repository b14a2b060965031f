//! The unit suffix of a duration written on the command line.

use vstd::prelude::*;
use crate::text::{ends_with, has_suffix};
use vstd::string::StrSliceExecFns;

verus! {

/// The unit a duration's number counts.
#[derive(Clone, Copy, Debug, PartialEq, Eq, Structural)]
pub enum DurationUnit {
    /// `ns`
    Nanoseconds,
    /// `us`
    Microseconds,
    /// `ms`
    Milliseconds,
    /// `s`, and a bare number
    Seconds,
    /// `m`
    Minutes,
    /// `h`
    Hours,
}

/// The suffixes tried, in order, with their units.
pub open spec fn unit_suffix(u: DurationUnit) -> Seq<char> {
    match u {
        DurationUnit::Nanoseconds => seq!['n', 's'],
        DurationUnit::Microseconds => seq!['u', 's'],
        DurationUnit::Milliseconds => seq!['m', 's'],
        DurationUnit::Seconds => seq!['s'],
        DurationUnit::Minutes => seq!['m'],
        DurationUnit::Hours => seq!['h'],
    }
}

/// `raw` without the suffix `u`, paired with `u`.
pub open spec fn stripped(raw: Seq<char>, u: DurationUnit) -> (Seq<char>, DurationUnit) {
    (raw.subrange(0, raw.len() - unit_suffix(u).len()), u)
}

/// The number part and the unit of a duration: the first of `ns`, `us`, `ms`, `s`, `m`, `h`
/// that ends `raw` is taken off and names the unit; with none, the whole is a number of
/// seconds.
pub open spec fn spec_split_unit(raw: Seq<char>) -> (Seq<char>, DurationUnit) {
    if has_suffix(raw, unit_suffix(DurationUnit::Nanoseconds)) {
        stripped(raw, DurationUnit::Nanoseconds)
    } else if has_suffix(raw, unit_suffix(DurationUnit::Microseconds)) {
        stripped(raw, DurationUnit::Microseconds)
    } else if has_suffix(raw, unit_suffix(DurationUnit::Milliseconds)) {
        stripped(raw, DurationUnit::Milliseconds)
    } else if has_suffix(raw, unit_suffix(DurationUnit::Seconds)) {
        stripped(raw, DurationUnit::Seconds)
    } else if has_suffix(raw, unit_suffix(DurationUnit::Minutes)) {
        stripped(raw, DurationUnit::Minutes)
    } else if has_suffix(raw, unit_suffix(DurationUnit::Hours)) {
        stripped(raw, DurationUnit::Hours)
    } else {
        (raw, DurationUnit::Seconds)
    }
}

/// `raw` without its last `k` characters.
fn drop_tail<'a>(raw: &'a str, k: usize) -> (r: &'a str)
    requires
        k <= raw@.len(),
    ensures
        r@ == raw@.subrange(0, raw@.len() - k),
{
    let n = raw.unicode_len();
    raw.substring_char(0, n - k)
}

/// Splits a duration into its number part and the unit its suffix names.
pub fn split_unit(raw: &str) -> (r: (&str, DurationUnit))
    ensures
        (r.0@, r.1) == spec_split_unit(raw@),
{
    proof {
        reveal_strlit("ns");
        reveal_strlit("us");
        reveal_strlit("ms");
        reveal_strlit("s");
        reveal_strlit("m");
        reveal_strlit("h");
        assert("ns"@ =~= unit_suffix(DurationUnit::Nanoseconds));
        assert("us"@ =~= unit_suffix(DurationUnit::Microseconds));
        assert("ms"@ =~= unit_suffix(DurationUnit::Milliseconds));
        assert("s"@ =~= unit_suffix(DurationUnit::Seconds));
        assert("m"@ =~= unit_suffix(DurationUnit::Minutes));
        assert("h"@ =~= unit_suffix(DurationUnit::Hours));
    }
    if ends_with(raw, "ns") {
        (drop_tail(raw, 2), DurationUnit::Nanoseconds)
    } else if ends_with(raw, "us") {
        (drop_tail(raw, 2), DurationUnit::Microseconds)
    } else if ends_with(raw, "ms") {
        (drop_tail(raw, 2), DurationUnit::Milliseconds)
    } else if ends_with(raw, "s") {
        (drop_tail(raw, 1), DurationUnit::Seconds)
    } else if ends_with(raw, "m") {
        (drop_tail(raw, 1), DurationUnit::Minutes)
    } else if ends_with(raw, "h") {
        (drop_tail(raw, 1), DurationUnit::Hours)
    } else {
        (raw, DurationUnit::Seconds)
    }
}

} // verus!

//! Human-readable texts for the terminal: counts, durations, timestamps and file paths.
use vstd::prelude::*;
use std::ops::Range;
use crate::text::{decimal, push_char, write_decimal, write_str, write_zero_padded, zero_padded};

verus! {

/// The items separated by `sep`.
pub open spec fn joined(items: Seq<Seq<char>>, sep: Seq<char>) -> Seq<char>
    decreases items.len(),
{
    if items.len() == 0 {
        Seq::<char>::empty()
    } else if items.len() == 1 {
        items[0]
    } else {
        joined(items.drop_last(), sep) + sep + items.last()
    }
}

/// `count name` for each entry with a nonzero count, in order.
pub open spec fn count_items(entries: Seq<(String, usize)>) -> Seq<Seq<char>> {
    entries.filter(|e: (String, usize)| e.1 > 0).map_values(
        |e: (String, usize)| decimal(e.1 as nat) + seq![' '] + e.0@,
    )
}

/// Lists the nonzero counts as `count name`, separated by `, `, in the order given.
pub fn display_counts(counts: &Vec<(String, usize)>) -> (s: String)
    ensures
        s@ == joined(count_items(counts@), seq![',', ' ']),
{
    let ghost pred = |e: (String, usize)| e.1 > 0;
    let ghost item = |e: (String, usize)| decimal(e.1 as nat) + seq![' '] + e.0@;
    let mut s = String::new();
    let mut any = false;
    let mut i: usize = 0;
    while i < counts.len()
        invariant
            i <= counts@.len(),
            any == (counts@.take(i as int).filter(pred).len() > 0),
            pred == (|e: (String, usize)| e.1 > 0),
            item == (|e: (String, usize)| decimal(e.1 as nat) + seq![' '] + e.0@),
            s@ == joined(counts@.take(i as int).filter(pred).map_values(item), seq![',', ' ']),
        decreases counts@.len() - i,
    {
        let ghost before = counts@.take(i as int).filter(pred).map_values(item);
        proof {
            assert(counts@.take(i + 1) =~= counts@.take(i as int).push(counts@[i as int]));
            counts@.take(i as int).lemma_filter_push(counts@[i as int], pred);
        }
        if counts[i].1 > 0 {
            if any {
                push_char(&mut s, ',');
                push_char(&mut s, ' ');
            }
            any = true;
            write_decimal(&mut s, counts[i].1 as u128);
            push_char(&mut s, ' ');
            write_str(&mut s, counts[i].0.as_str());
            proof {
                let after = counts@.take(i + 1).filter(pred).map_values(item);
                assert(after =~= before.push(item(counts@[i as int])));
                assert(after.drop_last() =~= before);
            }
        }
        i = i + 1;
    }
    proof {
        assert(counts@.take(counts@.len() as int) =~= counts@);
    }
    s
}

/// A duration of `ms` milliseconds: `H h MM m SS s` from an hour on, `M m SS s` from a minute
/// on, `S.mmm s` from a second on, `N ms` below.
pub open spec fn duration_text(ms: nat) -> Seq<char> {
    let hours = ms / 3_600_000;
    let minutes = ms % 3_600_000 / 60_000;
    let seconds = ms % 60_000 / 1_000;
    let millis = ms % 1_000;
    if hours > 0 {
        decimal(hours) + seq![' ', 'h', ' '] + zero_padded(minutes, 2) + seq![' ', 'm', ' ']
            + zero_padded(seconds, 2) + seq![' ', 's']
    } else if minutes > 0 {
        decimal(minutes) + seq![' ', 'm', ' '] + zero_padded(seconds, 2) + seq![' ', 's']
    } else if seconds > 0 {
        decimal(seconds) + seq!['.'] + zero_padded(millis, 3) + seq![' ', 's']
    } else {
        decimal(millis) + seq![' ', 'm', 's']
    }
}

/// The text of a duration of `ms` milliseconds (see `duration_text`).
pub fn format_duration(ms: u128) -> (s: String)
    ensures
        s@ == duration_text(ms as nat),
{
    let hours = ms / 3_600_000;
    let rest = ms % 3_600_000;
    let minutes = rest / 60_000;
    let rest = rest % 60_000;
    let seconds = rest / 1_000;
    let milliseconds = rest % 1_000;
    proof {
        assert(ms % 3_600_000 % 60_000 == ms % 60_000) by (nonlinear_arith);
    }
    let mut s = String::new();
    if hours > 0 {
        write_decimal(&mut s, hours);
        push_char(&mut s, ' ');
        push_char(&mut s, 'h');
        push_char(&mut s, ' ');
        write_zero_padded(&mut s, minutes, 2);
        push_char(&mut s, ' ');
        push_char(&mut s, 'm');
        push_char(&mut s, ' ');
        write_zero_padded(&mut s, seconds, 2);
        push_char(&mut s, ' ');
        push_char(&mut s, 's');
    } else if minutes > 0 {
        write_decimal(&mut s, minutes);
        push_char(&mut s, ' ');
        push_char(&mut s, 'm');
        push_char(&mut s, ' ');
        write_zero_padded(&mut s, seconds, 2);
        push_char(&mut s, ' ');
        push_char(&mut s, 's');
    } else if seconds > 0 {
        write_decimal(&mut s, seconds);
        push_char(&mut s, '.');
        write_zero_padded(&mut s, milliseconds, 3);
        push_char(&mut s, ' ');
        push_char(&mut s, 's');
    } else {
        write_decimal(&mut s, milliseconds);
        push_char(&mut s, ' ');
        push_char(&mut s, 'm');
        push_char(&mut s, 's');
    }
    assert(s@ =~= duration_text(ms as nat));
    s
}

/// The time of day, in UTC, `ms` milliseconds after the Unix epoch: `HH:MM:SS.mmm`.
pub open spec fn clock_text(ms: nat) -> Seq<char> {
    zero_padded(ms / 3_600_000 % 24, 2) + seq![':'] + zero_padded(ms / 60_000 % 60, 2) + seq![
        ':',
    ] + zero_padded(ms / 1_000 % 60, 2) + seq!['.'] + zero_padded(ms % 1_000, 3)
}

/// The largest number of milliseconds after the epoch that chrono gives a date for: the last
/// millisecond of the year 262,142, the last year it represents.
pub const MAX_TIMESTAMP_MS: u64 = 8_210_266_876_799_999;

/// `chrono::DateTime::from_timestamp_millis`, then `format("%H:%M:%S%.3f")`. The date is in
/// range for every count of milliseconds from zero to `MAX_TIMESTAMP_MS` (chrono's last
/// date is December 31 of the year 262,142), and the format writes the hour, minute and
/// second of the UTC time of day on two digits each and the milliseconds on three, after a
/// dot.
#[verifier::external_body]
fn utc_time_of_day(ms: i64) -> (s: String)
    requires
        0 <= ms <= MAX_TIMESTAMP_MS,
    ensures
        s@ == clock_text(ms as nat),
{
    chrono::DateTime::from_timestamp_millis(ms).unwrap().format("%H:%M:%S%.3f").to_string()
}

/// The time of day `ms` milliseconds after the Unix epoch (see `clock_text`).
pub fn format_timestamp(ms: usize) -> (s: String)
    requires
        ms <= MAX_TIMESTAMP_MS,
    ensures
        s@ == clock_text(ms as nat),
{
    utc_time_of_day(ms as i64)
}

/// The timestamp of `ms` milliseconds into a video: the time of day that many milliseconds
/// after the Unix epoch (see `clock_text`).
pub fn milliseconds_to_timestamp(ms: usize) -> (s: String)
    requires
        ms <= MAX_TIMESTAMP_MS,
    ensures
        s@ == clock_text(ms as nat),
{
    utc_time_of_day(ms as i64)
}

/// `from `, the time of day of the range's start, ` to `, that of its end.
pub fn format_timestamp_range(ms_range: &Range<usize>) -> (s: String)
    requires
        ms_range.start <= MAX_TIMESTAMP_MS,
        ms_range.end <= MAX_TIMESTAMP_MS,
    ensures
        s@ == seq!['f', 'r', 'o', 'm', ' '] + clock_text(ms_range.start as nat) + seq![
            ' ',
            't',
            'o',
            ' ',
        ] + clock_text(ms_range.end as nat),
{
    let mut s = String::new();
    push_char(&mut s, 'f');
    push_char(&mut s, 'r');
    push_char(&mut s, 'o');
    push_char(&mut s, 'm');
    push_char(&mut s, ' ');
    let start = format_timestamp(ms_range.start);
    write_str(&mut s, start.as_str());
    push_char(&mut s, ' ');
    push_char(&mut s, 't');
    push_char(&mut s, 'o');
    push_char(&mut s, ' ');
    let end = format_timestamp(ms_range.end);
    write_str(&mut s, end.as_str());
    assert(s@ =~= seq!['f', 'r', 'o', 'm', ' '] + clock_text(ms_range.start as nat) + seq![
        ' ',
        't',
        'o',
        ' ',
    ] + clock_text(ms_range.end as nat));
    s
}

/// A path that is relative on every platform: empty, or starting with no separator (`/` or
/// `\\`) and holding no `:` (which starts a drive or a scheme).
pub open spec fn relative_everywhere(p: Seq<char>) -> bool {
    p.len() == 0 || (p[0] != '/' && p[0] != '\\' && !p.contains(':'))
}

/// `std::path::Path::is_relative`. Which other paths are relative depends on the platform's
/// rules (on Unix, one that does not start with `/`; on Windows, one without both a drive
/// and a root), so only what holds on every platform is said: a path with no root and no
/// prefix is relative.
#[verifier::external_body]
fn path_is_relative(path: &str) -> (r: bool)
    ensures
        relative_everywhere(path@) ==> r,
{
    std::path::Path::new(path).is_relative()
}

/// A path as shown to the user: `./` before it when it is relative.
pub fn filepath_text(path: &str, relative: bool) -> (s: String)
    ensures
        s@ == (if relative {
            seq!['.', '/']
        } else {
            Seq::<char>::empty()
        }) + path@,
{
    let mut s = String::new();
    if relative {
        push_char(&mut s, '.');
        push_char(&mut s, '/');
    }
    write_str(&mut s, path);
    assert(s@ =~= (if relative {
        seq!['.', '/']
    } else {
        Seq::<char>::empty()
    }) + path@);
    s
}

/// A path as shown to the user: `./` before it when the platform deems it relative, as it
/// does every path that is relative on every platform (see `relative_everywhere`).
pub fn format_filepath(path: &str) -> (s: String)
    ensures
        s@ == path@ || s@ == seq!['.', '/'] + path@,
        relative_everywhere(path@) ==> s@ == seq!['.', '/'] + path@,
{
    let relative = path_is_relative(path);
    filepath_text(path, relative)
}

} // verus!

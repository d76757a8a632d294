//! Human-readable sizes, counts and durations, and path truncation.

use vstd::prelude::*;
use vstd::arithmetic::div_mod::lemma_div_is_ordered_by_denominator;
use crate::decimal::{
    after_int, decimal_result, digits_value, frac_digits, int_digits, is_decimal, is_negative,
    lemma_dec_value, lemma_lead_digits, pow10, read_decimal, unsigned_part,
};
use crate::text::{
    chars_of, dec, digit, digit_char, is_white_space, lemma_dec_chars, lemma_trim_end_skips,
    lemma_trim_keeps, lemma_trim_start_skips, push_decimal, push_str, string_from, trim_range,
    trim_start_ws, trim_ws,
};

verus! {

/// One kilobyte (binary): 1024 bytes.
pub const KB: u64 = 1024;

/// One megabyte (binary).
pub const MB: u64 = KB * 1024;

/// One gigabyte (binary).
pub const GB: u64 = MB * 1024;

/// One terabyte (binary).
pub const TB: u64 = GB * 1024;

/// `num / den` rounded to the nearest integer, ties to the even neighbour.
pub open spec fn round_half_even(num: nat, den: nat) -> nat {
    let q = num / den;
    let r = num % den;
    if 2 * r > den || (2 * r == den && q % 2 == 1) {
        q + 1
    } else {
        q
    }
}

/// `bytes / unit` written with one decimal place.
pub open spec fn one_place(bytes: nat, unit: nat) -> Seq<char> {
    let t = round_half_even(bytes * 10, unit);
    dec(t / 10) + seq!['.', digit_char(t % 10)]
}

/// `bytes / unit` written with two decimal places.
pub open spec fn two_places(bytes: nat, unit: nat) -> Seq<char> {
    let h = round_half_even(bytes * 100, unit);
    dec(h / 100) + seq!['.', digit_char((h / 10) % 10), digit_char(h % 10)]
}

/// The text `human_size` gives for `bytes`: the largest unit of the
/// ladder B, KB, MB, GB, TB in which the value is at least one, with two
/// decimals for TB, one for GB, MB and KB, and none for B.
pub open spec fn size_text(bytes: nat) -> Seq<char> {
    if bytes >= TB {
        two_places(bytes, TB as nat) + seq![' ', 'T', 'B']
    } else if bytes >= GB {
        one_place(bytes, GB as nat) + seq![' ', 'G', 'B']
    } else if bytes >= MB {
        one_place(bytes, MB as nat) + seq![' ', 'M', 'B']
    } else if bytes >= KB {
        one_place(bytes, KB as nat) + seq![' ', 'K', 'B']
    } else {
        dec(bytes) + seq![' ', 'B']
    }
}

/// `num / den` rounded to the nearest integer, ties to the even neighbour.
fn rounded_quotient(num: u128, den: u128) -> (q: u128)
    requires
        den > 0,
        num < u128::MAX,
    ensures
        q == round_half_even(num as nat, den as nat),
        q <= num / den + 1,
{
    let q = num / den;
    let r = num % den;
    assert(r < den);
    if r > den - r || (r == den - r && q % 2 == 1) {
        assert(q < u128::MAX) by {
            lemma_div_is_ordered_by_denominator(num as int, 1, den as int);
        }
        q + 1
    } else {
        q
    }
}

/// Appends `bytes / unit` rounded to `scale` (10 or 100) steps per unit,
/// with one or two decimal places.
fn push_fixed(out: &mut Vec<char>, bytes: u64, unit: u64, scale: u64)
    requires
        unit >= 1024,
        scale == 10 || scale == 100,
    ensures
        scale == 10 ==> final(out)@ == old(out)@ + one_place(bytes as nat, unit as nat),
        scale == 100 ==> final(out)@ == old(out)@ + two_places(bytes as nat, unit as nat),
{
    let num = (bytes as u128) * (scale as u128);
    assert(num <= u64::MAX as u128 * 100) by (nonlinear_arith)
        requires num == (bytes as u128) * (scale as u128), scale <= 100;
    let q = rounded_quotient(num, unit as u128);
    assert(num / (unit as u128) <= num / 1024) by {
        lemma_div_is_ordered_by_denominator(num as int, 1024, unit as int);
    }
    assert(q <= u64::MAX as u128 / 8);
    let q = q as u64;
    push_decimal(out, q / scale);
    out.push('.');
    if scale == 100 {
        out.push(digit((q / 10) % 10));
    }
    out.push(digit(q % 10));
}

/// Formats a byte count as a human-readable size: `"512 B"`, `"1.5 KB"`,
/// `"100.0 MB"`, `"1.00 TB"`.
pub fn human_size(bytes: u64) -> (r: String)
    ensures
        r@ == size_text(bytes as nat),
{
    let mut out: Vec<char> = Vec::new();
    if bytes >= TB {
        push_fixed(&mut out, bytes, TB, 100);
        out.push(' ');
        out.push('T');
    } else if bytes >= GB {
        push_fixed(&mut out, bytes, GB, 10);
        out.push(' ');
        out.push('G');
    } else if bytes >= MB {
        push_fixed(&mut out, bytes, MB, 10);
        out.push(' ');
        out.push('M');
    } else if bytes >= KB {
        push_fixed(&mut out, bytes, KB, 10);
        out.push(' ');
        out.push('K');
    } else {
        push_decimal(&mut out, bytes);
        out.push(' ');
    }
    out.push('B');
    assert(out@ =~= size_text(bytes as nat));
    string_from(&out)
}


/// Why a text is not a size in bytes.
#[derive(Debug, Clone, Copy, PartialEq, Eq)]
pub enum SizeError {
    /// Nothing but whitespace.
    EmptyInput,
    /// The part before the unit is not a decimal number.
    InvalidNumber,
    /// The number is below zero.
    NegativeValue,
}

/// `c` with an ASCII lowercase letter made uppercase.
pub open spec fn upper_ascii(c: char) -> char {
    if 97 <= c as u32 && c as u32 <= 122 {
        ((c as u32) - 32) as char
    } else {
        c
    }
}

/// The multiplier of the unit letter `c` (T, G, M or K, in either case)
/// standing before a `B`, or zero for any other character.
pub open spec fn unit_multiplier(c: char) -> nat {
    let u = upper_ascii(c);
    if u == 'T' {
        TB as nat
    } else if u == 'G' {
        GB as nat
    } else if u == 'M' {
        MB as nat
    } else if u == 'K' {
        KB as nat
    } else {
        0
    }
}

/// The text before the unit suffix of `t` and the suffix's multiplier.
/// The suffixes TB, GB, MB, KB and B are tried in that order, in either
/// case; a text without one is a count of bytes.
pub open spec fn split_unit(t: Seq<char>) -> (Seq<char>, nat) {
    if t.len() >= 2 && upper_ascii(t.last()) == 'B' && unit_multiplier(t[t.len() - 2]) > 0 {
        (t.take(t.len() - 2), unit_multiplier(t[t.len() - 2]))
    } else if t.len() >= 1 && upper_ascii(t.last()) == 'B' {
        (t.drop_last(), 1)
    } else {
        (t, 1)
    }
}

/// What `parse_size` gives for `text`: the trimmed text must not be empty;
/// the number before the unit suffix, trimmed again, must be a decimal
/// number that is not below zero; the result is that number times the
/// unit's multiplier, rounded toward zero and capped at the largest `u64`.
pub open spec fn size_parse(text: Seq<char>) -> Result<u64, SizeError> {
    let t = trim_ws(text);
    if t.len() == 0 {
        Err(SizeError::EmptyInput)
    } else {
        decimal_result(trim_ws(split_unit(t).0), split_unit(t).1)
    }
}

fn upper(c: char) -> (r: char)
    ensures
        r == upper_ascii(c),
{
    if 97 <= c as u32 && c as u32 <= 122 {
        ((c as u32 - 32) as u8) as char
    } else {
        c
    }
}

fn multiplier_of(c: char) -> (m: u64)
    ensures
        m as nat == unit_multiplier(c),
{
    let u = upper(c);
    if u == 'T' {
        TB
    } else if u == 'G' {
        GB
    } else if u == 'M' {
        MB
    } else if u == 'K' {
        KB
    } else {
        0
    }
}

/// Parses a human-readable size such as `"100MB"`, `"1.5gb"` or `" 2 KB "`
/// into bytes. Surrounding whitespace is ignored, the unit (B, KB, MB, GB,
/// TB, binary multiples) may be written in either case, and a number
/// without a unit counts bytes.
pub fn parse_size(size_str: &str) -> (r: Result<u64, SizeError>)
    ensures
        r == size_parse(size_str@),
{
    let v = chars_of(size_str);
    assert(v@.subrange(0, v.len() as int) =~= v@);
    let (a, b) = trim_range(&v, 0, v.len());
    if a == b {
        return Err(SizeError::EmptyInput);
    }
    let ghost t = v@.subrange(a as int, b as int);
    let mut end = b;
    let mut mult: u64 = 1;
    if upper(v[b - 1]) == 'B' {
        end = b - 1;
        if b - a >= 2 {
            let m = multiplier_of(v[b - 2]);
            if m > 0 {
                end = b - 2;
                mult = m;
            }
        }
    }
    assert(t.last() == v@[b - 1]);
    assert(b - a >= 2 ==> t[t.len() - 2] == v@[b - 2]);
    assert(split_unit(t).0 =~= v@.subrange(a as int, end as int));
    assert(split_unit(t).1 == mult);
    let (c, d) = trim_range(&v, a, end);
    read_decimal(&v, c, d, mult)
}

/// The three dots that stand for the dropped head of a truncated path.
pub open spec fn ellipsis() -> Seq<char> {
    seq!['.', '.', '.']
}

/// What `truncate_path` gives: the path itself when it has at most
/// `max_len` characters; otherwise `"..."` followed by as many of its last
/// characters as fit in `max_len` (none when `max_len` is 3 or less).
pub open spec fn truncated(path: Seq<char>, max_len: nat) -> Seq<char> {
    if path.len() <= max_len {
        path
    } else if max_len <= 3 {
        ellipsis()
    } else {
        ellipsis() + path.skip(path.len() - (max_len - 3))
    }
}

/// Truncates a path to at most `max_len` characters for display, keeping
/// its end (the file name and nearest directories) behind `"..."`.
/// Lengths count characters, not bytes.
pub fn truncate_path(path: &str, max_len: usize) -> (r: String)
    ensures
        r@ == truncated(path@, max_len as nat),
{
    let v = chars_of(path);
    if v.len() <= max_len {
        return string_from(&v);
    }
    let mut out: Vec<char> = Vec::new();
    out.push('.');
    out.push('.');
    out.push('.');
    if max_len <= 3 {
        assert(out@ =~= ellipsis());
        return string_from(&out);
    }
    let start = v.len() - (max_len - 3);
    let ghost head = out@;
    for i in start..v.len()
        invariant
            start <= v.len(),
            head == ellipsis(),
            out@ =~= head + v@.subrange(start as int, i as int),
    {
        out.push(v[i]);
    }
    assert(v@.subrange(start as int, v.len() as int) =~= v@.skip(start as int));
    string_from(&out)
}

/// What `pluralize` gives: the count, a space, and the singular label for
/// a count of one or the plural label for any other count.
pub open spec fn plural_text(count: nat, singular: Seq<char>, plural: Seq<char>) -> Seq<char> {
    dec(count) + seq![' '] + if count == 1 {
        singular
    } else {
        plural
    }
}

/// Writes a count with its label: `"1 file"`, `"0 files"`, `"5 files"`.
pub fn pluralize(count: usize, singular: &str, plural: &str) -> (r: String)
    ensures
        r@ == plural_text(count as nat, singular@, plural@),
{
    let mut out: Vec<char> = Vec::new();
    push_decimal(&mut out, count as u64);
    out.push(' ');
    if count == 1 {
        push_str(&mut out, singular);
    } else {
        push_str(&mut out, plural);
    }
    assert(out@ =~= plural_text(count as nat, singular@, plural@));
    string_from(&out)
}

/// `digits` with a comma between each group of three, counted from the
/// right.
pub open spec fn group_thousands(digits: Seq<char>) -> Seq<char>
    decreases digits.len(),
{
    if digits.len() <= 3 {
        digits
    } else {
        group_thousands(digits.take(digits.len() - 3)) + seq![','] + digits.skip(
            digits.len() - 3,
        )
    }
}

/// Appends `group_thousands` of the first `n` characters of `digits`.
fn push_grouped(out: &mut Vec<char>, digits: &Vec<char>, n: usize)
    requires
        n <= digits.len(),
    ensures
        final(out)@ == old(out)@ + group_thousands(digits@.take(n as int)),
    decreases n,
{
    let ghost start = old(out)@;
    let ghost d = digits@.take(n as int);
    let mut from: usize = 0;
    if n > 3 {
        push_grouped(out, digits, n - 3);
        out.push(',');
        from = n - 3;
        assert(d.take(d.len() - 3) =~= digits@.take(n - 3));
    }
    let ghost mid = out@;
    for i in from..n
        invariant
            n <= digits.len(),
            out@ =~= mid + digits@.subrange(from as int, i as int),
    {
        out.push(digits[i]);
    }
    assert(d.skip(from as int) =~= digits@.subrange(from as int, n as int));
    assert(n <= 3 ==> d =~= digits@.subrange(0, n as int));
    assert(out@ =~= start + group_thousands(d));
}

/// Writes a count with a comma between each group of three digits:
/// `"999"`, `"1,234,567"`.
pub fn human_count(n: u64) -> (r: String)
    ensures
        r@ == group_thousands(dec(n as nat)),
{
    let mut digits: Vec<char> = Vec::new();
    push_decimal(&mut digits, n);
    assert(digits@ =~= dec(n as nat));
    let mut out: Vec<char> = Vec::new();
    push_grouped(&mut out, &digits, digits.len());
    assert(digits@.take(digits.len() as int) =~= digits@);
    assert(out@ =~= group_thousands(dec(n as nat)));
    string_from(&out)
}

/// What `format_duration` gives for `secs` whole seconds and `millis`
/// further milliseconds: `"<ms>ms"` under a second, `"<s>.<tenths>s"`
/// under a minute (tenths truncated), `"<m>m <s>s"` under an hour, and
/// `"<h>h <m>m"` from an hour on.
pub open spec fn duration_text(secs: nat, millis: nat) -> Seq<char> {
    if secs == 0 {
        dec(millis) + seq!['m', 's']
    } else if secs < 60 {
        dec(secs) + seq!['.'] + dec(millis / 100) + seq!['s']
    } else if secs < 3600 {
        dec(secs / 60) + seq!['m', ' '] + dec(secs % 60) + seq!['s']
    } else {
        dec(secs / 3600) + seq!['h', ' '] + dec((secs % 3600) / 60) + seq!['m']
    }
}

/// Formats a duration given as whole seconds and the milliseconds past
/// them: `"500ms"`, `"5.5s"`, `"1m 30s"`, `"1h 1m"`.
pub fn format_duration(secs: u64, millis: u32) -> (r: String)
    ensures
        r@ == duration_text(secs as nat, millis as nat),
{
    let mut out: Vec<char> = Vec::new();
    if secs == 0 {
        push_decimal(&mut out, millis as u64);
        out.push('m');
        out.push('s');
    } else if secs < 60 {
        push_decimal(&mut out, secs);
        out.push('.');
        push_decimal(&mut out, (millis / 100) as u64);
        out.push('s');
    } else if secs < 3600 {
        push_decimal(&mut out, secs / 60);
        out.push('m');
        out.push(' ');
        push_decimal(&mut out, secs % 60);
        out.push('s');
    } else {
        push_decimal(&mut out, secs / 3600);
        out.push('h');
        out.push(' ');
        push_decimal(&mut out, (secs % 3600) / 60);
        out.push('m');
    }
    assert(out@ =~= duration_text(secs as nat, millis as nat));
    string_from(&out)
}

/// The whole seconds of a duration, as `Duration::as_secs` gives them.
pub uninterp spec fn whole_secs_of(d: core::time::Duration) -> u64;

/// The milliseconds past the whole seconds of a duration, as
/// `Duration::subsec_millis` gives them.
pub uninterp spec fn subsec_millis_of(d: core::time::Duration) -> u32;

/// Relies on `Duration::as_secs`: the whole seconds of the duration, a
/// function of the duration alone.
pub assume_specification[ core::time::Duration::as_secs ](d: &core::time::Duration) -> (r: u64)
    ensures
        r == whole_secs_of(*d),
;

/// Relies on `Duration::subsec_millis`: the milliseconds past the whole
/// seconds, a function of the duration alone and always below one thousand.
pub assume_specification[ core::time::Duration::subsec_millis ](d: &core::time::Duration) -> (r:
    u32)
    ensures
        r == subsec_millis_of(*d),
        r < 1000,
;

/// Formats a duration: `"500ms"`, `"5.5s"`, `"1m 30s"`, `"1h 1m"`.
pub fn human_duration(duration: std::time::Duration) -> (r: String)
    ensures
        r@ == duration_text(whole_secs_of(duration) as nat, subsec_millis_of(duration) as nat),
{
    let secs = duration.as_secs();
    let millis = duration.subsec_millis();
    format_duration(secs, millis)
}

/// Every size below one kilobyte is written as its plain byte count
/// followed by `" B"`.
pub proof fn lemma_small_sizes_in_bytes(bytes: u64)
    requires
        bytes < 1024,
    ensures
        size_text(bytes as nat) == dec(bytes as nat) + seq![' ', 'B'],
{
}

/// A positive whole number followed by a unit of KB, MB, GB or TB, in any
/// case and with any whitespace around it, parses to the number times the
/// unit's multiplier, as long as that fits in a `u64`.
pub proof fn lemma_parse_whole_units(n: u64, unit: Seq<char>, before: Seq<char>, after: Seq<char>)
    requires
        n > 0,
        unit.len() == 2,
        unit_multiplier(unit[0]) > 0,
        upper_ascii(unit[1]) == 'B',
        forall|i: int| 0 <= i < before.len() ==> is_white_space(#[trigger] before[i]),
        forall|i: int| 0 <= i < after.len() ==> is_white_space(#[trigger] after[i]),
        n * unit_multiplier(unit[0]) <= u64::MAX,
    ensures
        size_parse(before + dec(n as nat) + unit + after) == Ok::<u64, SizeError>(
            (n * unit_multiplier(unit[0])) as u64,
        ),
{
    let d = dec(n as nat);
    let m = unit_multiplier(unit[0]);
    lemma_dec_chars(n as nat);
    lemma_dec_value(n as nat);
    let t = d + unit;
    assert(before + d + unit + after =~= before + (t + after));
    lemma_trim_start_skips(before, t + after);
    assert(48 <= d[0] as u32 <= 57);
    assert((t + after)[0] == d[0]);
    assert(trim_start_ws(t + after) == t + after);
    lemma_trim_end_skips(t, after);
    assert(t.last() == unit[1]);
    lemma_trim_keeps(t);
    assert(trim_ws(before + d + unit + after) == t);
    assert(t[t.len() - 2] == unit[0]);
    assert(t.take(t.len() - 2) =~= d);
    assert(split_unit(t) == (d, m));
    assert(d.last() == d[d.len() - 1]);
    lemma_trim_keeps(d);
    // `d` is an unsigned run of digits with nothing after it.
    assert(unsigned_part(d) == d);
    assert(d.take(d.len() as int) =~= d);
    lemma_lead_digits(d, d.len() as int);
    assert(int_digits(d) =~= d);
    assert(after_int(d) =~= Seq::<char>::empty());
    assert(frac_digits(d) =~= Seq::<char>::empty());
    assert(digits_value(Seq::<char>::empty()) == 0);
    assert(pow10(0) == 1);
    assert(is_decimal(d));
    assert(!is_negative(d));
}

/// A path that fits within the limit is left as it is.
pub proof fn lemma_short_paths_unchanged(path: Seq<char>, max_len: nat)
    requires
        path.len() <= max_len,
    ensures
        truncated(path, max_len) == path,
{
}

/// With a limit of three characters or less, a path that does not fit
/// becomes just the ellipsis.
pub proof fn lemma_tiny_limits_give_ellipsis(path: Seq<char>, max_len: nat)
    requires
        max_len <= 3,
        path.len() > max_len,
    ensures
        truncated(path, max_len) == ellipsis(),
{
}

} // verus!

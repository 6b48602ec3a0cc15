//! Human-readable sizes and durations.
use vstd::prelude::*;
use crate::text::{append_chars, char_of_digit, chars_of, decimal, decimal_chars, decimal_chars_wide, digit_char, push_str, string_of};

verus! {

/// 2^53: integers from here on are not all representable as `f64`.
pub open spec fn two53() -> nat {
    0x20_0000_0000_0000
}

/// Halve `m` (doubling `p`) until `m` is below 2^53.
pub open spec fn reduce(m: nat, p: nat) -> (nat, nat)
    decreases m,
{
    if m < two53() {
        (m, p)
    } else {
        reduce(m / 2, p * 2)
    }
}

/// `a / d` rounded to the nearest integer, ties to even.
pub open spec fn round_div_even(a: nat, d: nat) -> nat {
    let q = a / d;
    let r = a % d;
    if 2 * r > d || (2 * r == d && q % 2 == 1) {
        q + 1
    } else {
        q
    }
}

/// The value of `n as f64`: `n` rounded to 53 significant bits, ties to even.
pub open spec fn float_of(n: nat) -> nat {
    let p = reduce(n, 1).1;
    if p == 1 {
        n
    } else {
        round_div_even(n, p) * p
    }
}

/// Divide by 1024 (up to four times) while the value is at least 1024:
/// the divisor and the number of divisions.
pub open spec fn units(f: nat, d: nat, u: nat) -> (nat, nat)
    decreases 4 - u,
{
    if u < 4 && f >= d * 1024 {
        units(f, d * 1024, u + 1)
    } else {
        (d, u)
    }
}

/// The name of a size unit.
pub open spec fn unit_name(u: nat) -> Seq<char> {
    if u == 0 { "B"@ }
    else if u == 1 { "KB"@ }
    else if u == 2 { "MB"@ }
    else if u == 3 { "GB"@ }
    else { "TB"@ }
}

/// A size in bytes as text: below 1 KB the exact count and `B`; otherwise
/// the size in the largest unit (KB to TB) that keeps it at least 1, with
/// two decimals rounded half to even, as `format!("{:.2}")` prints the
/// `f64` value.
pub open spec fn bytes_text(b: u64) -> Seq<char> {
    let f = float_of(b as nat);
    let (d, u) = units(f, 1, 0);
    if u == 0 {
        decimal(b as nat) + "B"@
    } else {
        let h = round_div_even(f * 100, d);
        decimal(h / 100) + seq!['.', digit_char((h / 10) % 10), digit_char(h % 10)] + unit_name(u)
    }
}

/// The exec form of [`round_div_even`].
fn round_div_even_exec(a: u128, d: u128) -> (r: u128)
    requires
        d > 0,
        a < 0x1_0000_0000_0000_0000_0000_0000,
    ensures
        r == round_div_even(a as nat, d as nat),
        r <= a / d + 1,
{
    let q = a / d;
    let r = a % d;
    if r > d - r || (r == d - r && q % 2 == 1) {
        q + 1
    } else {
        q
    }
}

/// Format bytes in human-readable format (B, KB, MB, GB, TB).
pub fn format_bytes(bytes: u64) -> (r: String)
    ensures
        r@ == bytes_text(bytes),
{
    let n: u128 = bytes as u128;
    let mut m: u128 = n;
    let mut p: u128 = 1;
    while m >= 0x20_0000_0000_0000
        invariant
            reduce(n as nat, 1) == reduce(m as nat, p as nat),
            1 <= p,
            m * p <= n,
            n < 0x1_0000_0000_0000_0000,
            p == 1 || m * 2 + 1 >= 0x20_0000_0000_0000,
        decreases m,
    {
        assert(p < 0x800) by (nonlinear_arith)
            requires
                m >= 0x20_0000_0000_0000,
                m * p <= n,
                n < 0x1_0000_0000_0000_0000,
                1 <= p,
        ;
        assert((m / 2) * (p * 2) <= m * p) by (nonlinear_arith)
            requires m >= 0, p >= 1;
        m = m / 2;
        p = p * 2;
    }
    assert(p < 0x1000) by (nonlinear_arith)
        requires
            m * p <= n,
            n < 0x1_0000_0000_0000_0000,
            1 <= p,
            p == 1 || m * 2 + 1 >= 0x20_0000_0000_0000,
    {
    }
    let f: u128 = if p == 1 {
        n
    } else {
        let q = round_div_even_exec(n, p);
        assert(q * p <= n + p) by (nonlinear_arith)
            requires q <= n / p + 1, p >= 1, n >= 0;
        q * p
    };
    assert(f as nat == float_of(bytes as nat));
    let mut d: u128 = 1;
    let mut u: u32 = 0;
    while u < 4 && f >= d * 1024
        invariant
            units(f as nat, 1, 0) == units(f as nat, d as nat, u as nat),
            u <= 4,
            1 <= d <= 0x100_0000_0000,
            (u == 0 && d == 1) || (u == 1 && d == 1024) || (u == 2 && d == 0x10_0000) || (u == 3 && d == 0x4000_0000) || (u == 4 && d == 0x100_0000_0000),
            f <= 0x1_0000_0000_0000_1000,
        decreases 4 - u,
    {
        d = d * 1024;
        u = u + 1;
    }
    if u == 0 {
        let mut v = decimal_chars(bytes);
        push_str(&mut v, "B");
        string_of(v.as_slice())
    } else {
        let h = round_div_even_exec(f * 100, d);
        let mut v = decimal_chars_wide(h / 100);
        v.push('.');
        v.push(char_of_digit(((h / 10) % 10) as u32));
        v.push(char_of_digit((h % 10) as u32));
        let unit = match u {
            1 => "KB",
            2 => "MB",
            3 => "GB",
            _ => "TB",
        };
        push_str(&mut v, unit);
        string_of(v.as_slice())
    }
}

/// A duration in whole seconds as text: `Ns` below a minute; `Mm` or
/// `Mm Ss` below an hour; `Hh`, `Hh Mm` or `Hh Mm Ss` otherwise (zero
/// trailing parts left out).
pub open spec fn duration_text(total: nat) -> Seq<char> {
    if total < 60 {
        decimal(total) + "s"@
    } else if total < 3600 {
        let mins = total / 60;
        let secs = total % 60;
        if secs == 0 {
            decimal(mins) + "m"@
        } else {
            decimal(mins) + "m "@ + decimal(secs) + "s"@
        }
    } else {
        let hours = total / 3600;
        let mins = (total % 3600) / 60;
        let secs = total % 60;
        if mins == 0 && secs == 0 {
            decimal(hours) + "h"@
        } else if secs == 0 {
            decimal(hours) + "h "@ + decimal(mins) + "m"@
        } else {
            decimal(hours) + "h "@ + decimal(mins) + "m "@ + decimal(secs) + "s"@
        }
    }
}

/// Format a duration given in whole seconds (e.g. "2h 30m 15s").
pub fn format_duration_secs(total_secs: u64) -> (r: String)
    ensures
        r@ == duration_text(total_secs as nat),
{
    let mut v: Vec<char> = Vec::new();
    if total_secs < 60 {
        append_chars(&mut v, &decimal_chars(total_secs));
        push_str(&mut v, "s");
    } else if total_secs < 3600 {
        let mins = total_secs / 60;
        let secs = total_secs % 60;
        append_chars(&mut v, &decimal_chars(mins));
        if secs == 0 {
            push_str(&mut v, "m");
        } else {
            push_str(&mut v, "m ");
            append_chars(&mut v, &decimal_chars(secs));
            push_str(&mut v, "s");
        }
    } else {
        let hours = total_secs / 3600;
        let mins = (total_secs % 3600) / 60;
        let secs = total_secs % 60;
        append_chars(&mut v, &decimal_chars(hours));
        if mins == 0 && secs == 0 {
            push_str(&mut v, "h");
        } else if secs == 0 {
            push_str(&mut v, "h ");
            append_chars(&mut v, &decimal_chars(mins));
            push_str(&mut v, "m");
        } else {
            push_str(&mut v, "h ");
            append_chars(&mut v, &decimal_chars(mins));
            push_str(&mut v, "m ");
            append_chars(&mut v, &decimal_chars(secs));
            push_str(&mut v, "s");
        }
    }
    string_of(v.as_slice())
}

/// The whole seconds of a duration, as `Duration::as_secs` gives them.
pub uninterp spec fn duration_secs(d: std::time::Duration) -> u64;

/// The whole seconds of a duration.
///
/// Trusted: calls `std::time::Duration::as_secs`; the contract names the
/// result, a function of the duration alone.
#[verifier::external_body]
pub(crate) fn whole_secs(duration: &std::time::Duration) -> (r: u64)
    ensures
        r == duration_secs(*duration),
{
    duration.as_secs()
}

/// Format duration in human-readable format (e.g., "2h 30m 15s"), from its
/// whole seconds (see [`format_duration_secs`]).
pub fn format_duration(duration: std::time::Duration) -> (r: String)
    ensures
        r@ == duration_text(duration_secs(duration) as nat),
{
    format_duration_secs(whole_secs(&duration))
}

} // verus!

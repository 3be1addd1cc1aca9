//! Sizes and times as people read them.
use vstd::prelude::*;

use crate::text::{decimal, number, Text};

verus! {

broadcast use vstd::string::group_string_axioms;

/// The bytes of a kibibyte.
pub const KIB: u64 = 1024;

/// The bytes of a mebibyte.
pub const MIB: u64 = 1_048_576;

/// The bytes of a gibibyte.
pub const GIB: u64 = 1_073_741_824;

/// The bytes of a tebibyte.
pub const TIB: u64 = 1_099_511_627_776;

/// The first whole number that a float of eight bytes may have to round.
pub const EXACT_TO: u64 = 9_007_199_254_740_992;

/// The whole number nearest to `n / d`; of two that are as near, the even one.
pub open spec fn nearest(n: nat, d: nat) -> nat {
    let q = n / d;
    let r = n % d;
    if 2 * r > d || (2 * r == d && q % 2 == 1) {
        q + 1
    } else {
        q
    }
}

fn round(n: u128, d: u128) -> (r: u128)
    requires
        0 < d <= u64::MAX,
        n <= u64::MAX * 100,
    ensures
        r == nearest(n as nat, d as nat),
        r <= n / d + 1,
{
    let q: u128 = n / d;
    let rest: u128 = n % d;
    if 2 * rest > d || (2 * rest == d && q % 2 == 1) {
        q + 1
    } else {
        q
    }
}

/// How far apart the floats of eight bytes stand around a whole number.
pub open spec fn float_step(n: nat) -> nat
    decreases n,
{
    if n < EXACT_TO {
        1
    } else {
        2 * float_step(n / 2)
    }
}

/// The float of eight bytes nearest to a whole number.
pub open spec fn as_float(n: u64) -> nat {
    nearest(n as nat, float_step(n as nat)) * float_step(n as nat)
}

proof fn lemma_float_step(n: nat)
    ensures
        1 <= float_step(n),
        n < EXACT_TO ==> float_step(n) == 1,
        n >= EXACT_TO ==> float_step(n) * EXACT_TO <= n * 2,
        n >= EXACT_TO ==> n < float_step(n) * EXACT_TO,
    decreases n,
{
    if n >= EXACT_TO {
        lemma_float_step(n / 2);
    }
}

fn step_of(n: u64) -> (d: u64)
    ensures
        d == float_step(n as nat),
        d >= 1,
        d <= 4096,
    decreases n,
{
    proof {
        lemma_float_step(n as nat);
    }
    if n < EXACT_TO {
        1
    } else {
        let half: u64 = step_of(n / 2);
        proof {
            lemma_float_step(n as nat);
            assert(float_step(n as nat) == 2 * half);
        }
        2 * half
    }
}

fn to_float(n: u64) -> (r: u128)
    ensures
        r == as_float(n),
        r <= n + 4096,
{
    let d: u64 = step_of(n);
    let m: u128 = round(n as u128, d as u128);
    proof {
        let q = n as int / d as int;
        assert(q * d <= n) by (nonlinear_arith)
            requires
                q == n as int / d as int,
                d > 0,
        ;
        assert(m * d <= q * d + d) by (nonlinear_arith)
            requires
                m <= q + 1,
                d > 0,
        ;
        assert(0 <= m * d) by (nonlinear_arith)
            requires
                m >= 0,
                d > 0,
        ;
    }
    m * (d as u128)
}

/// A number of bytes in a larger unit, with one digit after the point.
pub open spec fn tenths(bytes: u64, unit: u64) -> Text {
    let n = nearest(as_float(bytes) * 10, unit as nat);
    decimal(n / 10) + "."@ + decimal(n % 10)
}

/// Bytes in gibibytes, with one digit after the point.
pub open spec fn gib_tenths(bytes: u64) -> Text {
    tenths(bytes, GIB)
}

/// Bytes in gibibytes, with two digits after the point.
pub open spec fn gib_hundredths(bytes: u64) -> Text {
    let n = nearest(as_float(bytes) * 100, GIB as nat);
    decimal(n / 100) + "."@ + decimal((n % 100) / 10) + decimal(n % 10)
}

fn unit_text(bytes: u64, unit: u64) -> (out: String)
    requires
        unit >= KIB,
    ensures
        out@ == tenths(bytes, unit),
{
    let f: u128 = to_float(bytes);
    let n: u128 = round(f * 10, unit as u128);
    proof {
        assert((f * 10) as int / unit as int <= (f * 10) as int / 1024) by (nonlinear_arith)
            requires
                unit >= 1024,
                f >= 0,
        ;
    }
    let n: u64 = n as u64;
    let mut out = number(n / 10);
    out.append(".");
    out.append(number(n % 10).as_str());
    out
}

/// Bytes in gibibytes, with one digit after the point.
pub fn gib_text(bytes: u64) -> (out: String)
    ensures
        out@ == gib_tenths(bytes),
{
    unit_text(bytes, GIB)
}

/// Bytes in gibibytes, with two digits after the point.
pub fn gib_text_fine(bytes: u64) -> (out: String)
    ensures
        out@ == gib_hundredths(bytes),
{
    let n: u64 = round_fine(to_float(bytes)) as u64;
    let mut out = number(n / 100);
    out.append(".");
    out.append(number((n % 100) / 10).as_str());
    out.append(number(n % 10).as_str());
    out
}

fn round_fine(f: u128) -> (n: u128)
    requires
        f <= u64::MAX + 4096,
    ensures
        n == nearest((f * 100) as nat, GIB as nat),
        n <= u64::MAX,
{
    let d: u128 = GIB as u128;
    let q: u128 = (f * 100) / d;
    let rest: u128 = (f * 100) % d;
    if 2 * rest > d || (2 * rest == d && q % 2 == 1) {
        q + 1
    } else {
        q
    }
}

/// A number of bytes in the largest unit that it fills.
pub open spec fn size_text(bytes: u64) -> Text {
    if bytes >= TIB {
        tenths(bytes, TIB) + " TiB"@
    } else if bytes >= GIB {
        tenths(bytes, GIB) + " GiB"@
    } else if bytes >= MIB {
        tenths(bytes, MIB) + " MiB"@
    } else if bytes >= KIB {
        tenths(bytes, KIB) + " KiB"@
    } else {
        decimal(bytes as nat) + " B"@
    }
}

/// A number of bytes in the largest unit that it fills.
pub fn format_bytes(bytes: u64) -> (out: String)
    ensures
        out@ == size_text(bytes),
{
    let mut out: String;
    if bytes >= TIB {
        out = unit_text(bytes, TIB);
        out.append(" TiB");
    } else if bytes >= GIB {
        out = unit_text(bytes, GIB);
        out.append(" GiB");
    } else if bytes >= MIB {
        out = unit_text(bytes, MIB);
        out.append(" MiB");
    } else if bytes >= KIB {
        out = unit_text(bytes, KIB);
        out.append(" KiB");
    } else {
        out = number(bytes);
        out.append(" B");
    }
    out
}

/// The size of a model as a list shows it; nothing where it is not known.
/// Below a hundredth of a gibibyte it is given in mebibytes.
pub open spec fn size_label(bytes: u64) -> Option<Text> {
    if bytes == 0 {
        None
    } else if bytes * 100 >= GIB {
        Some(gib_hundredths(bytes) + " GiB"@)
    } else {
        Some(tenths(bytes, MIB) + " MiB"@)
    }
}

/// The size of a model as a list shows it.
pub fn format_size_label(bytes: u64) -> (r: Option<String>)
    ensures
        crate::text::opt_text(r) == size_label(bytes),
{
    if bytes == 0 {
        return None;
    }
    if bytes as u128 * 100 >= GIB as u128 {
        let mut out = gib_text_fine(bytes);
        out.append(" GiB");
        Some(out)
    } else {
        let mut out = unit_text(bytes, MIB);
        out.append(" MiB");
        Some(out)
    }
}

/// A number of tokens, in thousands where it is whole ones of them.
pub open spec fn token_text(tokens: u32) -> Text {
    if tokens >= 1024 && tokens % 1024 == 0 {
        decimal((tokens / 1024) as nat) + "k"@
    } else {
        decimal(tokens as nat)
    }
}

/// A number of tokens, in thousands where it is whole ones of them.
pub fn format_tokens(tokens: u32) -> (out: String)
    ensures
        out@ == token_text(tokens),
{
    if tokens >= 1024 && tokens % 1024 == 0 {
        let mut out = number((tokens / 1024) as u64);
        out.append("k");
        out
    } else {
        number(tokens as u64)
    }
}

/// A time by its two largest units.
pub open spec fn duration_text(seconds: u64) -> Text {
    let hours = seconds / 3600;
    let minutes = (seconds % 3600) / 60;
    let rest = seconds % 60;
    if hours > 0 {
        decimal(hours as nat) + "h "@ + decimal(minutes as nat) + "m"@
    } else if minutes > 0 {
        decimal(minutes as nat) + "m "@ + decimal(rest as nat) + "s"@
    } else {
        decimal(rest as nat) + "s"@
    }
}

/// A time by its two largest units.
pub fn format_duration(seconds: u64) -> (out: String)
    ensures
        out@ == duration_text(seconds),
{
    let hours: u64 = seconds / 3600;
    let minutes: u64 = (seconds % 3600) / 60;
    let rest: u64 = seconds % 60;
    if hours > 0 {
        let mut out = number(hours);
        out.append("h ");
        out.append(number(minutes).as_str());
        out.append("m");
        out
    } else if minutes > 0 {
        let mut out = number(minutes);
        out.append("m ");
        out.append(number(rest).as_str());
        out.append("s");
        out
    } else {
        let mut out = number(rest);
        out.append("s");
        out
    }
}

/// A time that is left.
pub fn format_eta(seconds: u64) -> (out: String)
    ensures
        out@ == duration_text(seconds),
{
    if seconds < 60 {
        let mut out = number(seconds);
        out.append("s");
        out
    } else {
        format_duration(seconds)
    }
}

/// What is rounded differs from the quotient by a half at most.
pub proof fn law_nearest_is_near(n: nat, d: nat)
    requires
        d > 0,
    ensures
        2 * n <= 2 * (nearest(n, d) * d) + d,
        2 * (nearest(n, d) * d) <= 2 * n + d,
{
    let q = n / d;
    let r = n % d;
    assert(n == q * d + r && r < d) by (nonlinear_arith)
        requires
            d > 0,
            q == n / d,
            r == n % d,
    ;
    assert((q + 1) * d == q * d + d) by (nonlinear_arith);
}

/// So many whole units are told as that number, with a nought behind the point.
pub proof fn law_whole_sizes_are_told(k: u64)
    requires
        1 <= k < 1024,
    ensures
        size_text(k) == decimal(k as nat) + " B"@,
        size_text((k * 1024) as u64) == decimal(k as nat) + "."@ + decimal(0) + " KiB"@,
        size_text((k * 1_048_576) as u64) == decimal(k as nat) + "."@ + decimal(0) + " MiB"@,
        size_text((k * 1_073_741_824) as u64) == decimal(k as nat) + "."@ + decimal(0) + " GiB"@,
        size_text((k * 1_099_511_627_776) as u64) == decimal(k as nat) + "."@ + decimal(0)
            + " TiB"@,
        gib_hundredths((k * 1_073_741_824) as u64) == decimal(k as nat) + "."@ + decimal(0)
            + decimal(0),
{
    lemma_whole((k * 1024) as u64, k as nat, 1024);
    lemma_whole((k * 1_048_576) as u64, k as nat, 1_048_576);
    lemma_whole((k * 1_073_741_824) as u64, k as nat, 1_073_741_824);
    lemma_whole((k * 1_099_511_627_776) as u64, k as nat, 1_099_511_627_776);
}

proof fn lemma_whole(bytes: u64, k: nat, unit: nat)
    requires
        unit > 0,
        bytes == k * unit,
        bytes < EXACT_TO,
    ensures
        as_float(bytes) == bytes,
        nearest(as_float(bytes) * 10, unit) == 10 * k,
        nearest(as_float(bytes) * 100, unit) == 100 * k,
{
    lemma_float_step(bytes as nat);
    assert(bytes as nat / 1 == bytes && bytes as nat % 1 == 0);
    assert(as_float(bytes) == bytes);
    assert(k * unit * 10 == (10 * k) * unit) by (nonlinear_arith);
    assert(k * unit * 100 == (100 * k) * unit) by (nonlinear_arith);
    lemma_quotient(k * unit * 10, 10 * k, unit);
    lemma_quotient(k * unit * 100, 100 * k, unit);
}

proof fn lemma_quotient(n: nat, q: nat, d: nat)
    requires
        d > 0,
        n == q * d,
    ensures
        n / d == q,
        n % d == 0,
{
    assert(n / d == q && n % d == 0) by (nonlinear_arith)
        requires
            d > 0,
            n == q * d,
    ;
}

/// A time is told in hours and minutes, in minutes and seconds, or in seconds.
#[verifier::spinoff_prover]
#[verifier::rlimit(50)]
pub proof fn law_times_are_told(h: u64, m: u64, s: u64)
    requires
        h < 1_000_000,
        m < 60,
        s < 60,
    ensures
        h > 0 ==> duration_text((h * 3600 + m * 60 + s) as u64) == decimal(h as nat) + "h "@
            + decimal(m as nat) + "m"@,
        m > 0 ==> duration_text((m * 60 + s) as u64) == decimal(m as nat) + "m "@ + decimal(
            s as nat,
        ) + "s"@,
        duration_text(s) == decimal(s as nat) + "s"@,
{
    let a = h * 3600 + m * 60 + s;
    assert(a / 3600 == h && a % 3600 == m * 60 + s) by {
        vstd::arithmetic::div_mod::lemma_fundamental_div_mod_converse(
            a,
            3600,
            h as int,
            m * 60 + s,
        );
    }
    let b = m * 60 + s;
    assert(b / 60 == m && b % 60 == s) by {
        vstd::arithmetic::div_mod::lemma_fundamental_div_mod_converse(b, 60, m as int, s as int);
    }
    assert(b / 3600 == 0);
    assert(b % 3600 == b);
    assert(s / 3600 == 0 && s % 3600 == s && s / 60 == 0 && s % 60 == s);
}

/// So many times 1024 tokens are told with a `k`, any other number as it is.
pub proof fn law_tokens_are_told(k: u32)
    ensures
        1 <= k <= 1_000_000 ==> token_text((k * 1024) as u32) == decimal(k as nat) + "k"@,
        k % 1024 != 0 || k < 1024 ==> token_text(k) == decimal(k as nat),
{
}

} // verus!

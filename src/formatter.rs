//! Text forms of durations, counts, protocols, states and identities.
use vstd::prelude::*;
use vstd::string::StringExecFns;
use crate::models::not_available;
use crate::decimal::{as_double, double_value, fixed_text, pow2, pow2_of, push_fixed};
use crate::text::{dec_text, push_chars, push_decimal, push_str, slice_chars, str_chars, chars_are};

verus! {

/// A name for what `str::to_uppercase` returns: the Unicode upper-case
/// mapping of each character, which may change the length.
pub uninterp spec fn upper_of(s: Seq<char>) -> Seq<char>;

/// Relies on `str::to_uppercase`: the upper-case mapping of `s`, a function
/// of its characters alone; the empty string stays empty.
#[verifier::external_body]
fn uppercase(s: &str) -> (r: String)
    ensures
        r@ == upper_of(s@),
        s@.len() == 0 ==> r@.len() == 0,
{
    s.to_uppercase()
}

/// A duration in seconds as its two largest units: `45s`, `1m 30s`,
/// `2h 5m`, `3d 4h`.
pub open spec fn duration_text(seconds: nat) -> Seq<char> {
    if seconds < 60 {
        dec_text(seconds) + "s"@
    } else if seconds < 3600 {
        dec_text(seconds / 60) + "m "@ + dec_text(seconds % 60) + "s"@
    } else if seconds < 86400 {
        dec_text(seconds / 3600) + "h "@ + dec_text((seconds % 3600) / 60) + "m"@
    } else {
        dec_text(seconds / 86400) + "d "@ + dec_text((seconds % 86400) / 3600) + "h"@
    }
}

/// A count of connections in words.
pub open spec fn connection_count_text(count: nat) -> Seq<char> {
    if count == 0 {
        "No connections"@
    } else if count == 1 {
        "1 connection"@
    } else {
        dec_text(count) + " connections"@
    }
}

/// `s` cut to at most `max_len` characters, the cut marked by `...`.
pub open spec fn truncated(s: Seq<char>, max_len: nat) -> Seq<char> {
    if s.len() <= max_len {
        s
    } else if max_len <= 3 {
        "..."@
    } else {
        s.subrange(0, max_len - 3) + "..."@
    }
}

/// A program name, with `Unknown` for a missing one.
pub open spec fn program_text(program: Seq<char>) -> Seq<char> {
    if program.len() == 0 || program == not_available() { "Unknown"@ } else { program }
}

/// The first unit from `k` on, below `limit`, in which `v` is under 1024;
/// `limit` where there is none.
pub open spec fn unit_index(v: nat, k: nat, limit: nat) -> nat
    decreases limit - k,
{
    if k >= limit || v < pow2(10 * (k + 1)) {
        k
    } else {
        unit_index(v, k + 1, limit)
    }
}

/// The name of the unit of 1024 to the `k` bytes.
pub open spec fn unit_name(k: nat) -> Seq<char> {
    if k == 0 { "B"@ }
    else if k == 1 { "KB"@ }
    else if k == 2 { "MB"@ }
    else if k == 3 { "GB"@ }
    else if k == 4 { "TB"@ }
    else { "PB"@ }
}

/// A byte rate in the largest unit up to TB that keeps it under 1024
/// (TB beyond), one decimal, as `n as f64` prints it.
pub open spec fn rate_text(n: u64) -> Seq<char> {
    let v = as_double(n as nat);
    let k = unit_index(v, 0, 4);
    fixed_text(v, 10 * k, 1) + unit_name(k) + "/s"@
}

/// A byte rate in the largest unit up to PB that keeps it under 1024
/// (PB beyond), with `p` decimals.
pub open spec fn precise_rate_text(n: u64, p: nat) -> Seq<char> {
    let v = as_double(n as nat);
    let k = unit_index(v, 0, 5);
    fixed_text(v, 10 * k, p) + unit_name(k) + "/s"@
}

/// A byte total: bytes or KB with one decimal under a mebibyte, MB with two
/// decimals from there on.
pub open spec fn total_text(n: u64) -> Seq<char> {
    let v = as_double(n as nat);
    if v < 1024 {
        fixed_text(v, 0, 1) + " B"@
    } else if v < 1048576 {
        fixed_text(v, 10, 1) + " KB"@
    } else {
        fixed_text(v, 20, 2) + " MB"@
    }
}

fn unit_of(v: u128, limit: u32) -> (k: u32)
    requires
        limit <= 5,
    ensures
        k as nat == unit_index(v as nat, 0, limit as nat),
        k <= limit,
{
    let mut k: u32 = 0;
    while k < limit && v >= pow2_of(10 * (k + 1))
        invariant
            k <= limit <= 5,
            unit_index(v as nat, 0, limit as nat) == unit_index(v as nat, k as nat, limit as nat),
        decreases limit - k,
    {
        k += 1;
    }
    k
}

fn unit_str(k: u32) -> (r: &'static str)
    ensures
        r@ == unit_name(k as nat),
{
    if k == 0 { "B" }
    else if k == 1 { "KB" }
    else if k == 2 { "MB" }
    else if k == 3 { "GB" }
    else if k == 4 { "TB" }
    else { "PB" }
}

/// Formatting of values for display.
pub struct Formatter;

impl Formatter {
    /// A byte rate with one decimal in B, KB, MB, GB or TB per second.
    pub fn format_bytes(bytes_val: u64) -> (r: String)
        ensures
            r@ == rate_text(bytes_val),
    {
        let v = double_value(bytes_val);
        let k = unit_of(v, 4);
        let mut s = String::new();
        push_fixed(&mut s, v, 10 * k, 1);
        push_str(&mut s, unit_str(k));
        push_str(&mut s, "/s");
        assert(s@ =~= rate_text(bytes_val));
        s
    }

    /// A byte total in B, KB or MB.
    pub fn format_bytes_total(bytes_val: u64) -> (r: String)
        ensures
            r@ == total_text(bytes_val),
    {
        let v = double_value(bytes_val);
        let mut s = String::new();
        if v < 1024 {
            push_fixed(&mut s, v, 0, 1);
            push_str(&mut s, " B");
        } else if v < 1048576 {
            push_fixed(&mut s, v, 10, 1);
            push_str(&mut s, " KB");
        } else {
            push_fixed(&mut s, v, 20, 2);
            push_str(&mut s, " MB");
        }
        assert(s@ =~= total_text(bytes_val));
        s
    }

    /// A byte rate with `precision` decimals in B, KB, MB, GB, TB or PB per second.
    pub fn format_bytes_precise(bytes_val: u64, precision: usize) -> (r: String)
        ensures
            r@ == precise_rate_text(bytes_val, precision as nat),
    {
        let v = double_value(bytes_val);
        let k = unit_of(v, 5);
        let mut s = String::new();
        push_fixed(&mut s, v, 10 * k, precision);
        push_str(&mut s, unit_str(k));
        push_str(&mut s, "/s");
        assert(s@ =~= precise_rate_text(bytes_val, precision as nat));
        s
    }

    /// A duration in seconds as its two largest units.
    pub fn format_duration(seconds: u64) -> (r: String)
        ensures
            r@ == duration_text(seconds as nat),
    {
        let mut s = String::new();
        if seconds < 60 {
            push_decimal(&mut s, seconds);
            push_str(&mut s, "s");
        } else if seconds < 3600 {
            push_decimal(&mut s, seconds / 60);
            push_str(&mut s, "m ");
            push_decimal(&mut s, seconds % 60);
            push_str(&mut s, "s");
        } else if seconds < 86400 {
            push_decimal(&mut s, seconds / 3600);
            push_str(&mut s, "h ");
            push_decimal(&mut s, (seconds % 3600) / 60);
            push_str(&mut s, "m");
        } else {
            push_decimal(&mut s, seconds / 86400);
            push_str(&mut s, "d ");
            push_decimal(&mut s, (seconds % 86400) / 3600);
            push_str(&mut s, "h");
        }
        assert(s@ =~= duration_text(seconds as nat));
        s
    }

    /// A count of connections in words.
    pub fn format_connection_count(count: usize) -> (r: String)
        ensures
            r@ == connection_count_text(count as nat),
    {
        if count == 0 {
            String::from_str("No connections")
        } else if count == 1 {
            String::from_str("1 connection")
        } else {
            let mut s = String::new();
            push_decimal(&mut s, count as u64);
            push_str(&mut s, " connections");
            assert(s@ =~= connection_count_text(count as nat));
            s
        }
    }

    /// A protocol name in upper case.
    pub fn format_protocol(protocol: &str) -> (r: String)
        ensures
            r@ == upper_of(protocol@),
    {
        uppercase(protocol)
    }

    /// A state name as it is shown: unchanged.
    pub fn format_state(state: &str) -> (r: String)
        ensures
            r@ == state@,
    {
        String::from_str(state)
    }

    /// `s` cut to at most `max_len` characters, the cut marked by `...`.
    pub fn truncate_string(s: &str, max_len: usize) -> (r: String)
        ensures
            r@ == truncated(s@, max_len as nat),
    {
        let cs = str_chars(s);
        if cs.len() <= max_len {
            String::from_str(s)
        } else if max_len <= 3 {
            String::from_str("...")
        } else {
            let head = slice_chars(&cs, 0, max_len - 3);
            let mut r = String::new();
            push_chars(&mut r, &head);
            push_str(&mut r, "...");
            assert(r@ =~= truncated(s@, max_len as nat));
            r
        }
    }

    /// A pid as it is shown: unchanged, `N/A` included.
    pub fn format_pid(pid: &str) -> (r: String)
        ensures
            r@ == pid@,
    {
        String::from_str(pid)
    }

    /// A program name, with `Unknown` for a missing one.
    pub fn format_program(program: &str) -> (r: String)
        ensures
            r@ == program_text(program@),
    {
        let cs = str_chars(program);
        if cs.len() == 0 || chars_are(&cs, "N/A") {
            String::from_str("Unknown")
        } else {
            String::from_str(program)
        }
    }
}

/// A byte rate with one decimal in B, KB, MB, GB or TB per second.
pub fn format_bytes(bytes_val: u64) -> (r: String)
    ensures
        r@ == rate_text(bytes_val),
{
    Formatter::format_bytes(bytes_val)
}

/// A byte total in B, KB or MB.
pub fn format_bytes_total(bytes_val: u64) -> (r: String)
    ensures
        r@ == total_text(bytes_val),
{
    Formatter::format_bytes_total(bytes_val)
}

/// A duration in seconds as its two largest units.
pub fn format_duration(seconds: u64) -> (r: String)
    ensures
        r@ == duration_text(seconds as nat),
{
    Formatter::format_duration(seconds)
}

/// A count of connections in words.
pub fn format_connection_count(count: usize) -> (r: String)
    ensures
        r@ == connection_count_text(count as nat),
{
    Formatter::format_connection_count(count)
}

} // verus!

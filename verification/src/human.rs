//! Human-readable renderings of file sizes and durations.

use crate::text::{dec2_str, dec_str, u64_to_dec, u64_to_dec2};
use vstd::prelude::*;
use vstd::string::StringExecFns;

verus! {

/// The readable form of a byte count: scaled by factors of 1024 to the
/// first unit that brings it to 1024 or below, with the exact count in
/// parentheses whenever a scaling took place.
pub open spec fn readable_file_size_spec(n: nat) -> Seq<char> {
    if n <= 1024 {
        dec_str(n) + "B"@
    } else if n / 1024 <= 1024 {
        dec_str(n / 1024) + "KB"@ + "("@ + dec_str(n) + ")"@
    } else if n / 1024 / 1024 <= 1024 {
        dec_str(n / 1024 / 1024) + "MB"@ + "("@ + dec_str(n) + ")"@
    } else {
        dec_str(n / 1024 / 1024 / 1024) + "GB"@ + "("@ + dec_str(n) + ")"@
    }
}

/// Render a scaled size with its unit and the exact count in parentheses.
fn scaled_size(scaled: u32, unit: &str, exact: u32) -> (r: String)
    ensures
        r@ == dec_str(scaled as nat) + unit@ + "("@ + dec_str(exact as nat) + ")"@,
{
    let mut r = u64_to_dec(scaled as u64);
    r.append(unit);
    r.append("(");
    let exact_dec = u64_to_dec(exact as u64);
    r.append(exact_dec.as_str());
    r.append(")");
    r
}

/// Render a byte count in readable form.
pub fn readable_file_size(file_size: u32) -> (r: String)
    ensures
        r@ == readable_file_size_spec(file_size as nat),
{
    if file_size <= 1024 {
        let mut r = u64_to_dec(file_size as u64);
        r.append("B");
        r
    } else {
        let kb = file_size / 1024;
        if kb <= 1024 {
            scaled_size(kb, "KB", file_size)
        } else {
            let mb = kb / 1024;
            if mb <= 1024 {
                scaled_size(mb, "MB", file_size)
            } else {
                scaled_size(mb / 1024, "GB", file_size)
            }
        }
    }
}

/// The readable form of a duration in seconds: `minutes:seconds` below one
/// hour, `hours:minutes:seconds` from one hour on, every part zero-padded
/// to at least two digits.
pub open spec fn readable_duration_spec(n: nat) -> Seq<char> {
    let s = n % 60;
    let m = (n / 60) % 60;
    let h = (n / 60) / 60;
    if h > 0 {
        dec2_str(h) + ":"@ + dec2_str(m) + ":"@ + dec2_str(s)
    } else {
        dec2_str(m) + ":"@ + dec2_str(s)
    }
}

/// Render a duration in seconds in readable form.
pub fn readable_duration(duration: u32) -> (r: String)
    ensures
        r@ == readable_duration_spec(duration as nat),
{
    let s = duration % 60;
    let m = (duration / 60) % 60;
    let h = (duration / 60) / 60;
    let mut r = String::new();
    if h > 0 {
        let h_dec = u64_to_dec2(h as u64);
        r.append(h_dec.as_str());
        r.append(":");
    }
    let m_dec = u64_to_dec2(m as u64);
    r.append(m_dec.as_str());
    r.append(":");
    let s_dec = u64_to_dec2(s as u64);
    r.append(s_dec.as_str());
    r
}

} // verus!

//! HTB tuning math and rate formatting.
//!
//! Rates travel through the library as integers: either whole megabits per
//! second, or thousandths of a megabit per second ("milli-Mbps") where the
//! configuration allows fractional rates. `tc` rejects a rate of zero, so
//! every formatter rounds up to at least 1 Mbps.

use vstd::prelude::*;
use vstd::string::*;
use crate::config::Config;
use crate::text::{dec_string, spec_dec, spec_split_ws, split_spaces, string_eq_str};

verus! {

/// The SQM tokens for a leaf of `max_milli` milli-Mbps ceiling: the
/// template's tokens, with low-rate parameters appended when the ceiling is
/// under 10 Mbps — `rtt 300ms` for a `cake` template, `quantum 300` for an
/// `fq_codel` template.
pub open spec fn spec_sqm_fixup(max_milli: nat, sqm: Seq<char>) -> Seq<Seq<char>> {
    let toks = spec_split_ws(sqm);
    if max_milli < 10000 && toks.len() > 0 && toks[0] == "cake"@ {
        toks + seq!["rtt"@, "300ms"@]
    } else if max_milli < 10000 && toks.len() > 0 && toks[0] == "fq_codel"@ {
        toks + seq!["quantum"@, "300"@]
    } else {
        toks
    }
}

/// Tokenize the configured SQM template (split on spaces).
pub fn sqm_as_vec(config: &Config) -> (r: Vec<String>)
    ensures
        r.deep_view() == spec_split_ws(config.sqm@),
{
    split_spaces(config.sqm.as_str())
}

/// The SQM tokens to use for a leaf qdisc of the given ceiling (milli-Mbps),
/// with low-rate parameters appended as [`spec_sqm_fixup`] states.
pub fn sqm_rate_fixup(max_milli: u64, config: &Config) -> (r: Vec<String>)
    ensures
        r.deep_view() == spec_sqm_fixup(max_milli as nat, config.sqm@),
{
    let mut toks = sqm_as_vec(config);
    if max_milli < 10000 && toks.len() > 0 {
        let ghost base = toks.deep_view();
        if string_eq_str(&toks[0], "cake") {
            toks.push(String::from_str("rtt"));
            toks.push(String::from_str("300ms"));
            proof {
                assert(toks.deep_view() =~= base + seq!["rtt"@, "300ms"@]);
            }
        } else if string_eq_str(&toks[0], "fq_codel") {
            toks.push(String::from_str("quantum"));
            toks.push(String::from_str("300"));
            proof {
                assert(toks.deep_view() =~= base + seq!["quantum"@, "300"@]);
            }
        }
    }
    toks
}

/// The rate token for `n` whole Mbps: `<max(1, n)>mbit`.
pub open spec fn spec_rate(n: nat) -> Seq<char> {
    spec_dec(if n == 0 { 1nat } else { n }) + seq!['m', 'b', 'i', 't']
}

/// Milli-Mbps rounded to the nearest whole Mbps, halves rounding up.
pub open spec fn spec_milli_to_mbps(milli: nat) -> nat {
    milli / 1000 + if milli % 1000 >= 500 { 1nat } else { 0nat }
}

/// The `r2q` HTB tuning knob for a link of `mbps` capacity: the base value
/// 10, scaled up as `mbps * 5 / 8` once the link is fast enough, and capped
/// at 65535. The scaling keeps the quantum of the largest class
/// (`mbps * 125000 / r2q` bytes) at or below 200000 bytes wherever the cap
/// allows.
pub open spec fn spec_r2q(mbps: nat) -> nat {
    if mbps * 5 / 8 < 10 {
        10nat
    } else if mbps * 5 / 8 > 65535 {
        65535nat
    } else {
        mbps * 5 / 8
    }
}

/// Bytes credited per DRR round for a class of `mbps` ceiling under a given
/// `r2q`: the class rate in bytes per second divided by `r2q`, clamped to
/// `[1500, 200000]` (at least one MTU, and low enough to avoid `tc`
/// warnings).
pub open spec fn spec_quantum(mbps: nat, r2q: nat) -> nat
    recommends
        r2q >= 1,
{
    let raw = mbps * 125000 / r2q;
    if raw < 1500 {
        1500nat
    } else if raw > 200000 {
        200000nat
    } else {
        raw
    }
}

/// Format a whole-Mbps rate for `tc`: `"<N>mbit"` with `N = max(1, mbps)`.
pub fn format_rate_for_tc(mbps: u64) -> (r: String)
    ensures
        r@ == spec_rate(mbps as nat),
{
    proof {
        reveal_strlit("mbit");
    }
    let n: u64 = if mbps == 0 { 1 } else { mbps };
    let mut s = dec_string(n);
    s.append("mbit");
    proof {
        assert(s@ =~= spec_rate(mbps as nat));
    }
    s
}

/// Format a milli-Mbps rate for `tc`: round to the nearest whole Mbps
/// (halves up), then at least 1: `"<max(1, round(milli / 1000))>mbit"`.
pub fn format_rate_for_tc_milli(milli: u64) -> (r: String)
    ensures
        r@ == spec_rate(spec_milli_to_mbps(milli as nat)),
{
    let whole: u64 = milli / 1000;
    let rounded: u64 = if milli % 1000 >= 500 { whole + 1 } else { whole };
    format_rate_for_tc(rounded)
}

/// Compute the HTB `r2q` knob from the largest link capacity in Mbps.
pub fn r2q(mbps: u64) -> (r: u32)
    ensures
        r as nat == spec_r2q(mbps as nat),
{
    if mbps >= 104856 {
        proof {
            assert(mbps * 5 / 8 >= 65535) by (nonlinear_arith)
                requires
                    mbps >= 104856,
            ;
        }
        65535
    } else {
        let v: u64 = mbps * 5 / 8;
        if v < 10 { 10 } else { v as u32 }
    }
}

/// Render the quantum (in bytes) for a class of `mbps` ceiling as the
/// decimal token `tc` expects after the `quantum` keyword.
pub fn quantum(mbps: u64, r2q: u32) -> (r: String)
    requires
        r2q >= 1,
    ensures
        r@ == spec_dec(spec_quantum(mbps as nat, r2q as nat)),
{
    let raw: u128 = (mbps as u128) * 125000 / (r2q as u128);
    let clamped: u64 = if raw < 1500 {
        1500
    } else if raw > 200000 {
        200000
    } else {
        raw as u64
    };
    proof {
        assert(clamped as nat == spec_quantum(mbps as nat, r2q as nat));
    }
    dec_string(clamped)
}

} // verus!

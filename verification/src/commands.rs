//! The Bakery command model and its encoder: each command is translated
//! into the exact `tc` argument vectors (token lists) that realise it.
//!
//! The encoder is pure: the specification functions here pin every emitted
//! token as a function of the command, the configuration snapshot and the
//! execution mode alone.

use vstd::prelude::*;
use vstd::string::*;
use std::collections::HashSet;
use crate::config::{Config, LazyQueueMode};
use crate::handle::{TcHandle, spec_tc_handle};
use crate::queue_math::{
    quantum, r2q, spec_quantum, spec_r2q, spec_rate, spec_sqm_fixup, sqm_as_vec, sqm_rate_fixup,
    format_rate_for_tc, format_rate_for_tc_milli, spec_milli_to_mbps,
};
use crate::text::{dec_string, hex_string, spec_dec, spec_hex, spec_split_ws};

verus! {

/// Whether the encoder runs during a cold build of the whole tree or as a
/// live update to a running one.
#[derive(Debug, Clone, Copy, PartialEq, Eq, Structural)]
pub enum ExecutionMode {
    /// We're constructing the tree
    Builder,
    /// Live Update
    LiveUpdate,
}

/// List of commands that the Bakery system can handle.
///
/// All bandwidth fields are in thousandths of a Mbps ("milli-Mbps"), so
/// fractional subscriber rates keep three decimal places.
#[derive(Debug)]
pub enum BakeryCommands {
    /// Send this when circuits are seen by the throughput tracker
    OnCircuitActivity {
        /// All active circuit IDs
        circuit_ids: HashSet<i64>,
    },
    /// Periodic tick
    Tick,
    /// Change an existing site's HTB rates live without a rebuild.
    ChangeSiteSpeedLive {
        /// Unique identifier for the target site.
        site_hash: i64,
        /// New minimum (guaranteed) download rate in milli-Mbps.
        download_bandwidth_min: u64,
        /// New minimum (guaranteed) upload rate in milli-Mbps.
        upload_bandwidth_min: u64,
        /// New maximum (ceiling) download rate in milli-Mbps.
        download_bandwidth_max: u64,
        /// New maximum (ceiling) upload rate in milli-Mbps.
        upload_bandwidth_max: u64,
    },
    /// Begin a batch of changes; subsequent commands are queued until commit.
    StartBatch,
    /// Commit the current batch, diffing and applying queued changes.
    CommitBatch,
    /// Set up MQ roots and per-queue parents on one or both interfaces.
    MqSetup {
        /// Total number of MQ queues to create per interface.
        queues_available: usize,
        /// Offset applied to queue indices on the Internet-facing side
        /// when operating in on-a-stick configurations.
        stick_offset: usize,
    },
    /// Add or update a top-level site class pair under the given parents.
    AddSite {
        /// Unique identifier for the site.
        site_hash: i64,
        /// Parent class handle on the ISP-facing interface (downlink side).
        parent_class_id: TcHandle,
        /// Parent class handle on the Internet-facing interface (uplink side).
        up_parent_class_id: TcHandle,
        /// Minor class ID shared by uplink/downlink site classes.
        class_minor: u16,
        /// Minimum (guaranteed) download rate in milli-Mbps.
        download_bandwidth_min: u64,
        /// Minimum (guaranteed) upload rate in milli-Mbps.
        upload_bandwidth_min: u64,
        /// Maximum (ceiling) download rate in milli-Mbps.
        download_bandwidth_max: u64,
        /// Maximum (ceiling) upload rate in milli-Mbps.
        upload_bandwidth_max: u64,
    },
    /// Add or update a circuit beneath a site; may add SQM depending on mode.
    AddCircuit {
        /// Unique identifier for the circuit.
        circuit_hash: i64,
        /// Parent class handle on the ISP-facing interface (downlink side).
        parent_class_id: TcHandle,
        /// Parent class handle on the Internet-facing interface (uplink side).
        up_parent_class_id: TcHandle,
        /// Minor class ID used for both uplink and downlink circuit classes.
        class_minor: u16,
        /// Minimum (guaranteed) download rate in milli-Mbps.
        download_bandwidth_min: u64,
        /// Minimum (guaranteed) upload rate in milli-Mbps.
        upload_bandwidth_min: u64,
        /// Maximum (ceiling) download rate in milli-Mbps.
        download_bandwidth_max: u64,
        /// Maximum (ceiling) upload rate in milli-Mbps.
        upload_bandwidth_max: u64,
        /// Major class ID (downlink) used when attaching SQM/HTB.
        class_major: u16,
        /// Major class ID (uplink) used when attaching SQM/HTB.
        up_class_major: u16,
        /// Concatenated list of all IPs for this circuit.
        ip_addresses: String,
    },
    /// Change a specific HTB class rate on-the-fly; optionally dry-run.
    StormGuardAdjustment {
        /// If true, the executor logs the tc command instead of running it.
        dry_run: bool,
        /// Network interface name (e.g., `eth0`) containing the class.
        interface_name: String,
        /// Fully qualified class identifier (e.g., `1:2`).
        class_id: String,
        /// New class ceiling rate in Mbps (rate is set to one less).
        new_rate: u64,
    },
}

// ---------------------------------------------------------------------------
// Token shapes
// ---------------------------------------------------------------------------

/// `0x<hex>` — a bare classid or handle component.
pub open spec fn spec_tok_0x(n: nat) -> Seq<char> {
    seq!['0', 'x'] + spec_hex(n)
}

/// `7FFF:0x<hex>` — a queue slot under the MQ root.
pub open spec fn spec_tok_7fff(qi: nat) -> Seq<char> {
    seq!['7', 'F', 'F', 'F', ':', '0', 'x'] + spec_hex(qi)
}

/// `0x<hex>:` — a per-queue HTB qdisc root handle.
pub open spec fn spec_tok_q_root(qi: nat) -> Seq<char> {
    seq!['0', 'x'] + spec_hex(qi) + seq![':']
}

/// `0x<hex>:<child>` — a class under a per-queue HTB qdisc.
pub open spec fn spec_tok_q_child(qi: nat, child: nat) -> Seq<char> {
    spec_tok_q_root(qi) + spec_dec(child)
}

fn tok_0x(n: u64) -> (r: String)
    ensures
        r@ == spec_tok_0x(n as nat),
{
    proof {
        reveal_strlit("0x");
    }
    let mut s = String::from_str("0x");
    let h = hex_string(n);
    s.append(h.as_str());
    proof {
        assert(s@ =~= spec_tok_0x(n as nat));
    }
    s
}

fn tok_7fff(qi: u64) -> (r: String)
    ensures
        r@ == spec_tok_7fff(qi as nat),
{
    proof {
        reveal_strlit("7FFF:0x");
    }
    let mut s = String::from_str("7FFF:0x");
    let h = hex_string(qi);
    s.append(h.as_str());
    proof {
        assert(s@ =~= spec_tok_7fff(qi as nat));
    }
    s
}

fn tok_q_root(qi: u64) -> (r: String)
    ensures
        r@ == spec_tok_q_root(qi as nat),
{
    proof {
        reveal_strlit(":");
    }
    let mut s = tok_0x(qi);
    s.append(":");
    proof {
        assert(s@ =~= spec_tok_q_root(qi as nat));
    }
    s
}

fn tok_q_child(qi: u64, child: u64) -> (r: String)
    ensures
        r@ == spec_tok_q_child(qi as nat, child as nat),
{
    let mut s = tok_q_root(qi);
    let d = dec_string(child);
    s.append(d.as_str());
    proof {
        assert(s@ =~= spec_tok_q_child(qi as nat, child as nat));
    }
    s
}

// ---------------------------------------------------------------------------
// Single-command shapes
// ---------------------------------------------------------------------------

/// `qdisc del dev <iface> root`
pub open spec fn spec_qdisc_del_root(iface: Seq<char>) -> Seq<Seq<char>> {
    seq!["qdisc"@, "del"@, "dev"@, iface, "root"@]
}

/// `qdisc replace dev <iface> root handle 7FFF: mq`
pub open spec fn spec_mq_replace(iface: Seq<char>) -> Seq<Seq<char>> {
    seq!["qdisc"@, "replace"@, "dev"@, iface, "root"@, "handle"@, "7FFF:"@, "mq"@]
}

/// `qdisc add dev <iface> parent 7FFF:0x<q> handle 0x<q>: htb default 2`
pub open spec fn spec_htb_qdisc(iface: Seq<char>, qi: nat) -> Seq<Seq<char>> {
    seq![
        "qdisc"@, "add"@, "dev"@, iface, "parent"@, spec_tok_7fff(qi),
        "handle"@, spec_tok_q_root(qi), "htb"@, "default"@, "2"@,
    ]
}

/// `class add dev <iface> parent 0x<q>: classid 0x<q>:1 htb rate <cap>mbit
/// ceil <cap>mbit quantum <Q>`
pub open spec fn spec_main_class(iface: Seq<char>, qi: nat, cap_mbps: nat, r2q_v: nat) -> Seq<
    Seq<char>,
> {
    seq![
        "class"@, "add"@, "dev"@, iface, "parent"@, spec_tok_q_root(qi),
        "classid"@, spec_tok_q_child(qi, 1), "htb"@,
        "rate"@, spec_rate(cap_mbps), "ceil"@, spec_rate(cap_mbps),
        "quantum"@, spec_dec(spec_quantum(cap_mbps, r2q_v)),
    ]
}

/// `class add dev <iface> parent 0x<q>:1 classid 0x<q>:2 htb rate
/// <(cap-1)/4>mbit ceil <cap-1>mbit prio 5 quantum <Q>` — the default class
/// that catches unclassified traffic.
pub open spec fn spec_default_class(iface: Seq<char>, qi: nat, cap_mbps: nat, r2q_v: nat) -> Seq<
    Seq<char>,
> {
    let m1 = if cap_mbps >= 1 { (cap_mbps - 1) as nat } else { 0nat };
    seq![
        "class"@, "add"@, "dev"@, iface, "parent"@, spec_tok_q_child(qi, 1),
        "classid"@, spec_tok_q_child(qi, 2), "htb"@,
        "rate"@, spec_rate(m1 / 4), "ceil"@, spec_rate(m1),
        "prio"@, "5"@, "quantum"@, spec_dec(spec_quantum(cap_mbps, r2q_v)),
    ]
}

/// `qdisc add dev <iface> parent <parent> <sqm tokens…>`
pub open spec fn spec_sqm_add(iface: Seq<char>, parent: Seq<char>, toks: Seq<Seq<char>>) -> Seq<
    Seq<char>,
> {
    seq!["qdisc"@, "add"@, "dev"@, iface, "parent"@, parent] + toks
}

/// `qdisc replace dev <iface> parent 0x<major>:0x<minor> <sqm tokens…>`
pub open spec fn spec_sqm_replace(
    iface: Seq<char>,
    major: nat,
    minor: nat,
    toks: Seq<Seq<char>>,
) -> Seq<Seq<char>> {
    seq!["qdisc"@, "replace"@, "dev"@, iface, "parent"@, spec_tc_handle(major, minor)] + toks
}

/// `class replace dev <iface> parent <parent> classid 0x<minor> htb rate
/// <min>mbit ceil <max>mbit prio 3 quantum <Q>` — a site or circuit class.
/// `link_mbps` is the capacity of the interface's link, from which `r2q` is
/// derived; the quantum uses the class ceiling truncated to whole Mbps.
pub open spec fn spec_shaped_class(
    iface: Seq<char>,
    parent: Seq<char>,
    minor: nat,
    min_milli: nat,
    max_milli: nat,
    link_mbps: nat,
) -> Seq<Seq<char>> {
    seq![
        "class"@, "replace"@, "dev"@, iface, "parent"@, parent,
        "classid"@, spec_tok_0x(minor), "htb"@,
        "rate"@, spec_rate(spec_milli_to_mbps(min_milli)),
        "ceil"@, spec_rate(spec_milli_to_mbps(max_milli)),
        "prio"@, "3"@,
        "quantum"@, spec_dec(spec_quantum(max_milli / 1000, spec_r2q(link_mbps))),
    ]
}

/// `class change dev <iface> parent <parent> classid 0x<minor> htb rate
/// <min>mbit ceil <max>mbit prio 3 quantum <Q>` — the live-rate variant of
/// [`spec_shaped_class`]: same shape, `change` instead of `replace`.
pub open spec fn spec_shaped_class_change(
    iface: Seq<char>,
    parent: Seq<char>,
    minor: nat,
    min_milli: nat,
    max_milli: nat,
    link_mbps: nat,
) -> Seq<Seq<char>> {
    seq![
        "class"@, "change"@, "dev"@, iface, "parent"@, parent,
        "classid"@, spec_tok_0x(minor), "htb"@,
        "rate"@, spec_rate(spec_milli_to_mbps(min_milli)),
        "ceil"@, spec_rate(spec_milli_to_mbps(max_milli)),
        "prio"@, "3"@,
        "quantum"@, spec_dec(spec_quantum(max_milli / 1000, spec_r2q(link_mbps))),
    ]
}

/// `class change dev <iface> classid <id> htb rate <R-1>mbit ceil <R>mbit`
pub open spec fn spec_storm_guard(iface: Seq<char>, class_id: Seq<char>, new_rate: nat) -> Seq<
    Seq<char>,
> {
    let lowered = if new_rate >= 1 { (new_rate - 1) as nat } else { 0nat };
    seq![
        "class"@, "change"@, "dev"@, iface, "classid"@, class_id,
        "htb"@, "rate"@, spec_rate(lowered), "ceil"@, spec_rate(new_rate),
    ]
}

/// `qdisc del dev <iface> parent 0x<major>:0x<minor>`
pub open spec fn spec_qdisc_del_parent(iface: Seq<char>, major: nat, minor: nat) -> Seq<
    Seq<char>,
> {
    seq!["qdisc"@, "del"@, "dev"@, iface, "parent"@, spec_tc_handle(major, minor)]
}

/// `class del dev <iface> parent <parent> classid 0x<minor>`
pub open spec fn spec_class_del(iface: Seq<char>, parent: Seq<char>, minor: nat) -> Seq<
    Seq<char>,
> {
    seq!["class"@, "del"@, "dev"@, iface, "parent"@, parent, "classid"@, spec_tok_0x(minor)]
}

// ---------------------------------------------------------------------------
// Exec builders for the single-command shapes
// ---------------------------------------------------------------------------

fn append_tokens(v: &mut Vec<String>, toks: &Vec<String>)
    ensures
        final(v).deep_view() == old(v).deep_view() + toks.deep_view(),
{
    let mut i: usize = 0;
    while i < toks.len()
        invariant
            i <= toks.len(),
            v.deep_view() == old(v).deep_view() + toks.deep_view().take(i as int),
        decreases toks.len() - i,
    {
        let ghost pre = v.deep_view();
        v.push(toks[i].clone());
        i = i + 1;
        proof {
            assert(v.deep_view() =~= pre.push(toks.deep_view()[i - 1]));
            assert(v.deep_view() =~= old(v).deep_view() + toks.deep_view().take(i as int));
        }
    }
    proof {
        assert(toks.deep_view().take(toks.len() as int) =~= toks.deep_view());
    }
}

fn cmd_qdisc_del_root(iface: String) -> (r: Vec<String>)
    ensures
        r.deep_view() == spec_qdisc_del_root(iface@),
{
    let mut v: Vec<String> = Vec::new();
    v.push(String::from_str("qdisc"));
    v.push(String::from_str("del"));
    v.push(String::from_str("dev"));
    v.push(iface);
    v.push(String::from_str("root"));
    proof {
        assert(v.deep_view() =~= spec_qdisc_del_root(v@[3]@));
    }
    v
}

fn cmd_mq_replace(iface: String) -> (r: Vec<String>)
    ensures
        r.deep_view() == spec_mq_replace(iface@),
{
    let mut v: Vec<String> = Vec::new();
    v.push(String::from_str("qdisc"));
    v.push(String::from_str("replace"));
    v.push(String::from_str("dev"));
    v.push(iface);
    v.push(String::from_str("root"));
    v.push(String::from_str("handle"));
    v.push(String::from_str("7FFF:"));
    v.push(String::from_str("mq"));
    proof {
        assert(v.deep_view() =~= spec_mq_replace(v@[3]@));
    }
    v
}

fn cmd_htb_qdisc(iface: String, qi: u64) -> (r: Vec<String>)
    ensures
        r.deep_view() == spec_htb_qdisc(iface@, qi as nat),
{
    let mut v: Vec<String> = Vec::new();
    v.push(String::from_str("qdisc"));
    v.push(String::from_str("add"));
    v.push(String::from_str("dev"));
    v.push(iface);
    v.push(String::from_str("parent"));
    v.push(tok_7fff(qi));
    v.push(String::from_str("handle"));
    v.push(tok_q_root(qi));
    v.push(String::from_str("htb"));
    v.push(String::from_str("default"));
    v.push(String::from_str("2"));
    proof {
        assert(v.deep_view() =~= spec_htb_qdisc(v@[3]@, qi as nat));
    }
    v
}

fn cmd_main_class(iface: String, qi: u64, cap_mbps: u64, r2q_v: u32) -> (r: Vec<String>)
    requires
        r2q_v >= 1,
    ensures
        r.deep_view() == spec_main_class(iface@, qi as nat, cap_mbps as nat, r2q_v as nat),
{
    let mut v: Vec<String> = Vec::new();
    v.push(String::from_str("class"));
    v.push(String::from_str("add"));
    v.push(String::from_str("dev"));
    v.push(iface);
    v.push(String::from_str("parent"));
    v.push(tok_q_root(qi));
    v.push(String::from_str("classid"));
    v.push(tok_q_child(qi, 1));
    v.push(String::from_str("htb"));
    v.push(String::from_str("rate"));
    v.push(format_rate_for_tc(cap_mbps));
    v.push(String::from_str("ceil"));
    v.push(format_rate_for_tc(cap_mbps));
    v.push(String::from_str("quantum"));
    v.push(quantum(cap_mbps, r2q_v));
    proof {
        assert(v.deep_view() =~= spec_main_class(v@[3]@, qi as nat, cap_mbps as nat, r2q_v as nat));
    }
    v
}

fn cmd_default_class(iface: String, qi: u64, cap_mbps: u64, r2q_v: u32) -> (r: Vec<String>)
    requires
        r2q_v >= 1,
    ensures
        r.deep_view() == spec_default_class(iface@, qi as nat, cap_mbps as nat, r2q_v as nat),
{
    let m1: u64 = if cap_mbps >= 1 { cap_mbps - 1 } else { 0 };
    let mut v: Vec<String> = Vec::new();
    v.push(String::from_str("class"));
    v.push(String::from_str("add"));
    v.push(String::from_str("dev"));
    v.push(iface);
    v.push(String::from_str("parent"));
    v.push(tok_q_child(qi, 1));
    v.push(String::from_str("classid"));
    v.push(tok_q_child(qi, 2));
    v.push(String::from_str("htb"));
    v.push(String::from_str("rate"));
    v.push(format_rate_for_tc(m1 / 4));
    v.push(String::from_str("ceil"));
    v.push(format_rate_for_tc(m1));
    v.push(String::from_str("prio"));
    v.push(String::from_str("5"));
    v.push(String::from_str("quantum"));
    v.push(quantum(cap_mbps, r2q_v));
    proof {
        assert(v.deep_view() =~= spec_default_class(
            v@[3]@,
            qi as nat,
            cap_mbps as nat,
            r2q_v as nat,
        ));
    }
    v
}

fn cmd_sqm_add(iface: String, parent: String, toks: &Vec<String>) -> (r: Vec<String>)
    ensures
        r.deep_view() == spec_sqm_add(iface@, parent@, toks.deep_view()),
{
    let ghost iface_v = iface@;
    let ghost parent_v = parent@;
    let mut v: Vec<String> = Vec::new();
    v.push(String::from_str("qdisc"));
    v.push(String::from_str("add"));
    v.push(String::from_str("dev"));
    v.push(iface);
    v.push(String::from_str("parent"));
    v.push(parent);
    proof {
        assert(v.deep_view() =~= seq!["qdisc"@, "add"@, "dev"@, iface_v, "parent"@, parent_v]);
    }
    append_tokens(&mut v, toks);
    proof {
        assert(v.deep_view() =~= spec_sqm_add(iface_v, parent_v, toks.deep_view()));
    }
    v
}

fn cmd_sqm_replace(iface: String, major: u16, minor: u16, toks: &Vec<String>) -> (r: Vec<
    String,
>)
    ensures
        r.deep_view() == spec_sqm_replace(iface@, major as nat, minor as nat, toks.deep_view()),
{
    let ghost iface_v = iface@;
    let mut v: Vec<String> = Vec::new();
    v.push(String::from_str("qdisc"));
    v.push(String::from_str("replace"));
    v.push(String::from_str("dev"));
    v.push(iface);
    v.push(String::from_str("parent"));
    let h = TcHandle { major, minor };
    v.push(h.as_tc_string());
    proof {
        assert(v.deep_view() =~= seq![
            "qdisc"@, "replace"@, "dev"@, iface_v, "parent"@,
            spec_tc_handle(major as nat, minor as nat),
        ]);
    }
    append_tokens(&mut v, toks);
    proof {
        assert(v.deep_view() =~= spec_sqm_replace(
            iface_v,
            major as nat,
            minor as nat,
            toks.deep_view(),
        ));
    }
    v
}

fn cmd_shaped_class(
    iface: String,
    parent: String,
    minor: u16,
    min_milli: u64,
    max_milli: u64,
    link_mbps: u64,
) -> (r: Vec<String>)
    ensures
        r.deep_view() == spec_shaped_class(
            iface@,
            parent@,
            minor as nat,
            min_milli as nat,
            max_milli as nat,
            link_mbps as nat,
        ),
{
    let mut v: Vec<String> = Vec::new();
    v.push(String::from_str("class"));
    v.push(String::from_str("replace"));
    v.push(String::from_str("dev"));
    v.push(iface);
    v.push(String::from_str("parent"));
    v.push(parent);
    v.push(String::from_str("classid"));
    v.push(tok_0x(minor as u64));
    v.push(String::from_str("htb"));
    v.push(String::from_str("rate"));
    v.push(format_rate_for_tc_milli(min_milli));
    v.push(String::from_str("ceil"));
    v.push(format_rate_for_tc_milli(max_milli));
    v.push(String::from_str("prio"));
    v.push(String::from_str("3"));
    v.push(String::from_str("quantum"));
    v.push(quantum(max_milli / 1000, r2q(link_mbps)));
    proof {
        assert(v.deep_view() =~= spec_shaped_class(
            v@[3]@,
            v@[5]@,
            minor as nat,
            min_milli as nat,
            max_milli as nat,
            link_mbps as nat,
        ));
    }
    v
}

pub(crate) fn cmd_shaped_class_change(
    iface: String,
    parent: String,
    minor: u16,
    min_milli: u64,
    max_milli: u64,
    link_mbps: u64,
) -> (r: Vec<String>)
    ensures
        r.deep_view() == spec_shaped_class_change(
            iface@,
            parent@,
            minor as nat,
            min_milli as nat,
            max_milli as nat,
            link_mbps as nat,
        ),
{
    let mut v: Vec<String> = Vec::new();
    v.push(String::from_str("class"));
    v.push(String::from_str("change"));
    v.push(String::from_str("dev"));
    v.push(iface);
    v.push(String::from_str("parent"));
    v.push(parent);
    v.push(String::from_str("classid"));
    v.push(tok_0x(minor as u64));
    v.push(String::from_str("htb"));
    v.push(String::from_str("rate"));
    v.push(format_rate_for_tc_milli(min_milli));
    v.push(String::from_str("ceil"));
    v.push(format_rate_for_tc_milli(max_milli));
    v.push(String::from_str("prio"));
    v.push(String::from_str("3"));
    v.push(String::from_str("quantum"));
    v.push(quantum(max_milli / 1000, r2q(link_mbps)));
    proof {
        assert(v.deep_view() =~= spec_shaped_class_change(
            v@[3]@,
            v@[5]@,
            minor as nat,
            min_milli as nat,
            max_milli as nat,
            link_mbps as nat,
        ));
    }
    v
}

fn cmd_storm_guard(iface: String, class_id: String, new_rate: u64) -> (r: Vec<String>)
    ensures
        r.deep_view() == spec_storm_guard(iface@, class_id@, new_rate as nat),
{
    let lowered: u64 = if new_rate >= 1 { new_rate - 1 } else { 0 };
    let mut v: Vec<String> = Vec::new();
    v.push(String::from_str("class"));
    v.push(String::from_str("change"));
    v.push(String::from_str("dev"));
    v.push(iface);
    v.push(String::from_str("classid"));
    v.push(class_id);
    v.push(String::from_str("htb"));
    v.push(String::from_str("rate"));
    v.push(format_rate_for_tc(lowered));
    v.push(String::from_str("ceil"));
    v.push(format_rate_for_tc(new_rate));
    proof {
        assert(v.deep_view() =~= spec_storm_guard(v@[3]@, v@[5]@, new_rate as nat));
    }
    v
}

fn cmd_qdisc_del_parent(iface: String, major: u16, minor: u16) -> (r: Vec<String>)
    ensures
        r.deep_view() == spec_qdisc_del_parent(iface@, major as nat, minor as nat),
{
    let mut v: Vec<String> = Vec::new();
    v.push(String::from_str("qdisc"));
    v.push(String::from_str("del"));
    v.push(String::from_str("dev"));
    v.push(iface);
    v.push(String::from_str("parent"));
    let h = TcHandle { major, minor };
    v.push(h.as_tc_string());
    proof {
        assert(v.deep_view() =~= spec_qdisc_del_parent(v@[3]@, major as nat, minor as nat));
    }
    v
}

// ---------------------------------------------------------------------------
// Whole-command emissions
// ---------------------------------------------------------------------------

/// The five commands for one hardware queue slot `qi` on `iface`: the HTB
/// qdisc, the main class at the link capacity, its SQM leaf, the default
/// class, and its SQM leaf.
pub open spec fn spec_queue_block(
    iface: Seq<char>,
    qi: nat,
    cap_mbps: nat,
    r2q_v: nat,
    sqm: Seq<Seq<char>>,
) -> Seq<Seq<Seq<char>>> {
    seq![
        spec_htb_qdisc(iface, qi),
        spec_main_class(iface, qi, cap_mbps, r2q_v),
        spec_sqm_add(iface, spec_tok_q_child(qi, 1), sqm),
        spec_default_class(iface, qi, cap_mbps, r2q_v),
        spec_sqm_add(iface, spec_tok_q_child(qi, 2), sqm),
    ]
}

/// Queue blocks for slots `offset + 1` through `offset + count` on `iface`,
/// in ascending slot order.
pub open spec fn spec_queue_blocks(
    iface: Seq<char>,
    offset: nat,
    count: nat,
    cap_mbps: nat,
    r2q_v: nat,
    sqm: Seq<Seq<char>>,
) -> Seq<Seq<Seq<char>>>
    decreases count,
{
    if count == 0 {
        Seq::<Seq<Seq<char>>>::empty()
    } else {
        spec_queue_blocks(iface, offset, (count - 1) as nat, cap_mbps, r2q_v, sqm)
            + spec_queue_block(iface, offset + count, cap_mbps, r2q_v, sqm)
    }
}

/// The larger of the two configured link capacities, from which `r2q` is
/// derived for the MQ tree.
pub open spec fn spec_link_cap(cfg: Config) -> nat {
    if cfg.uplink_bandwidth_mbps >= cfg.downlink_bandwidth_mbps {
        cfg.uplink_bandwidth_mbps as nat
    } else {
        cfg.downlink_bandwidth_mbps as nat
    }
}

/// Everything MqSetup emits: root deletions (ISP always, Internet only off
/// a stick), the ISP MQ root and its queue blocks at the uplink capacity,
/// then — unless on a stick — the Internet MQ root, and the Internet-side
/// queue blocks at the downlink capacity with `stick` applied to the slot
/// indices.
pub open spec fn spec_mq_setup(cfg: Config, queues: nat, stick: nat) -> Seq<Seq<Seq<char>>> {
    let isp = cfg.isp_interface@;
    let inet = cfg.spec_internet_iface();
    let sqm = spec_split_ws(cfg.sqm@);
    let r2q_v = spec_r2q(spec_link_cap(cfg));
    let dels = if cfg.on_a_stick_mode {
        seq![spec_qdisc_del_root(isp)]
    } else {
        seq![spec_qdisc_del_root(isp), spec_qdisc_del_root(inet)]
    };
    let inet_root = if !cfg.on_a_stick_mode {
        seq![spec_mq_replace(inet)]
    } else {
        Seq::<Seq<Seq<char>>>::empty()
    };
    dels + seq![spec_mq_replace(isp)]
        + spec_queue_blocks(isp, 0, queues, cfg.uplink_bandwidth_mbps as nat, r2q_v, sqm)
        + inet_root
        + spec_queue_blocks(inet, stick, queues, cfg.downlink_bandwidth_mbps as nat, r2q_v, sqm)
}

/// The two site (or circuit HTB) classes: downlink on the ISP interface
/// under `parent`, uplink on the Internet interface under `up_parent`.
pub open spec fn spec_add_site(
    cfg: Config,
    parent: TcHandle,
    up_parent: TcHandle,
    minor: nat,
    dmin: nat,
    umin: nat,
    dmax: nat,
    umax: nat,
) -> Seq<Seq<Seq<char>>> {
    seq![
        spec_shaped_class(
            cfg.isp_interface@,
            spec_tc_handle(parent.major as nat, parent.minor as nat),
            minor,
            dmin,
            dmax,
            cfg.downlink_bandwidth_mbps as nat,
        ),
        spec_shaped_class(
            cfg.spec_internet_iface(),
            spec_tc_handle(up_parent.major as nat, up_parent.minor as nat),
            minor,
            umin,
            umax,
            cfg.uplink_bandwidth_mbps as nat,
        ),
    ]
}

/// What AddCircuit materialises, per execution mode and lazy mode:
/// `(do_htb, do_sqm)`, or `None` when the command emits nothing at all.
pub open spec fn spec_circuit_policy(mode: ExecutionMode, lazy: LazyQueueMode) -> Option<
    (bool, bool),
> {
    match mode {
        ExecutionMode::Builder => match lazy {
            LazyQueueMode::No => Some((true, true)),
            LazyQueueMode::Htb => Some((true, false)),
            LazyQueueMode::Full => None,
        },
        ExecutionMode::LiveUpdate => match lazy {
            LazyQueueMode::No => Some((false, false)),
            LazyQueueMode::Htb => Some((false, true)),
            LazyQueueMode::Full => Some((true, true)),
        },
    }
}

/// Everything AddCircuit emits: per direction an HTB class when the policy
/// materialises HTB, and an SQM leaf when the policy materialises SQM and
/// the box is not monitor-only. Downlink commands come first.
pub open spec fn spec_add_circuit(
    cfg: Config,
    mode: ExecutionMode,
    parent: TcHandle,
    up_parent: TcHandle,
    minor: nat,
    dmin: nat,
    umin: nat,
    dmax: nat,
    umax: nat,
    major: nat,
    up_major: nat,
) -> Option<Seq<Seq<Seq<char>>>> {
    match spec_circuit_policy(mode, cfg.spec_lazy()) {
        None => None,
        Some(p) => {
            let do_htb = p.0;
            let do_sqm = p.1 && !cfg.monitor_only;
            let empty = Seq::<Seq<Seq<char>>>::empty();
            Some(
                (if do_htb {
                    seq![
                        spec_shaped_class(
                            cfg.isp_interface@,
                            spec_tc_handle(parent.major as nat, parent.minor as nat),
                            minor,
                            dmin,
                            dmax,
                            cfg.downlink_bandwidth_mbps as nat,
                        ),
                    ]
                } else {
                    empty
                }) + (if do_sqm {
                    seq![
                        spec_sqm_replace(
                            cfg.isp_interface@,
                            major,
                            minor,
                            spec_sqm_fixup(dmax, cfg.sqm@),
                        ),
                    ]
                } else {
                    empty
                }) + (if do_htb {
                    seq![
                        spec_shaped_class(
                            cfg.spec_internet_iface(),
                            spec_tc_handle(up_parent.major as nat, up_parent.minor as nat),
                            minor,
                            umin,
                            umax,
                            cfg.uplink_bandwidth_mbps as nat,
                        ),
                    ]
                } else {
                    empty
                }) + (if do_sqm {
                    seq![
                        spec_sqm_replace(
                            cfg.spec_internet_iface(),
                            up_major,
                            minor,
                            spec_sqm_fixup(umax, cfg.sqm@),
                        ),
                    ]
                } else {
                    empty
                }),
            )
        },
    }
}

/// What pruning removes, per the `force` flag and lazy mode:
/// `(prune_htb, prune_sqm)`, or `None` when there is nothing to prune.
pub open spec fn spec_prune_policy(force: bool, lazy: LazyQueueMode) -> Option<(bool, bool)> {
    if force {
        Some((true, true))
    } else {
        match lazy {
            LazyQueueMode::No => None,
            LazyQueueMode::Htb => Some((false, true)),
            LazyQueueMode::Full => Some((true, true)),
        }
    }
}

/// Everything pruning a circuit emits: SQM qdisc deletions first (Internet
/// side then ISP side; the Internet one is skipped on a stick), then the
/// HTB class deletions (ISP side then Internet side).
pub open spec fn spec_prune_circuit(
    cfg: Config,
    force: bool,
    parent: TcHandle,
    up_parent: TcHandle,
    minor: nat,
    major: nat,
    up_major: nat,
) -> Option<Seq<Seq<Seq<char>>>> {
    match spec_prune_policy(force, cfg.spec_lazy()) {
        None => None,
        Some(p) => {
            let empty = Seq::<Seq<Seq<char>>>::empty();
            Some(
                (if p.1 {
                    (if !cfg.on_a_stick_mode {
                        seq![spec_qdisc_del_parent(cfg.spec_internet_iface(), up_major, minor)]
                    } else {
                        empty
                    }) + seq![spec_qdisc_del_parent(cfg.isp_interface@, major, minor)]
                } else {
                    empty
                }) + (if p.0 {
                    seq![
                        spec_class_del(
                            cfg.isp_interface@,
                            spec_tc_handle(parent.major as nat, parent.minor as nat),
                            minor,
                        ),
                        spec_class_del(
                            cfg.spec_internet_iface(),
                            spec_tc_handle(up_parent.major as nat, up_parent.minor as nat),
                            minor,
                        ),
                    ]
                } else {
                    empty
                }),
            )
        },
    }
}

/// The full encoder: every `tc` argument vector a command emits, or `None`
/// for commands that emit nothing (batch control, activity, ticks, live
/// site-speed changes — which need the stored topology — and circuits the
/// lazy policy suppresses).
pub open spec fn spec_to_commands(cmd: BakeryCommands, cfg: Config, mode: ExecutionMode) -> Option<
    Seq<Seq<Seq<char>>>,
> {
    match cmd {
        BakeryCommands::MqSetup { queues_available, stick_offset } => Some(
            spec_mq_setup(cfg, queues_available as nat, stick_offset as nat),
        ),
        BakeryCommands::AddSite {
            site_hash: _,
            parent_class_id,
            up_parent_class_id,
            class_minor,
            download_bandwidth_min,
            upload_bandwidth_min,
            download_bandwidth_max,
            upload_bandwidth_max,
        } => Some(
            spec_add_site(
                cfg,
                parent_class_id,
                up_parent_class_id,
                class_minor as nat,
                download_bandwidth_min as nat,
                upload_bandwidth_min as nat,
                download_bandwidth_max as nat,
                upload_bandwidth_max as nat,
            ),
        ),
        BakeryCommands::AddCircuit {
            circuit_hash: _,
            parent_class_id,
            up_parent_class_id,
            class_minor,
            download_bandwidth_min,
            upload_bandwidth_min,
            download_bandwidth_max,
            upload_bandwidth_max,
            class_major,
            up_class_major,
            ip_addresses: _,
        } => spec_add_circuit(
            cfg,
            mode,
            parent_class_id,
            up_parent_class_id,
            class_minor as nat,
            download_bandwidth_min as nat,
            upload_bandwidth_min as nat,
            download_bandwidth_max as nat,
            upload_bandwidth_max as nat,
            class_major as nat,
            up_class_major as nat,
        ),
        BakeryCommands::StormGuardAdjustment { dry_run: _, interface_name, class_id, new_rate } => Some(
            seq![spec_storm_guard(interface_name@, class_id@, new_rate as nat)],
        ),
        _ => None,
    }
}

/// What pruning a command emits: only circuits prune; everything else is
/// `None`.
pub open spec fn spec_to_prune(cmd: BakeryCommands, cfg: Config, force: bool) -> Option<
    Seq<Seq<Seq<char>>>,
> {
    match cmd {
        BakeryCommands::AddCircuit {
            parent_class_id,
            up_parent_class_id,
            class_minor,
            class_major,
            up_class_major,
            ..
        } => spec_prune_circuit(
            cfg,
            force,
            parent_class_id,
            up_parent_class_id,
            class_minor as nat,
            class_major as nat,
            up_class_major as nat,
        ),
        _ => None,
    }
}

/// Machine bound on MqSetup: the largest queue slot index must fit in a
/// `usize`.
pub open spec fn spec_mq_bounds(cmd: BakeryCommands) -> bool {
    match cmd {
        BakeryCommands::MqSetup { queues_available, stick_offset } => queues_available
            + stick_offset + 1 <= usize::MAX,
        _ => true,
    }
}

pub(crate) fn cmd_class_del(iface: String, parent: String, minor: u16) -> (r: Vec<String>)
    ensures
        r.deep_view() == spec_class_del(iface@, parent@, minor as nat),
{
    let mut v: Vec<String> = Vec::new();
    v.push(String::from_str("class"));
    v.push(String::from_str("del"));
    v.push(String::from_str("dev"));
    v.push(iface);
    v.push(String::from_str("parent"));
    v.push(parent);
    v.push(String::from_str("classid"));
    v.push(tok_0x(minor as u64));
    proof {
        assert(v.deep_view() =~= spec_class_del(v@[3]@, v@[5]@, minor as nat));
    }
    v
}

impl BakeryCommands {
    /// Translate this command into concrete `tc` argument vectors.
    ///
    /// Returns the argv arrays in execution order, or `None` when the
    /// command does not directly emit `tc` operations (batch control,
    /// activity, ticks, live site-speed changes) or when, given
    /// `execution_mode` and the lazy-queue configuration, nothing is to be
    /// materialised. [`spec_to_commands`] states every emitted token.
    pub fn to_commands(&self, config: &Config, execution_mode: ExecutionMode) -> (r: Option<
        Vec<Vec<String>>,
    >)
        requires
            spec_mq_bounds(*self),
        ensures
            r.deep_view() == spec_to_commands(*self, *config, execution_mode),
    {
        match self {
            BakeryCommands::MqSetup { queues_available, stick_offset } => Self::mq_setup(
                config,
                *queues_available,
                *stick_offset,
            ),
            BakeryCommands::AddSite {
                site_hash,
                parent_class_id,
                up_parent_class_id,
                class_minor,
                download_bandwidth_min,
                upload_bandwidth_min,
                download_bandwidth_max,
                upload_bandwidth_max,
            } => Self::add_site(
                config,
                *site_hash,
                *parent_class_id,
                *up_parent_class_id,
                *class_minor,
                *download_bandwidth_min,
                *upload_bandwidth_min,
                *download_bandwidth_max,
                *upload_bandwidth_max,
            ),
            BakeryCommands::AddCircuit {
                circuit_hash,
                parent_class_id,
                up_parent_class_id,
                class_minor,
                download_bandwidth_min,
                upload_bandwidth_min,
                download_bandwidth_max,
                upload_bandwidth_max,
                class_major,
                up_class_major,
                ip_addresses: _,
            } => Self::add_circuit(
                execution_mode,
                config,
                *circuit_hash,
                *parent_class_id,
                *up_parent_class_id,
                *class_minor,
                *download_bandwidth_min,
                *upload_bandwidth_min,
                *download_bandwidth_max,
                *upload_bandwidth_max,
                *class_major,
                *up_class_major,
            ),
            BakeryCommands::StormGuardAdjustment {
                dry_run: _,
                interface_name,
                class_id,
                new_rate,
            } => {
                let mut result: Vec<Vec<String>> = Vec::new();
                result.push(cmd_storm_guard(interface_name.clone(), class_id.clone(), *new_rate));
                proof {
                    assert(result.deep_view() =~= seq![
                        spec_storm_guard(interface_name@, class_id@, *new_rate as nat),
                    ]);
                }
                Some(result)
            },
            _ => None,
        }
    }

    fn mq_setup(config: &Config, queues_available: usize, stick_offset: usize) -> (r: Option<
        Vec<Vec<String>>,
    >)
        requires
            queues_available + stick_offset + 1 <= usize::MAX,
        ensures
            r.deep_view() == Some(
                spec_mq_setup(*config, queues_available as nat, stick_offset as nat),
            ),
    {
        let ghost cfg = *config;
        let ghost isp = cfg.isp_interface@;
        let ghost inet = cfg.spec_internet_iface();
        let ghost sqm_g = spec_split_ws(cfg.sqm@);

        let mut result: Vec<Vec<String>> = Vec::new();
        if config.on_a_stick_mode {
            // Clear just the MQ on the ISP-facing interface
            result.push(cmd_qdisc_del_root(config.isp_iface()));
        } else {
            result.push(cmd_qdisc_del_root(config.isp_iface()));
            result.push(cmd_qdisc_del_root(config.internet_iface()));
        }
        let ghost dels = result.deep_view();
        proof {
            assert(dels =~= if cfg.on_a_stick_mode {
                seq![spec_qdisc_del_root(isp)]
            } else {
                seq![spec_qdisc_del_root(isp), spec_qdisc_del_root(inet)]
            });
        }

        let sqm_strings = sqm_as_vec(config);
        let cap: u64 = if config.uplink_bandwidth_mbps >= config.downlink_bandwidth_mbps {
            config.uplink_bandwidth_mbps
        } else {
            config.downlink_bandwidth_mbps
        };
        let r2q_v = r2q(cap);

        result.push(cmd_mq_replace(config.isp_iface()));
        let ghost head1 = dels + seq![spec_mq_replace(isp)];
        proof {
            assert(result.deep_view() =~= head1);
        }

        let up: u64 = config.uplink_bandwidth_mbps;
        let mut queue: usize = 0;
        while queue < queues_available
            invariant
                queue <= queues_available,
                queues_available + stick_offset + 1 <= usize::MAX,
                r2q_v as nat == spec_r2q(spec_link_cap(cfg)),
                r2q_v >= 1,
                up == cfg.uplink_bandwidth_mbps,
                cfg == *config,
                isp == cfg.isp_interface@,
                sqm_strings.deep_view() == sqm_g,
                result.deep_view() == head1 + spec_queue_blocks(
                    isp,
                    0,
                    queue as nat,
                    up as nat,
                    r2q_v as nat,
                    sqm_g,
                ),
            decreases queues_available - queue,
        {
            let qi: u64 = (queue as u64) + 1;
            let ghost pre = result.deep_view();
            result.push(cmd_htb_qdisc(config.isp_iface(), qi));
            result.push(cmd_main_class(config.isp_iface(), qi, up, r2q_v));
            result.push(cmd_sqm_add(config.isp_iface(), tok_q_child(qi, 1), &sqm_strings));
            result.push(cmd_default_class(config.isp_iface(), qi, up, r2q_v));
            result.push(cmd_sqm_add(config.isp_iface(), tok_q_child(qi, 2), &sqm_strings));
            queue = queue + 1;
            proof {
                assert(result.deep_view() =~= pre + spec_queue_block(
                    isp,
                    qi as nat,
                    up as nat,
                    r2q_v as nat,
                    sqm_g,
                ));
                assert(result.deep_view() =~= head1 + spec_queue_blocks(
                    isp,
                    0,
                    queue as nat,
                    up as nat,
                    r2q_v as nat,
                    sqm_g,
                ));
            }
        }
        let ghost isp_blocks = spec_queue_blocks(
            isp,
            0,
            queues_available as nat,
            up as nat,
            r2q_v as nat,
            sqm_g,
        );

        if !config.on_a_stick_mode {
            result.push(cmd_mq_replace(config.internet_iface()));
        }
        let ghost inet_root = if !cfg.on_a_stick_mode {
            seq![spec_mq_replace(inet)]
        } else {
            Seq::<Seq<Seq<char>>>::empty()
        };
        let ghost head2 = head1 + isp_blocks + inet_root;
        proof {
            assert(result.deep_view() =~= head2);
        }

        let down: u64 = config.downlink_bandwidth_mbps;
        let mut queue: usize = 0;
        while queue < queues_available
            invariant
                queue <= queues_available,
                queues_available + stick_offset + 1 <= usize::MAX,
                r2q_v as nat == spec_r2q(spec_link_cap(cfg)),
                r2q_v >= 1,
                down == cfg.downlink_bandwidth_mbps,
                cfg == *config,
                inet == cfg.spec_internet_iface(),
                sqm_strings.deep_view() == sqm_g,
                result.deep_view() == head2 + spec_queue_blocks(
                    inet,
                    stick_offset as nat,
                    queue as nat,
                    down as nat,
                    r2q_v as nat,
                    sqm_g,
                ),
            decreases queues_available - queue,
        {
            let qi: u64 = (queue as u64) + (stick_offset as u64) + 1;
            let ghost pre = result.deep_view();
            result.push(cmd_htb_qdisc(config.internet_iface(), qi));
            result.push(cmd_main_class(config.internet_iface(), qi, down, r2q_v));
            result.push(cmd_sqm_add(config.internet_iface(), tok_q_child(qi, 1), &sqm_strings));
            result.push(cmd_default_class(config.internet_iface(), qi, down, r2q_v));
            result.push(cmd_sqm_add(config.internet_iface(), tok_q_child(qi, 2), &sqm_strings));
            queue = queue + 1;
            proof {
                assert(result.deep_view() =~= pre + spec_queue_block(
                    inet,
                    qi as nat,
                    down as nat,
                    r2q_v as nat,
                    sqm_g,
                ));
                assert(result.deep_view() =~= head2 + spec_queue_blocks(
                    inet,
                    stick_offset as nat,
                    queue as nat,
                    down as nat,
                    r2q_v as nat,
                    sqm_g,
                ));
            }
        }
        proof {
            assert(result.deep_view() =~= spec_mq_setup(
                cfg,
                queues_available as nat,
                stick_offset as nat,
            ));
        }
        Some(result)
    }

    fn add_site(
        config: &Config,
        _site_hash: i64,
        parent_class_id: TcHandle,
        up_parent_class_id: TcHandle,
        class_minor: u16,
        download_bandwidth_min: u64,
        upload_bandwidth_min: u64,
        download_bandwidth_max: u64,
        upload_bandwidth_max: u64,
    ) -> (r: Option<Vec<Vec<String>>>)
        ensures
            r.deep_view() == Some(
                spec_add_site(
                    *config,
                    parent_class_id,
                    up_parent_class_id,
                    class_minor as nat,
                    download_bandwidth_min as nat,
                    upload_bandwidth_min as nat,
                    download_bandwidth_max as nat,
                    upload_bandwidth_max as nat,
                ),
            ),
    {
        let mut result: Vec<Vec<String>> = Vec::new();
        result.push(
            cmd_shaped_class(
                config.isp_iface(),
                parent_class_id.as_tc_string(),
                class_minor,
                download_bandwidth_min,
                download_bandwidth_max,
                config.downlink_bandwidth_mbps,
            ),
        );
        result.push(
            cmd_shaped_class(
                config.internet_iface(),
                up_parent_class_id.as_tc_string(),
                class_minor,
                upload_bandwidth_min,
                upload_bandwidth_max,
                config.uplink_bandwidth_mbps,
            ),
        );
        proof {
            assert(result.deep_view() =~= spec_add_site(
                *config,
                parent_class_id,
                up_parent_class_id,
                class_minor as nat,
                download_bandwidth_min as nat,
                upload_bandwidth_min as nat,
                download_bandwidth_max as nat,
                upload_bandwidth_max as nat,
            ));
        }
        Some(result)
    }

    fn add_circuit(
        execution_mode: ExecutionMode,
        config: &Config,
        _circuit_hash: i64,
        parent_class_id: TcHandle,
        up_parent_class_id: TcHandle,
        class_minor: u16,
        download_bandwidth_min: u64,
        upload_bandwidth_min: u64,
        download_bandwidth_max: u64,
        upload_bandwidth_max: u64,
        class_major: u16,
        up_class_major: u16,
    ) -> (r: Option<Vec<Vec<String>>>)
        ensures
            r.deep_view() == spec_add_circuit(
                *config,
                execution_mode,
                parent_class_id,
                up_parent_class_id,
                class_minor as nat,
                download_bandwidth_min as nat,
                upload_bandwidth_min as nat,
                download_bandwidth_max as nat,
                upload_bandwidth_max as nat,
                class_major as nat,
                up_class_major as nat,
            ),
    {
        let lazy = config.lazy();
        let policy: Option<(bool, bool)> = match execution_mode {
            ExecutionMode::Builder => match lazy {
                LazyQueueMode::No => Some((true, true)),
                LazyQueueMode::Htb => Some((true, false)),
                LazyQueueMode::Full => None,
            },
            ExecutionMode::LiveUpdate => match lazy {
                LazyQueueMode::No => Some((false, false)),
                LazyQueueMode::Htb => Some((false, true)),
                LazyQueueMode::Full => Some((true, true)),
            },
        };
        proof {
            assert(policy == spec_circuit_policy(execution_mode, config.spec_lazy()));
        }
        match policy {
            None => None,
            Some((do_htb, do_sqm_policy)) => {
                let do_sqm = do_sqm_policy && !config.monitor_only;
                let ghost empty = Seq::<Seq<Seq<char>>>::empty();
                let ghost g1 = if do_htb {
                    seq![
                        spec_shaped_class(
                            config.isp_interface@,
                            spec_tc_handle(
                                parent_class_id.major as nat,
                                parent_class_id.minor as nat,
                            ),
                            class_minor as nat,
                            download_bandwidth_min as nat,
                            download_bandwidth_max as nat,
                            config.downlink_bandwidth_mbps as nat,
                        ),
                    ]
                } else {
                    empty
                };
                let ghost g2 = if do_sqm {
                    seq![
                        spec_sqm_replace(
                            config.isp_interface@,
                            class_major as nat,
                            class_minor as nat,
                            spec_sqm_fixup(download_bandwidth_max as nat, config.sqm@),
                        ),
                    ]
                } else {
                    empty
                };
                let ghost g3 = if do_htb {
                    seq![
                        spec_shaped_class(
                            config.spec_internet_iface(),
                            spec_tc_handle(
                                up_parent_class_id.major as nat,
                                up_parent_class_id.minor as nat,
                            ),
                            class_minor as nat,
                            upload_bandwidth_min as nat,
                            upload_bandwidth_max as nat,
                            config.uplink_bandwidth_mbps as nat,
                        ),
                    ]
                } else {
                    empty
                };
                let ghost g4 = if do_sqm {
                    seq![
                        spec_sqm_replace(
                            config.spec_internet_iface(),
                            up_class_major as nat,
                            class_minor as nat,
                            spec_sqm_fixup(upload_bandwidth_max as nat, config.sqm@),
                        ),
                    ]
                } else {
                    empty
                };
                let mut result: Vec<Vec<String>> = Vec::new();
                if do_htb {
                    result.push(
                        cmd_shaped_class(
                            config.isp_iface(),
                            parent_class_id.as_tc_string(),
                            class_minor,
                            download_bandwidth_min,
                            download_bandwidth_max,
                            config.downlink_bandwidth_mbps,
                        ),
                    );
                }
                if do_sqm {
                    let toks = sqm_rate_fixup(download_bandwidth_max, config);
                    result.push(
                        cmd_sqm_replace(config.isp_iface(), class_major, class_minor, &toks),
                    );
                }
                proof {
                    assert(result.deep_view() =~= g1 + g2);
                }
                if do_htb {
                    result.push(
                        cmd_shaped_class(
                            config.internet_iface(),
                            up_parent_class_id.as_tc_string(),
                            class_minor,
                            upload_bandwidth_min,
                            upload_bandwidth_max,
                            config.uplink_bandwidth_mbps,
                        ),
                    );
                }
                if do_sqm {
                    let toks = sqm_rate_fixup(upload_bandwidth_max, config);
                    result.push(
                        cmd_sqm_replace(
                            config.internet_iface(),
                            up_class_major,
                            class_minor,
                            &toks,
                        ),
                    );
                }
                proof {
                    assert(result.deep_view() =~= (g1 + g2) + g3 + g4);
                    assert(result.deep_view() =~= g1 + g2 + g3 + g4);
                }
                Some(result)
            },
        }
    }

    /// Translate this circuit definition into the `tc` deletions that prune
    /// it: SQM qdisc deletions, then HTB class deletions, as `force` and
    /// the lazy-queue mode dictate. Only `AddCircuit` prunes; any other
    /// command returns `None`. [`spec_to_prune`] states every emitted token.
    pub fn to_prune(&self, config: &Config, force: bool) -> (r: Option<Vec<Vec<String>>>)
        ensures
            r.deep_view() == spec_to_prune(*self, *config, force),
    {
        match self {
            BakeryCommands::AddCircuit {
                parent_class_id,
                up_parent_class_id,
                class_minor,
                class_major,
                up_class_major,
                ..
            } => {
                let lazy = config.lazy();
                let policy: Option<(bool, bool)> = if force {
                    Some((true, true))
                } else {
                    match lazy {
                        LazyQueueMode::No => None,
                        LazyQueueMode::Htb => Some((false, true)),
                        LazyQueueMode::Full => Some((true, true)),
                    }
                };
                proof {
                    assert(policy == spec_prune_policy(force, config.spec_lazy()));
                }
                match policy {
                    None => None,
                    Some((prune_htb, prune_sqm)) => {
                        let ghost empty = Seq::<Seq<Seq<char>>>::empty();
                        let ghost g_sqm = if prune_sqm {
                            (if !config.on_a_stick_mode {
                                seq![
                                    spec_qdisc_del_parent(
                                        config.spec_internet_iface(),
                                        *up_class_major as nat,
                                        *class_minor as nat,
                                    ),
                                ]
                            } else {
                                empty
                            }) + seq![
                                spec_qdisc_del_parent(
                                    config.isp_interface@,
                                    *class_major as nat,
                                    *class_minor as nat,
                                ),
                            ]
                        } else {
                            empty
                        };
                        let mut result: Vec<Vec<String>> = Vec::new();
                        if prune_sqm {
                            // Prune the SQM qdisc
                            if !config.on_a_stick_mode {
                                result.push(
                                    cmd_qdisc_del_parent(
                                        config.internet_iface(),
                                        *up_class_major,
                                        *class_minor,
                                    ),
                                );
                            }
                            result.push(
                                cmd_qdisc_del_parent(
                                    config.isp_iface(),
                                    *class_major,
                                    *class_minor,
                                ),
                            );
                        }
                        let ghost g_htb = if prune_htb {
                            seq![
                                spec_class_del(
                                    config.isp_interface@,
                                    spec_tc_handle(
                                        parent_class_id.major as nat,
                                        parent_class_id.minor as nat,
                                    ),
                                    *class_minor as nat,
                                ),
                                spec_class_del(
                                    config.spec_internet_iface(),
                                    spec_tc_handle(
                                        up_parent_class_id.major as nat,
                                        up_parent_class_id.minor as nat,
                                    ),
                                    *class_minor as nat,
                                ),
                            ]
                        } else {
                            empty
                        };
                        proof {
                            assert(result.deep_view() =~= g_sqm);
                        }
                        if prune_htb {
                            // Prune the HTB class
                            result.push(
                                cmd_class_del(
                                    config.isp_iface(),
                                    parent_class_id.as_tc_string(),
                                    *class_minor,
                                ),
                            );
                            result.push(
                                cmd_class_del(
                                    config.internet_iface(),
                                    up_parent_class_id.as_tc_string(),
                                    *class_minor,
                                ),
                            );
                        }
                        proof {
                            assert(result.deep_view() =~= g_sqm + g_htb);
                        }
                        Some(result)
                    },
                }
            },
            _ => None,
        }
    }
}

// ---------------------------------------------------------------------------
// Laws
// ---------------------------------------------------------------------------

/// The encoder is a pure function: what a command emits is fully determined
/// by the command, the configuration snapshot and the execution mode, so
/// two encodings of the same inputs agree.
pub proof fn lemma_encoder_deterministic(
    cmd: BakeryCommands,
    cfg: Config,
    mode: ExecutionMode,
    r1: Option<Seq<Seq<Seq<char>>>>,
    r2: Option<Seq<Seq<Seq<char>>>>,
)
    requires
        r1 == spec_to_commands(cmd, cfg, mode),
        r2 == spec_to_commands(cmd, cfg, mode),
    ensures
        r1 == r2,
{
}

/// The lazy materialisation table, cell by cell: what AddCircuit
/// materialises per execution mode and lazy mode, and what pruning removes
/// per `force` flag and lazy mode.
pub proof fn lemma_lazy_policy_table()
    ensures
        spec_circuit_policy(ExecutionMode::Builder, LazyQueueMode::No) == Some((true, true)),
        spec_circuit_policy(ExecutionMode::Builder, LazyQueueMode::Htb) == Some((true, false)),
        spec_circuit_policy(ExecutionMode::Builder, LazyQueueMode::Full) is None,
        spec_circuit_policy(ExecutionMode::LiveUpdate, LazyQueueMode::No) == Some((false, false)),
        spec_circuit_policy(ExecutionMode::LiveUpdate, LazyQueueMode::Htb) == Some((false, true)),
        spec_circuit_policy(ExecutionMode::LiveUpdate, LazyQueueMode::Full) == Some((true, true)),
        forall|lazy: LazyQueueMode| spec_prune_policy(true, lazy) == Some((true, true)),
        spec_prune_policy(false, LazyQueueMode::No) is None,
        spec_prune_policy(false, LazyQueueMode::Htb) == Some((false, true)),
        spec_prune_policy(false, LazyQueueMode::Full) == Some((true, true)),
{
}

/// The encoder follows the lazy policy exactly: AddCircuit emits nothing
/// precisely when the policy suppresses the command, and otherwise emits
/// two HTB classes when the policy materialises HTB and two SQM leaves when
/// the policy materialises SQM on a box that is not monitor-only.
pub proof fn lemma_circuit_emission_pattern(
    cfg: Config,
    mode: ExecutionMode,
    parent: TcHandle,
    up_parent: TcHandle,
    minor: nat,
    dmin: nat,
    umin: nat,
    dmax: nat,
    umax: nat,
    major: nat,
    up_major: nat,
)
    ensures
        ({
            let r = spec_add_circuit(
                cfg,
                mode,
                parent,
                up_parent,
                minor,
                dmin,
                umin,
                dmax,
                umax,
                major,
                up_major,
            );
            match spec_circuit_policy(mode, cfg.spec_lazy()) {
                None => r is None,
                Some(p) => r matches Some(cmds) && cmds.len() == (if p.0 {
                    2int
                } else {
                    0int
                }) + (if p.1 && !cfg.monitor_only {
                    2int
                } else {
                    0int
                }),
            }
        }),
{
}

/// Pruning with `force` undoes exactly what a cold build with lazy
/// disabled created, one deletion per created object, qdisc deletions
/// before class deletions: the build emits the downlink HTB class, its SQM
/// leaf, the uplink HTB class, and its SQM leaf; the prune deletes the
/// uplink SQM leaf, the downlink SQM leaf, the downlink HTB class, and the
/// uplink HTB class — the same four interface/handle targets. On-a-stick
/// deployments are excluded: there the prune skips the uplink SQM leaf.
pub proof fn lemma_prune_inverts_build(
    cfg: Config,
    parent: TcHandle,
    up_parent: TcHandle,
    minor: nat,
    dmin: nat,
    umin: nat,
    dmax: nat,
    umax: nat,
    major: nat,
    up_major: nat,
)
    requires
        !cfg.on_a_stick_mode,
        !cfg.monitor_only,
        cfg.spec_lazy() == LazyQueueMode::No,
    ensures
        spec_add_circuit(
            cfg,
            ExecutionMode::Builder,
            parent,
            up_parent,
            minor,
            dmin,
            umin,
            dmax,
            umax,
            major,
            up_major,
        ) == Some(
            seq![
                spec_shaped_class(
                    cfg.isp_interface@,
                    spec_tc_handle(parent.major as nat, parent.minor as nat),
                    minor,
                    dmin,
                    dmax,
                    cfg.downlink_bandwidth_mbps as nat,
                ),
                spec_sqm_replace(
                    cfg.isp_interface@,
                    major,
                    minor,
                    spec_sqm_fixup(dmax, cfg.sqm@),
                ),
                spec_shaped_class(
                    cfg.internet_interface@,
                    spec_tc_handle(up_parent.major as nat, up_parent.minor as nat),
                    minor,
                    umin,
                    umax,
                    cfg.uplink_bandwidth_mbps as nat,
                ),
                spec_sqm_replace(
                    cfg.internet_interface@,
                    up_major,
                    minor,
                    spec_sqm_fixup(umax, cfg.sqm@),
                ),
            ],
        ),
        spec_prune_circuit(cfg, true, parent, up_parent, minor, major, up_major) == Some(
            seq![
                spec_qdisc_del_parent(cfg.internet_interface@, up_major, minor),
                spec_qdisc_del_parent(cfg.isp_interface@, major, minor),
                spec_class_del(
                    cfg.isp_interface@,
                    spec_tc_handle(parent.major as nat, parent.minor as nat),
                    minor,
                ),
                spec_class_del(
                    cfg.internet_interface@,
                    spec_tc_handle(up_parent.major as nat, up_parent.minor as nat),
                    minor,
                ),
            ],
        ),
{
    let built = spec_add_circuit(
        cfg,
        ExecutionMode::Builder,
        parent,
        up_parent,
        minor,
        dmin,
        umin,
        dmax,
        umax,
        major,
        up_major,
    );
    let pruned = spec_prune_circuit(cfg, true, parent, up_parent, minor, major, up_major);
    assert(built matches Some(b) && b =~= seq![
        spec_shaped_class(
            cfg.isp_interface@,
            spec_tc_handle(parent.major as nat, parent.minor as nat),
            minor,
            dmin,
            dmax,
            cfg.downlink_bandwidth_mbps as nat,
        ),
        spec_sqm_replace(cfg.isp_interface@, major, minor, spec_sqm_fixup(dmax, cfg.sqm@)),
        spec_shaped_class(
            cfg.internet_interface@,
            spec_tc_handle(up_parent.major as nat, up_parent.minor as nat),
            minor,
            umin,
            umax,
            cfg.uplink_bandwidth_mbps as nat,
        ),
        spec_sqm_replace(cfg.internet_interface@, up_major, minor, spec_sqm_fixup(umax, cfg.sqm@)),
    ]);
    assert(pruned matches Some(p) && p =~= seq![
        spec_qdisc_del_parent(cfg.internet_interface@, up_major, minor),
        spec_qdisc_del_parent(cfg.isp_interface@, major, minor),
        spec_class_del(
            cfg.isp_interface@,
            spec_tc_handle(parent.major as nat, parent.minor as nat),
            minor,
        ),
        spec_class_del(
            cfg.internet_interface@,
            spec_tc_handle(up_parent.major as nat, up_parent.minor as nat),
            minor,
        ),
    ]);
}

proof fn lemma_queue_blocks_len(
    iface: Seq<char>,
    offset: nat,
    count: nat,
    cap_mbps: nat,
    r2q_v: nat,
    sqm: Seq<Seq<char>>,
)
    ensures
        spec_queue_blocks(iface, offset, count, cap_mbps, r2q_v, sqm).len() == 5 * count,
    decreases count,
{
    if count > 0 {
        lemma_queue_blocks_len(iface, offset, (count - 1) as nat, cap_mbps, r2q_v, sqm);
    }
}

/// In on-a-stick mode MqSetup touches a single interface: it emits exactly
/// one root deletion and one MQ root replacement, both on the ISP-facing
/// interface, and every queue block — the uplink set offset by `stick` —
/// also lives on the ISP-facing interface. The total emission is
/// `2 + 10 * queues` commands.
pub proof fn lemma_on_a_stick_mq(cfg: Config, queues: nat, stick: nat)
    requires
        cfg.on_a_stick_mode,
    ensures
        spec_mq_setup(cfg, queues, stick) == seq![
            spec_qdisc_del_root(cfg.isp_interface@),
            spec_mq_replace(cfg.isp_interface@),
        ] + spec_queue_blocks(
            cfg.isp_interface@,
            0,
            queues,
            cfg.uplink_bandwidth_mbps as nat,
            spec_r2q(spec_link_cap(cfg)),
            spec_split_ws(cfg.sqm@),
        ) + spec_queue_blocks(
            cfg.isp_interface@,
            stick,
            queues,
            cfg.downlink_bandwidth_mbps as nat,
            spec_r2q(spec_link_cap(cfg)),
            spec_split_ws(cfg.sqm@),
        ),
        spec_mq_setup(cfg, queues, stick).len() == 2 + 10 * queues,
{
    let isp = cfg.isp_interface@;
    let sqm = spec_split_ws(cfg.sqm@);
    let r2q_v = spec_r2q(spec_link_cap(cfg));
    let up_blocks = spec_queue_blocks(isp, 0, queues, cfg.uplink_bandwidth_mbps as nat, r2q_v, sqm);
    let down_blocks = spec_queue_blocks(
        isp,
        stick,
        queues,
        cfg.downlink_bandwidth_mbps as nat,
        r2q_v,
        sqm,
    );
    lemma_queue_blocks_len(isp, 0, queues, cfg.uplink_bandwidth_mbps as nat, r2q_v, sqm);
    lemma_queue_blocks_len(isp, stick, queues, cfg.downlink_bandwidth_mbps as nat, r2q_v, sqm);
    assert(spec_mq_setup(cfg, queues, stick) =~= seq![
        spec_qdisc_del_root(isp),
        spec_mq_replace(isp),
    ] + up_blocks + down_blocks);
}

} // verus!

//! The read-only configuration snapshot the encoder works from: interface
//! names, link capacities, the lazy-queue mode, and the SQM leaf-qdisc
//! template.

use vstd::prelude::*;
use vstd::string::*;

verus! {

/// How lazily circuits are materialised into the kernel.
#[derive(Clone, Copy, Debug, PartialEq, Eq, Structural)]
pub enum LazyQueueMode {
    /// Materialise everything at build time.
    No,
    /// Materialise HTB classes at build time, SQM qdiscs on first activity.
    Htb,
    /// Materialise nothing at build time; everything on first activity.
    Full,
}

/// Configuration snapshot. Bandwidths are whole Mbps; the SQM template is a
/// space-separated token list such as `"cake bandwidth 100mbit"`.
#[derive(Debug)]
pub struct Config {
    /// ISP-facing (customer-side) interface name.
    pub isp_interface: String,
    /// Internet-facing interface name; ignored in on-a-stick mode.
    pub internet_interface: String,
    /// Single-interface deployment: upload classes share the ISP interface.
    pub on_a_stick_mode: bool,
    /// Uplink capacity in Mbps.
    pub uplink_bandwidth_mbps: u64,
    /// Downlink capacity in Mbps.
    pub downlink_bandwidth_mbps: u64,
    /// Lazy materialisation mode; `None` behaves as `LazyQueueMode::No`.
    pub lazy_queues: Option<LazyQueueMode>,
    /// When set, no SQM leaf qdiscs are emitted for circuits.
    pub monitor_only: bool,
    /// SQM leaf qdisc template, tokens separated by spaces.
    pub sqm: String,
}

impl Config {
    /// The interface that carries upload classes: the Internet-facing one,
    /// or the ISP-facing one in on-a-stick mode.
    pub open spec fn spec_internet_iface(&self) -> Seq<char> {
        if self.on_a_stick_mode {
            self.isp_interface@
        } else {
            self.internet_interface@
        }
    }

    /// The effective lazy mode, with the unset case folded to `No`.
    pub open spec fn spec_lazy(&self) -> LazyQueueMode {
        match self.lazy_queues {
            Option::None => LazyQueueMode::No,
            Option::Some(m) => m,
        }
    }

    /// Name of the ISP-facing interface.
    pub fn isp_iface(&self) -> (r: String)
        ensures
            r@ == self.isp_interface@,
    {
        self.isp_interface.clone()
    }

    /// Name of the interface that carries upload classes (see
    /// [`Config::spec_internet_iface`]).
    pub fn internet_iface(&self) -> (r: String)
        ensures
            r@ == self.spec_internet_iface(),
    {
        if self.on_a_stick_mode {
            self.isp_interface.clone()
        } else {
            self.internet_interface.clone()
        }
    }

    /// The effective lazy mode, with the unset case folded to `No`.
    pub fn lazy(&self) -> (r: LazyQueueMode)
        ensures
            r == self.spec_lazy(),
    {
        match self.lazy_queues {
            Option::None => LazyQueueMode::No,
            Option::Some(m) => m,
        }
    }
}

} // verus!

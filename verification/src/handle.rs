//! `tc` class handles: a `(major, minor)` pair rendered as `0x<major>:0x<minor>`
//! in lowercase hex with no padding. `minor == 0` denotes a qdisc root handle.

use vstd::prelude::*;
use vstd::string::*;
use crate::text::{hex_string, spec_hex};

verus! {

/// A `tc` class or qdisc handle.
#[derive(Clone, Copy, Debug, PartialEq, Eq, Structural)]
pub struct TcHandle {
    /// Major number (qdisc identifier).
    pub major: u16,
    /// Minor number (class within the qdisc); `0` for a qdisc root.
    pub minor: u16,
}

/// The rendering of a handle: `0x<major-hex>:0x<minor-hex>`.
pub open spec fn spec_tc_handle(major: nat, minor: nat) -> Seq<char> {
    seq!['0', 'x'] + spec_hex(major) + seq![':'] + seq!['0', 'x'] + spec_hex(minor)
}

impl TcHandle {
    /// Build a handle from its two components.
    pub fn new(major: u16, minor: u16) -> (r: TcHandle)
        ensures
            r.major == major,
            r.minor == minor,
    {
        TcHandle { major, minor }
    }

    /// Render the handle the way `tc` expects it as a `classid` or `parent`
    /// token: both components in lowercase hex, each prefixed with `0x`.
    pub fn as_tc_string(&self) -> (r: String)
        ensures
            r@ == spec_tc_handle(self.major as nat, self.minor as nat),
    {
        proof {
            reveal_strlit("0x");
            reveal_strlit(":0x");
        }
        let mut s = String::from_str("0x");
        let major_hex = hex_string(self.major as u64);
        s.append(major_hex.as_str());
        s.append(":0x");
        let minor_hex = hex_string(self.minor as u64);
        s.append(minor_hex.as_str());
        proof {
            assert(s@ =~= spec_tc_handle(self.major as nat, self.minor as nat));
        }
        s
    }
}

} // verus!

//! The batch & diff engine: commands queued between `StartBatch` and
//! `CommitBatch` are diffed against the previously committed set at commit,
//! and only the changes are emitted — prunes for removed circuits, then for
//! removed sites, then adds/replaces for new or changed sites, then for new
//! or changed circuits.

use vstd::prelude::*;
use vstd::string::*;
use crate::commands::{
    BakeryCommands, ExecutionMode, cmd_class_del, cmd_shaped_class_change, spec_class_del,
    spec_mq_bounds, spec_shaped_class_change, spec_to_commands, spec_to_prune,
};
use crate::config::Config;
use crate::handle::spec_tc_handle;

verus! {

/// Why the engine rejected an operation.
#[derive(Debug, Clone, Copy, PartialEq, Eq, Structural)]
pub enum BakeryError {
    /// Batch control invoked in the wrong phase.
    InvalidState,
    /// An inverted rate (min above max) or a duplicate site or circuit
    /// hash within one batch.
    InvalidTopology,
}

/// A command whose guaranteed rate exceeds its ceiling in either direction.
pub open spec fn spec_rates_inverted(cmd: BakeryCommands) -> bool {
    match cmd {
        BakeryCommands::AddSite {
            download_bandwidth_min,
            upload_bandwidth_min,
            download_bandwidth_max,
            upload_bandwidth_max,
            ..
        } => download_bandwidth_min > download_bandwidth_max || upload_bandwidth_min
            > upload_bandwidth_max,
        BakeryCommands::AddCircuit {
            download_bandwidth_min,
            upload_bandwidth_min,
            download_bandwidth_max,
            upload_bandwidth_max,
            ..
        } => download_bandwidth_min > download_bandwidth_max || upload_bandwidth_min
            > upload_bandwidth_max,
        BakeryCommands::ChangeSiteSpeedLive {
            download_bandwidth_min,
            upload_bandwidth_min,
            download_bandwidth_max,
            upload_bandwidth_max,
            ..
        } => download_bandwidth_min > download_bandwidth_max || upload_bandwidth_min
            > upload_bandwidth_max,
        _ => false,
    }
}

/// The circuit hash of an `AddCircuit`, `None` for anything else.
pub open spec fn spec_circuit_key(cmd: BakeryCommands) -> Option<i64> {
    match cmd {
        BakeryCommands::AddCircuit { circuit_hash, .. } => Some(circuit_hash),
        _ => None,
    }
}

/// The site hash of an `AddSite`, `None` for anything else.
pub open spec fn spec_site_key(cmd: BakeryCommands) -> Option<i64> {
    match cmd {
        BakeryCommands::AddSite { site_hash, .. } => Some(site_hash),
        _ => None,
    }
}

/// Whether some `AddCircuit` in `cmds` carries circuit hash `h`.
pub open spec fn spec_has_circuit(cmds: Seq<BakeryCommands>, h: i64) -> bool {
    exists|i: int| 0 <= i < cmds.len() && spec_circuit_key(cmds[i]) == Some(h)
}

/// Whether some `AddSite` in `cmds` carries site hash `h`.
pub open spec fn spec_has_site(cmds: Seq<BakeryCommands>, h: i64) -> bool {
    exists|i: int| 0 <= i < cmds.len() && spec_site_key(cmds[i]) == Some(h)
}

/// Whether two topology commands describe the same object with the same
/// parents, class numbers and rates. Only `AddSite`/`AddCircuit` pairs can
/// match.
pub open spec fn spec_cmd_matches(a: BakeryCommands, b: BakeryCommands) -> bool {
    match (a, b) {
        (
            BakeryCommands::AddSite {
                site_hash: h1,
                parent_class_id: p1,
                up_parent_class_id: u1,
                class_minor: m1,
                download_bandwidth_min: dn1,
                upload_bandwidth_min: un1,
                download_bandwidth_max: dx1,
                upload_bandwidth_max: ux1,
            },
            BakeryCommands::AddSite {
                site_hash: h2,
                parent_class_id: p2,
                up_parent_class_id: u2,
                class_minor: m2,
                download_bandwidth_min: dn2,
                upload_bandwidth_min: un2,
                download_bandwidth_max: dx2,
                upload_bandwidth_max: ux2,
            },
        ) => h1 == h2 && p1 == p2 && u1 == u2 && m1 == m2 && dn1 == dn2 && un1 == un2 && dx1
            == dx2 && ux1 == ux2,
        (
            BakeryCommands::AddCircuit {
                circuit_hash: h1,
                parent_class_id: p1,
                up_parent_class_id: u1,
                class_minor: m1,
                download_bandwidth_min: dn1,
                upload_bandwidth_min: un1,
                download_bandwidth_max: dx1,
                upload_bandwidth_max: ux1,
                class_major: cm1,
                up_class_major: um1,
                ip_addresses: ip1,
            },
            BakeryCommands::AddCircuit {
                circuit_hash: h2,
                parent_class_id: p2,
                up_parent_class_id: u2,
                class_minor: m2,
                download_bandwidth_min: dn2,
                upload_bandwidth_min: un2,
                download_bandwidth_max: dx2,
                upload_bandwidth_max: ux2,
                class_major: cm2,
                up_class_major: um2,
                ip_addresses: ip2,
            },
        ) => h1 == h2 && p1 == p2 && u1 == u2 && m1 == m2 && dn1 == dn2 && un1 == un2 && dx1
            == dx2 && ux1 == ux2 && cm1 == cm2 && um1 == um2 && ip1@ == ip2@,
        _ => false,
    }
}

/// Whether `c` matches some element of `cmds` (see [`spec_cmd_matches`]).
pub open spec fn spec_matched_in(cmds: Seq<BakeryCommands>, c: BakeryCommands) -> bool {
    exists|i: int| 0 <= i < cmds.len() && spec_cmd_matches(c, cmds[i])
}

/// An optional emission, flattened: `None` emits nothing.
pub open spec fn opt_cmds(o: Option<Seq<Seq<Seq<char>>>>) -> Seq<Seq<Seq<char>>> {
    match o {
        None => Seq::<Seq<Seq<char>>>::empty(),
        Some(s) => s,
    }
}

/// What one committed command contributes to the circuit-prune phase: a
/// forced prune when it is a circuit whose hash left the pending set.
pub open spec fn spec_circuit_prune_part(
    c: BakeryCommands,
    pending: Seq<BakeryCommands>,
    cfg: Config,
) -> Seq<Seq<Seq<char>>> {
    match spec_circuit_key(c) {
        Some(h) => if !spec_has_circuit(pending, h) {
            opt_cmds(spec_to_prune(c, cfg, true))
        } else {
            Seq::<Seq<Seq<char>>>::empty()
        },
        None => Seq::<Seq<Seq<char>>>::empty(),
    }
}

/// What one committed command contributes to the site-prune phase: its two
/// HTB class deletions when it is a site whose hash left the pending set.
pub open spec fn spec_site_prune_part(
    c: BakeryCommands,
    pending: Seq<BakeryCommands>,
    cfg: Config,
) -> Seq<Seq<Seq<char>>> {
    match c {
        BakeryCommands::AddSite { site_hash, parent_class_id, up_parent_class_id, class_minor, .. } => if !spec_has_site(
            pending,
            site_hash,
        ) {
            seq![
                spec_class_del(
                    cfg.isp_interface@,
                    spec_tc_handle(parent_class_id.major as nat, parent_class_id.minor as nat),
                    class_minor as nat,
                ),
                spec_class_del(
                    cfg.spec_internet_iface(),
                    spec_tc_handle(
                        up_parent_class_id.major as nat,
                        up_parent_class_id.minor as nat,
                    ),
                    class_minor as nat,
                ),
            ]
        } else {
            Seq::<Seq<Seq<char>>>::empty()
        },
        _ => Seq::<Seq<Seq<char>>>::empty(),
    }
}

/// What one pending command contributes to the site-add phase: its build
/// emission, unless an identical site was already committed.
pub open spec fn spec_site_add_part(
    c: BakeryCommands,
    committed: Seq<BakeryCommands>,
    cfg: Config,
) -> Seq<Seq<Seq<char>>> {
    match c {
        BakeryCommands::AddSite { .. } => if spec_matched_in(committed, c) {
            Seq::<Seq<Seq<char>>>::empty()
        } else {
            opt_cmds(spec_to_commands(c, cfg, ExecutionMode::Builder))
        },
        _ => Seq::<Seq<Seq<char>>>::empty(),
    }
}

/// What one pending command contributes to the circuit-add phase: its build
/// emission, unless an identical circuit was already committed.
pub open spec fn spec_circuit_add_part(
    c: BakeryCommands,
    committed: Seq<BakeryCommands>,
    cfg: Config,
) -> Seq<Seq<Seq<char>>> {
    match c {
        BakeryCommands::AddCircuit { .. } => if spec_matched_in(committed, c) {
            Seq::<Seq<Seq<char>>>::empty()
        } else {
            opt_cmds(spec_to_commands(c, cfg, ExecutionMode::Builder))
        },
        _ => Seq::<Seq<Seq<char>>>::empty(),
    }
}

/// The circuit-prune phase, in committed order.
pub open spec fn spec_circuit_prunes(
    committed: Seq<BakeryCommands>,
    pending: Seq<BakeryCommands>,
    cfg: Config,
) -> Seq<Seq<Seq<char>>>
    decreases committed.len(),
{
    if committed.len() == 0 {
        Seq::<Seq<Seq<char>>>::empty()
    } else {
        spec_circuit_prune_part(committed[0], pending, cfg) + spec_circuit_prunes(
            committed.drop_first(),
            pending,
            cfg,
        )
    }
}

/// The site-prune phase, in committed order.
pub open spec fn spec_site_prunes(
    committed: Seq<BakeryCommands>,
    pending: Seq<BakeryCommands>,
    cfg: Config,
) -> Seq<Seq<Seq<char>>>
    decreases committed.len(),
{
    if committed.len() == 0 {
        Seq::<Seq<Seq<char>>>::empty()
    } else {
        spec_site_prune_part(committed[0], pending, cfg) + spec_site_prunes(
            committed.drop_first(),
            pending,
            cfg,
        )
    }
}

/// The site-add phase, in pending order.
pub open spec fn spec_site_adds(
    pending: Seq<BakeryCommands>,
    committed: Seq<BakeryCommands>,
    cfg: Config,
) -> Seq<Seq<Seq<char>>>
    decreases pending.len(),
{
    if pending.len() == 0 {
        Seq::<Seq<Seq<char>>>::empty()
    } else {
        spec_site_add_part(pending[0], committed, cfg) + spec_site_adds(
            pending.drop_first(),
            committed,
            cfg,
        )
    }
}

/// The circuit-add phase, in pending order.
pub open spec fn spec_circuit_adds(
    pending: Seq<BakeryCommands>,
    committed: Seq<BakeryCommands>,
    cfg: Config,
) -> Seq<Seq<Seq<char>>>
    decreases pending.len(),
{
    if pending.len() == 0 {
        Seq::<Seq<Seq<char>>>::empty()
    } else {
        spec_circuit_add_part(pending[0], committed, cfg) + spec_circuit_adds(
            pending.drop_first(),
            committed,
            cfg,
        )
    }
}

/// Everything a commit emits, in order: prunes for removed circuits, prunes
/// for removed sites (after their children), adds for new or changed sites,
/// then adds for new or changed circuits.
pub open spec fn spec_diff(
    committed: Seq<BakeryCommands>,
    pending: Seq<BakeryCommands>,
    cfg: Config,
) -> Seq<Seq<Seq<char>>> {
    spec_circuit_prunes(committed, pending, cfg) + spec_site_prunes(committed, pending, cfg)
        + spec_site_adds(pending, committed, cfg) + spec_circuit_adds(pending, committed, cfg)
}

/// The first committed `AddSite` carrying site hash `h`, if any.
pub open spec fn spec_find_site(cmds: Seq<BakeryCommands>, h: i64) -> Option<BakeryCommands>
    decreases cmds.len(),
{
    if cmds.len() == 0 {
        None
    } else if spec_site_key(cmds[0]) == Some(h) {
        Some(cmds[0])
    } else {
        spec_find_site(cmds.drop_first(), h)
    }
}

/// The two `class change` commands that retune a stored site to new rates.
pub open spec fn spec_site_change_cmds(
    cfg: Config,
    site: BakeryCommands,
    dmin: nat,
    umin: nat,
    dmax: nat,
    umax: nat,
) -> Seq<Seq<Seq<char>>> {
    match site {
        BakeryCommands::AddSite { parent_class_id, up_parent_class_id, class_minor, .. } => seq![
            spec_shaped_class_change(
                cfg.isp_interface@,
                spec_tc_handle(parent_class_id.major as nat, parent_class_id.minor as nat),
                class_minor as nat,
                dmin,
                dmax,
                cfg.downlink_bandwidth_mbps as nat,
            ),
            spec_shaped_class_change(
                cfg.spec_internet_iface(),
                spec_tc_handle(up_parent_class_id.major as nat, up_parent_class_id.minor as nat),
                class_minor as nat,
                umin,
                umax,
                cfg.uplink_bandwidth_mbps as nat,
            ),
        ],
        _ => Seq::<Seq<Seq<char>>>::empty(),
    }
}

/// A duplicate key: the command's site or circuit hash already queued.
pub open spec fn spec_dup_in_pending(pending: Seq<BakeryCommands>, cmd: BakeryCommands) -> bool {
    ||| (spec_site_key(cmd) matches Some(h) && spec_has_site(pending, h))
    ||| (spec_circuit_key(cmd) matches Some(h) && spec_has_circuit(pending, h))
}

/// A command the batch engine queues and diffs.
pub open spec fn spec_is_topology(cmd: BakeryCommands) -> bool {
    cmd is AddSite || cmd is AddCircuit
}

// ---------------------------------------------------------------------------
// Exec helpers
// ---------------------------------------------------------------------------

fn rates_inverted(cmd: &BakeryCommands) -> (r: bool)
    ensures
        r == spec_rates_inverted(*cmd),
{
    match cmd {
        BakeryCommands::AddSite {
            download_bandwidth_min,
            upload_bandwidth_min,
            download_bandwidth_max,
            upload_bandwidth_max,
            ..
        } => *download_bandwidth_min > *download_bandwidth_max || *upload_bandwidth_min
            > *upload_bandwidth_max,
        BakeryCommands::AddCircuit {
            download_bandwidth_min,
            upload_bandwidth_min,
            download_bandwidth_max,
            upload_bandwidth_max,
            ..
        } => *download_bandwidth_min > *download_bandwidth_max || *upload_bandwidth_min
            > *upload_bandwidth_max,
        BakeryCommands::ChangeSiteSpeedLive {
            download_bandwidth_min,
            upload_bandwidth_min,
            download_bandwidth_max,
            upload_bandwidth_max,
            ..
        } => *download_bandwidth_min > *download_bandwidth_max || *upload_bandwidth_min
            > *upload_bandwidth_max,
        _ => false,
    }
}

fn circuit_hash_in(cmds: &Vec<BakeryCommands>, h: i64) -> (r: bool)
    ensures
        r == spec_has_circuit(cmds@, h),
{
    let mut i: usize = 0;
    while i < cmds.len()
        invariant
            i <= cmds.len(),
            forall|k: int| 0 <= k < i ==> spec_circuit_key(cmds@[k]) != Some(h),
        decreases cmds.len() - i,
    {
        let found = match &cmds[i] {
            BakeryCommands::AddCircuit { circuit_hash, .. } => *circuit_hash == h,
            _ => false,
        };
        if found {
            proof {
                assert(spec_circuit_key(cmds@[i as int]) == Some(h));
            }
            return true;
        }
        i = i + 1;
    }
    proof {
        assert(!spec_has_circuit(cmds@, h));
    }
    false
}

fn site_hash_in(cmds: &Vec<BakeryCommands>, h: i64) -> (r: bool)
    ensures
        r == spec_has_site(cmds@, h),
{
    let mut i: usize = 0;
    while i < cmds.len()
        invariant
            i <= cmds.len(),
            forall|k: int| 0 <= k < i ==> spec_site_key(cmds@[k]) != Some(h),
        decreases cmds.len() - i,
    {
        let found = match &cmds[i] {
            BakeryCommands::AddSite { site_hash, .. } => *site_hash == h,
            _ => false,
        };
        if found {
            proof {
                assert(spec_site_key(cmds@[i as int]) == Some(h));
            }
            return true;
        }
        i = i + 1;
    }
    proof {
        assert(!spec_has_site(cmds@, h));
    }
    false
}

fn cmds_equal(a: &BakeryCommands, b: &BakeryCommands) -> (r: bool)
    ensures
        r == spec_cmd_matches(*a, *b),
{
    match (a, b) {
        (
            BakeryCommands::AddSite {
                site_hash: h1,
                parent_class_id: p1,
                up_parent_class_id: u1,
                class_minor: m1,
                download_bandwidth_min: dn1,
                upload_bandwidth_min: un1,
                download_bandwidth_max: dx1,
                upload_bandwidth_max: ux1,
            },
            BakeryCommands::AddSite {
                site_hash: h2,
                parent_class_id: p2,
                up_parent_class_id: u2,
                class_minor: m2,
                download_bandwidth_min: dn2,
                upload_bandwidth_min: un2,
                download_bandwidth_max: dx2,
                upload_bandwidth_max: ux2,
            },
        ) => *h1 == *h2 && *p1 == *p2 && *u1 == *u2 && *m1 == *m2 && *dn1 == *dn2 && *un1 == *un2
            && *dx1 == *dx2 && *ux1 == *ux2,
        (
            BakeryCommands::AddCircuit {
                circuit_hash: h1,
                parent_class_id: p1,
                up_parent_class_id: u1,
                class_minor: m1,
                download_bandwidth_min: dn1,
                upload_bandwidth_min: un1,
                download_bandwidth_max: dx1,
                upload_bandwidth_max: ux1,
                class_major: cm1,
                up_class_major: um1,
                ip_addresses: ip1,
            },
            BakeryCommands::AddCircuit {
                circuit_hash: h2,
                parent_class_id: p2,
                up_parent_class_id: u2,
                class_minor: m2,
                download_bandwidth_min: dn2,
                upload_bandwidth_min: un2,
                download_bandwidth_max: dx2,
                upload_bandwidth_max: ux2,
                class_major: cm2,
                up_class_major: um2,
                ip_addresses: ip2,
            },
        ) => *h1 == *h2 && *p1 == *p2 && *u1 == *u2 && *m1 == *m2 && *dn1 == *dn2 && *un1 == *un2
            && *dx1 == *dx2 && *ux1 == *ux2 && *cm1 == *cm2 && *um1 == *um2 && ip1.eq(ip2),
        _ => false,
    }
}

fn matched_in(cmds: &Vec<BakeryCommands>, c: &BakeryCommands) -> (r: bool)
    ensures
        r == spec_matched_in(cmds@, *c),
{
    let mut i: usize = 0;
    while i < cmds.len()
        invariant
            i <= cmds.len(),
            forall|k: int| 0 <= k < i ==> !spec_cmd_matches(*c, cmds@[k]),
        decreases cmds.len() - i,
    {
        if cmds_equal(c, &cmds[i]) {
            return true;
        }
        i = i + 1;
    }
    proof {
        assert(!spec_matched_in(cmds@, *c));
    }
    false
}

fn append_cmds(out: &mut Vec<Vec<String>>, src: Vec<Vec<String>>)
    ensures
        final(out).deep_view() == old(out).deep_view() + src.deep_view(),
{
    let mut rest = src;
    while rest.len() > 0
        invariant
            out.deep_view() + rest.deep_view() == old(out).deep_view() + src.deep_view(),
        decreases rest.len(),
    {
        let ghost pre_out = out.deep_view();
        let ghost pre_rest = rest.deep_view();
        let x = rest.remove(0);
        out.push(x);
        proof {
            assert(out.deep_view() =~= pre_out.push(pre_rest[0]));
            assert(rest.deep_view() =~= pre_rest.drop_first());
            assert(out.deep_view() + rest.deep_view() =~= pre_out + pre_rest);
        }
    }
    proof {
        assert(final(out).deep_view() + rest.deep_view() =~= final(out).deep_view());
        assert(final(out).deep_view() =~= old(out).deep_view() + src.deep_view());
    }
}

// ---------------------------------------------------------------------------
// Fold lemmas
// ---------------------------------------------------------------------------

proof fn lemma_circuit_prunes_snoc(
    committed: Seq<BakeryCommands>,
    x: BakeryCommands,
    pending: Seq<BakeryCommands>,
    cfg: Config,
)
    ensures
        spec_circuit_prunes(committed.push(x), pending, cfg) == spec_circuit_prunes(
            committed,
            pending,
            cfg,
        ) + spec_circuit_prune_part(x, pending, cfg),
    decreases committed.len(),
{
    let s = committed.push(x);
    assert(spec_circuit_prunes(Seq::<BakeryCommands>::empty(), pending, cfg) == Seq::<
        Seq<Seq<char>>,
    >::empty());
    if committed.len() == 0 {
        assert(s.drop_first() =~= Seq::<BakeryCommands>::empty());
        assert(s[0] == x);
        assert(spec_circuit_prunes(s, pending, cfg) == spec_circuit_prune_part(x, pending, cfg) + spec_circuit_prunes(
            Seq::<BakeryCommands>::empty(),
            pending,
            cfg,
        ));
        assert(spec_circuit_prunes(s, pending, cfg) =~= spec_circuit_prunes(committed, pending, cfg)
            + spec_circuit_prune_part(x, pending, cfg));
    } else {
        assert(s[0] == committed[0]);
        assert(s.drop_first() =~= committed.drop_first().push(x));
        lemma_circuit_prunes_snoc(committed.drop_first(), x, pending, cfg);
        assert(spec_circuit_prunes(s, pending, cfg) == spec_circuit_prune_part(s[0], pending, cfg) + spec_circuit_prunes(
            committed.drop_first().push(x),
            pending,
            cfg,
        ));
        assert(spec_circuit_prunes(committed, pending, cfg) == spec_circuit_prune_part(committed[0], pending, cfg) + spec_circuit_prunes(
            committed.drop_first(),
            pending,
            cfg,
        ));
        assert(spec_circuit_prunes(s, pending, cfg) =~= spec_circuit_prunes(committed, pending, cfg)
            + spec_circuit_prune_part(x, pending, cfg));
    }
}

proof fn lemma_site_prunes_snoc(
    committed: Seq<BakeryCommands>,
    x: BakeryCommands,
    pending: Seq<BakeryCommands>,
    cfg: Config,
)
    ensures
        spec_site_prunes(committed.push(x), pending, cfg) == spec_site_prunes(
            committed,
            pending,
            cfg,
        ) + spec_site_prune_part(x, pending, cfg),
    decreases committed.len(),
{
    let s = committed.push(x);
    assert(spec_site_prunes(Seq::<BakeryCommands>::empty(), pending, cfg) == Seq::<
        Seq<Seq<char>>,
    >::empty());
    if committed.len() == 0 {
        assert(s.drop_first() =~= Seq::<BakeryCommands>::empty());
        assert(s[0] == x);
        assert(spec_site_prunes(s, pending, cfg) == spec_site_prune_part(x, pending, cfg) + spec_site_prunes(
            Seq::<BakeryCommands>::empty(),
            pending,
            cfg,
        ));
        assert(spec_site_prunes(s, pending, cfg) =~= spec_site_prunes(committed, pending, cfg)
            + spec_site_prune_part(x, pending, cfg));
    } else {
        assert(s[0] == committed[0]);
        assert(s.drop_first() =~= committed.drop_first().push(x));
        lemma_site_prunes_snoc(committed.drop_first(), x, pending, cfg);
        assert(spec_site_prunes(s, pending, cfg) == spec_site_prune_part(s[0], pending, cfg) + spec_site_prunes(
            committed.drop_first().push(x),
            pending,
            cfg,
        ));
        assert(spec_site_prunes(committed, pending, cfg) == spec_site_prune_part(committed[0], pending, cfg) + spec_site_prunes(
            committed.drop_first(),
            pending,
            cfg,
        ));
        assert(spec_site_prunes(s, pending, cfg) =~= spec_site_prunes(committed, pending, cfg)
            + spec_site_prune_part(x, pending, cfg));
    }
}

proof fn lemma_site_adds_snoc(
    pending: Seq<BakeryCommands>,
    x: BakeryCommands,
    committed: Seq<BakeryCommands>,
    cfg: Config,
)
    ensures
        spec_site_adds(pending.push(x), committed, cfg) == spec_site_adds(pending, committed, cfg)
            + spec_site_add_part(x, committed, cfg),
    decreases pending.len(),
{
    let s = pending.push(x);
    assert(spec_site_adds(Seq::<BakeryCommands>::empty(), committed, cfg) == Seq::<
        Seq<Seq<char>>,
    >::empty());
    if pending.len() == 0 {
        assert(s.drop_first() =~= Seq::<BakeryCommands>::empty());
        assert(s[0] == x);
        assert(spec_site_adds(s, committed, cfg) == spec_site_add_part(x, committed, cfg) + spec_site_adds(
            Seq::<BakeryCommands>::empty(),
            committed,
            cfg,
        ));
        assert(spec_site_adds(s, committed, cfg) =~= spec_site_adds(pending, committed, cfg)
            + spec_site_add_part(x, committed, cfg));
    } else {
        assert(s[0] == pending[0]);
        assert(s.drop_first() =~= pending.drop_first().push(x));
        lemma_site_adds_snoc(pending.drop_first(), x, committed, cfg);
        assert(spec_site_adds(s, committed, cfg) == spec_site_add_part(s[0], committed, cfg) + spec_site_adds(
            pending.drop_first().push(x),
            committed,
            cfg,
        ));
        assert(spec_site_adds(pending, committed, cfg) == spec_site_add_part(pending[0], committed, cfg) + spec_site_adds(
            pending.drop_first(),
            committed,
            cfg,
        ));
        assert(spec_site_adds(s, committed, cfg) =~= spec_site_adds(pending, committed, cfg)
            + spec_site_add_part(x, committed, cfg));
    }
}

proof fn lemma_circuit_adds_snoc(
    pending: Seq<BakeryCommands>,
    x: BakeryCommands,
    committed: Seq<BakeryCommands>,
    cfg: Config,
)
    ensures
        spec_circuit_adds(pending.push(x), committed, cfg) == spec_circuit_adds(
            pending,
            committed,
            cfg,
        ) + spec_circuit_add_part(x, committed, cfg),
    decreases pending.len(),
{
    let s = pending.push(x);
    assert(spec_circuit_adds(Seq::<BakeryCommands>::empty(), committed, cfg) == Seq::<
        Seq<Seq<char>>,
    >::empty());
    if pending.len() == 0 {
        assert(s.drop_first() =~= Seq::<BakeryCommands>::empty());
        assert(s[0] == x);
        assert(spec_circuit_adds(s, committed, cfg) == spec_circuit_add_part(x, committed, cfg) + spec_circuit_adds(
            Seq::<BakeryCommands>::empty(),
            committed,
            cfg,
        ));
        assert(spec_circuit_adds(s, committed, cfg) =~= spec_circuit_adds(pending, committed, cfg)
            + spec_circuit_add_part(x, committed, cfg));
    } else {
        assert(s[0] == pending[0]);
        assert(s.drop_first() =~= pending.drop_first().push(x));
        lemma_circuit_adds_snoc(pending.drop_first(), x, committed, cfg);
        assert(spec_circuit_adds(s, committed, cfg) == spec_circuit_add_part(s[0], committed, cfg) + spec_circuit_adds(
            pending.drop_first().push(x),
            committed,
            cfg,
        ));
        assert(spec_circuit_adds(pending, committed, cfg) == spec_circuit_add_part(pending[0], committed, cfg) + spec_circuit_adds(
            pending.drop_first(),
            committed,
            cfg,
        ));
        assert(spec_circuit_adds(s, committed, cfg) =~= spec_circuit_adds(pending, committed, cfg)
            + spec_circuit_add_part(x, committed, cfg));
    }
}

// ---------------------------------------------------------------------------
// The engine
// ---------------------------------------------------------------------------

/// Accumulates topology commands between `start_batch` and `commit_batch`,
/// and keeps the last committed set for diffing and live rate changes.
pub struct BatchEngine {
    batching: bool,
    pending: Vec<BakeryCommands>,
    committed: Vec<BakeryCommands>,
}

impl BatchEngine {
    /// Whether a batch is open.
    pub closed spec fn spec_batching(&self) -> bool {
        self.batching
    }

    /// The commands queued in the open batch.
    pub closed spec fn spec_pending(&self) -> Seq<BakeryCommands> {
        self.pending@
    }

    /// The last committed topology.
    pub closed spec fn spec_committed(&self) -> Seq<BakeryCommands> {
        self.committed@
    }

    /// The engine holds only topology commands, and nothing is queued
    /// outside an open batch.
    pub closed spec fn wf(&self) -> bool {
        &&& forall|i: int|
            0 <= i < self.pending@.len() ==> spec_is_topology(#[trigger] self.pending@[i])
        &&& forall|i: int|
            0 <= i < self.committed@.len() ==> spec_is_topology(#[trigger] self.committed@[i])
        &&& (!self.batching ==> self.pending@.len() == 0)
    }

    /// A fresh engine: idle, with nothing committed.
    pub fn new() -> (r: BatchEngine)
        ensures
            r.wf(),
            !r.spec_batching(),
            r.spec_pending().len() == 0,
            r.spec_committed().len() == 0,
    {
        BatchEngine { batching: false, pending: Vec::new(), committed: Vec::new() }
    }

    /// Open a batch. Fails with `InvalidState`, leaving the engine
    /// unchanged, when one is already open.
    pub fn start_batch(&mut self) -> (r: Result<(), BakeryError>)
        requires
            old(self).wf(),
        ensures
            final(self).wf(),
            final(self).spec_committed() == old(self).spec_committed(),
            old(self).spec_batching() ==> r == Err::<(), BakeryError>(BakeryError::InvalidState)
                && *final(self) == *old(self),
            !old(self).spec_batching() ==> r == Ok::<(), BakeryError>(())
                && final(self).spec_batching() && final(self).spec_pending().len() == 0,
    {
        if self.batching {
            Err(BakeryError::InvalidState)
        } else {
            self.batching = true;
            Ok(())
        }
    }

    /// Discard the open batch without emitting anything: the engine
    /// returns to idle with the previously committed set untouched. Fails
    /// with `InvalidState`, leaving the engine unchanged, when no batch is
    /// open.
    pub fn abort_batch(&mut self) -> (r: Result<(), BakeryError>)
        requires
            old(self).wf(),
        ensures
            final(self).wf(),
            final(self).spec_committed() == old(self).spec_committed(),
            !old(self).spec_batching() ==> r == Err::<(), BakeryError>(BakeryError::InvalidState)
                && *final(self) == *old(self),
            old(self).spec_batching() ==> r == Ok::<(), BakeryError>(())
                && !final(self).spec_batching() && final(self).spec_pending().len() == 0,
    {
        if !self.batching {
            return Err(BakeryError::InvalidState);
        }
        self.pending.clear();
        self.batching = false;
        Ok(())
    }

    /// Feed one command to the engine. Commands with inverted rates are
    /// rejected. While a batch is open, topology commands are queued (a
    /// duplicate site or circuit hash is rejected); everything else — and
    /// everything outside a batch — is encoded immediately as a live
    /// update.
    pub fn enqueue(&mut self, cmd: BakeryCommands, config: &Config) -> (r: Result<
        Option<Vec<Vec<String>>>,
        BakeryError,
    >)
        requires
            old(self).wf(),
            spec_mq_bounds(cmd),
        ensures
            final(self).wf(),
            final(self).spec_committed() == old(self).spec_committed(),
            final(self).spec_batching() == old(self).spec_batching(),
            spec_rates_inverted(cmd) ==> r == Err::<Option<Vec<Vec<String>>>, BakeryError>(
                BakeryError::InvalidTopology,
            ) && final(self).spec_pending() == old(self).spec_pending(),
            !spec_rates_inverted(cmd) && old(self).spec_batching() && spec_is_topology(cmd)
                && spec_dup_in_pending(old(self).spec_pending(), cmd) ==> r == Err::<
                Option<Vec<Vec<String>>>,
                BakeryError,
            >(BakeryError::InvalidTopology)
                && final(self).spec_pending() == old(self).spec_pending(),
            !spec_rates_inverted(cmd) && old(self).spec_batching() && spec_is_topology(cmd)
                && !spec_dup_in_pending(old(self).spec_pending(), cmd) ==> (r matches Ok(o)
                && o is None) && final(self).spec_pending() == old(self).spec_pending().push(cmd),
            !spec_rates_inverted(cmd) && !(old(self).spec_batching() && spec_is_topology(cmd))
                ==> (r matches Ok(o) && o.deep_view() == spec_to_commands(
                cmd,
                *config,
                ExecutionMode::LiveUpdate,
            )) && final(self).spec_pending() == old(self).spec_pending(),
    {
        if rates_inverted(&cmd) {
            return Err(BakeryError::InvalidTopology);
        }
        let is_topo = match &cmd {
            BakeryCommands::AddSite { .. } => true,
            BakeryCommands::AddCircuit { .. } => true,
            _ => false,
        };
        if self.batching && is_topo {
            let dup = match &cmd {
                BakeryCommands::AddSite { site_hash, .. } => site_hash_in(
                    &self.pending,
                    *site_hash,
                ),
                BakeryCommands::AddCircuit { circuit_hash, .. } => circuit_hash_in(
                    &self.pending,
                    *circuit_hash,
                ),
                _ => false,
            };
            if dup {
                return Err(BakeryError::InvalidTopology);
            }
            self.pending.push(cmd);
            Ok(None)
        } else {
            Ok(cmd.to_commands(config, ExecutionMode::LiveUpdate))
        }
    }

    /// Close the batch: emit the diff against the previously committed set
    /// ([`spec_diff`] states it exactly), then make the pending set the
    /// committed one. Fails with `InvalidState`, leaving the engine
    /// unchanged, when no batch is open.
    ///
    /// Ordering: circuit prunes come first, then site prunes, then site
    /// adds, then circuit adds. Within the site phases, commands follow
    /// the order the batch queued them. An `AddSite` names its parent only
    /// as a `tc` handle, not as another site, so the engine does not
    /// re-derive parent depth: a caller building a multi-level site tree
    /// queues parents before their child sites, as a tree walk naturally
    /// does.
    pub fn commit_batch(&mut self, config: &Config) -> (r: Result<Vec<Vec<String>>, BakeryError>)
        requires
            old(self).wf(),
        ensures
            final(self).wf(),
            !old(self).spec_batching() ==> r == Err::<Vec<Vec<String>>, BakeryError>(
                BakeryError::InvalidState,
            ) && *final(self) == *old(self),
            old(self).spec_batching() ==> (r matches Ok(out) && out.deep_view() == spec_diff(
                old(self).spec_committed(),
                old(self).spec_pending(),
                *config,
            )) && !final(self).spec_batching()
                && final(self).spec_committed() == old(self).spec_pending()
                && final(self).spec_pending().len() == 0,
    {
        if !self.batching {
            return Err(BakeryError::InvalidState);
        }
        let ghost committed_g = self.committed@;
        let ghost pending_g = self.pending@;
        let mut out: Vec<Vec<String>> = Vec::new();

        // Phase 1: prunes for circuits that left the topology.
        let mut i: usize = 0;
        while i < self.committed.len()
            invariant
                i <= self.committed@.len(),
                self.committed@ == committed_g,
                self.pending@ == pending_g,
                self.batching == old(self).batching,
                out.deep_view() == spec_circuit_prunes(
                    committed_g.take(i as int),
                    pending_g,
                    *config,
                ),
            decreases self.committed@.len() - i,
        {
            let keep = match &self.committed[i] {
                BakeryCommands::AddCircuit { circuit_hash, .. } => circuit_hash_in(
                    &self.pending,
                    *circuit_hash,
                ),
                _ => true,
            };
            if !keep {
                let pr = self.committed[i].to_prune(config, true);
                match pr {
                    Some(v) => append_cmds(&mut out, v),
                    None => {},
                }
            }
            proof {
                lemma_circuit_prunes_snoc(
                    committed_g.take(i as int),
                    committed_g[i as int],
                    pending_g,
                    *config,
                );
                assert(committed_g.take(i + 1) =~= committed_g.take(i as int).push(
                    committed_g[i as int],
                ));
            }
            i = i + 1;
        }
        let ghost h1 = spec_circuit_prunes(committed_g, pending_g, *config);
        proof {
            assert(committed_g.take(committed_g.len() as int) =~= committed_g);
        }

        // Phase 2: prunes for sites that left the topology.
        let mut i: usize = 0;
        while i < self.committed.len()
            invariant
                i <= self.committed@.len(),
                self.committed@ == committed_g,
                self.pending@ == pending_g,
                self.batching == old(self).batching,
                out.deep_view() == h1 + spec_site_prunes(
                    committed_g.take(i as int),
                    pending_g,
                    *config,
                ),
            decreases self.committed@.len() - i,
        {
            match &self.committed[i] {
                BakeryCommands::AddSite {
                    site_hash,
                    parent_class_id,
                    up_parent_class_id,
                    class_minor,
                    ..
                } => {
                    if !site_hash_in(&self.pending, *site_hash) {
                        let ghost pre = out.deep_view();
                        out.push(
                            cmd_class_del(
                                config.isp_iface(),
                                parent_class_id.as_tc_string(),
                                *class_minor,
                            ),
                        );
                        out.push(
                            cmd_class_del(
                                config.internet_iface(),
                                up_parent_class_id.as_tc_string(),
                                *class_minor,
                            ),
                        );
                        proof {
                            assert(out.deep_view() =~= pre + spec_site_prune_part(
                                self.committed@[i as int],
                                pending_g,
                                *config,
                            ));
                        }
                    }
                },
                _ => {},
            }
            proof {
                lemma_site_prunes_snoc(
                    committed_g.take(i as int),
                    committed_g[i as int],
                    pending_g,
                    *config,
                );
                assert(committed_g.take(i + 1) =~= committed_g.take(i as int).push(
                    committed_g[i as int],
                ));
            }
            i = i + 1;
        }
        let ghost h2 = h1 + spec_site_prunes(committed_g, pending_g, *config);
        proof {
            assert(committed_g.take(committed_g.len() as int) =~= committed_g);
        }

        // Phase 3: adds for new or changed sites.
        let mut i: usize = 0;
        while i < self.pending.len()
            invariant
                i <= self.pending@.len(),
                self.committed@ == committed_g,
                self.pending@ == pending_g,
                self.batching == old(self).batching,
                forall|k: int|
                    0 <= k < pending_g.len() ==> spec_is_topology(#[trigger] pending_g[k]),
                out.deep_view() == h2 + spec_site_adds(
                    pending_g.take(i as int),
                    committed_g,
                    *config,
                ),
            decreases self.pending@.len() - i,
        {
            let is_site = match &self.pending[i] {
                BakeryCommands::AddSite { .. } => true,
                _ => false,
            };
            if is_site && !matched_in(&self.committed, &self.pending[i]) {
                let cmds = self.pending[i].to_commands(config, ExecutionMode::Builder);
                match cmds {
                    Some(v) => append_cmds(&mut out, v),
                    None => {},
                }
            }
            proof {
                lemma_site_adds_snoc(
                    pending_g.take(i as int),
                    pending_g[i as int],
                    committed_g,
                    *config,
                );
                assert(pending_g.take(i + 1) =~= pending_g.take(i as int).push(
                    pending_g[i as int],
                ));
            }
            i = i + 1;
        }
        let ghost h3 = h2 + spec_site_adds(pending_g, committed_g, *config);
        proof {
            assert(pending_g.take(pending_g.len() as int) =~= pending_g);
        }

        // Phase 4: adds for new or changed circuits.
        let mut i: usize = 0;
        while i < self.pending.len()
            invariant
                i <= self.pending@.len(),
                self.committed@ == committed_g,
                self.pending@ == pending_g,
                self.batching == old(self).batching,
                forall|k: int|
                    0 <= k < pending_g.len() ==> spec_is_topology(#[trigger] pending_g[k]),
                out.deep_view() == h3 + spec_circuit_adds(
                    pending_g.take(i as int),
                    committed_g,
                    *config,
                ),
            decreases self.pending@.len() - i,
        {
            let is_circuit = match &self.pending[i] {
                BakeryCommands::AddCircuit { .. } => true,
                _ => false,
            };
            if is_circuit && !matched_in(&self.committed, &self.pending[i]) {
                let cmds = self.pending[i].to_commands(config, ExecutionMode::Builder);
                match cmds {
                    Some(v) => append_cmds(&mut out, v),
                    None => {},
                }
            }
            proof {
                lemma_circuit_adds_snoc(
                    pending_g.take(i as int),
                    pending_g[i as int],
                    committed_g,
                    *config,
                );
                assert(pending_g.take(i + 1) =~= pending_g.take(i as int).push(
                    pending_g[i as int],
                ));
            }
            i = i + 1;
        }
        proof {
            assert(pending_g.take(pending_g.len() as int) =~= pending_g);
            assert(out.deep_view() =~= spec_diff(committed_g, pending_g, *config));
        }

        // Swap committed <- pending.
        self.committed.clear();
        while self.pending.len() > 0
            invariant
                self.committed@ + self.pending@ == pending_g,
                self.batching == old(self).batching,
                forall|k: int|
                    0 <= k < pending_g.len() ==> spec_is_topology(#[trigger] pending_g[k]),
            decreases self.pending.len(),
        {
            let ghost pre_c = self.committed@;
            let ghost pre_p = self.pending@;
            let x = self.pending.remove(0);
            self.committed.push(x);
            proof {
                assert(self.committed@ + self.pending@ =~= pre_c + pre_p);
            }
        }
        self.batching = false;
        proof {
            assert(self.committed@ =~= pending_g);
        }
        Ok(out)
    }

    /// Emit the two `class change` commands that retune the committed site
    /// carrying `site_hash` to the given rates, or `None` when no such
    /// site was committed.
    pub fn change_site_speed_live(
        &self,
        config: &Config,
        site_hash: i64,
        download_bandwidth_min: u64,
        upload_bandwidth_min: u64,
        download_bandwidth_max: u64,
        upload_bandwidth_max: u64,
    ) -> (r: Option<Vec<Vec<String>>>)
        ensures
            r.deep_view() == match spec_find_site(self.spec_committed(), site_hash) {
                None => None::<Seq<Seq<Seq<char>>>>,
                Some(site) => Some(
                    spec_site_change_cmds(
                        *config,
                        site,
                        download_bandwidth_min as nat,
                        upload_bandwidth_min as nat,
                        download_bandwidth_max as nat,
                        upload_bandwidth_max as nat,
                    ),
                ),
            },
    {
        let mut i: usize = 0;
        proof {
            assert(self.committed@.skip(0) =~= self.committed@);
        }
        while i < self.committed.len()
            invariant
                i <= self.committed@.len(),
                spec_find_site(self.committed@, site_hash) == spec_find_site(
                    self.committed@.skip(i as int),
                    site_hash,
                ),
            decreases self.committed@.len() - i,
        {
            match &self.committed[i] {
                BakeryCommands::AddSite {
                    site_hash: h,
                    parent_class_id,
                    up_parent_class_id,
                    class_minor,
                    ..
                } => {
                    if *h == site_hash {
                        proof {
                            assert(self.committed@.skip(i as int)[0] == self.committed@[i as int]);
                        }
                        let mut result: Vec<Vec<String>> = Vec::new();
                        result.push(
                            cmd_shaped_class_change(
                                config.isp_iface(),
                                parent_class_id.as_tc_string(),
                                *class_minor,
                                download_bandwidth_min,
                                download_bandwidth_max,
                                config.downlink_bandwidth_mbps,
                            ),
                        );
                        result.push(
                            cmd_shaped_class_change(
                                config.internet_iface(),
                                up_parent_class_id.as_tc_string(),
                                *class_minor,
                                upload_bandwidth_min,
                                upload_bandwidth_max,
                                config.uplink_bandwidth_mbps,
                            ),
                        );
                        proof {
                            assert(result.deep_view() =~= spec_site_change_cmds(
                                *config,
                                self.committed@[i as int],
                                download_bandwidth_min as nat,
                                upload_bandwidth_min as nat,
                                download_bandwidth_max as nat,
                                upload_bandwidth_max as nat,
                            ));
                        }
                        return Some(result);
                    }
                },
                _ => {},
            }
            proof {
                assert(self.committed@.skip(i as int).drop_first() =~= self.committed@.skip(
                    i + 1,
                ));
            }
            i = i + 1;
        }
        proof {
            assert(self.committed@.skip(i as int).len() == 0);
        }
        None
    }
}

// ---------------------------------------------------------------------------
// Laws
// ---------------------------------------------------------------------------

proof fn lemma_circuit_prunes_all_kept(
    committed: Seq<BakeryCommands>,
    pending: Seq<BakeryCommands>,
    cfg: Config,
)
    requires
        forall|i: int|
            0 <= i < committed.len() ==> spec_circuit_prune_part(
                #[trigger] committed[i],
                pending,
                cfg,
            ) == Seq::<Seq<Seq<char>>>::empty(),
    ensures
        spec_circuit_prunes(committed, pending, cfg) == Seq::<Seq<Seq<char>>>::empty(),
    decreases committed.len(),
{
    if committed.len() > 0 {
        assert(spec_circuit_prune_part(committed[0], pending, cfg) == Seq::<
            Seq<Seq<char>>,
        >::empty());
        assert(forall|i: int|
            0 <= i < committed.drop_first().len() ==> spec_circuit_prune_part(
                #[trigger] committed.drop_first()[i],
                pending,
                cfg,
            ) == Seq::<Seq<Seq<char>>>::empty()) by {
            assert(forall|i: int|
                0 <= i < committed.drop_first().len() ==> committed.drop_first()[i]
                    == #[trigger] committed[i + 1]);
        }
        lemma_circuit_prunes_all_kept(committed.drop_first(), pending, cfg);
        assert(spec_circuit_prunes(committed, pending, cfg) =~= Seq::<Seq<Seq<char>>>::empty());
    }
}

proof fn lemma_site_prunes_all_kept(
    committed: Seq<BakeryCommands>,
    pending: Seq<BakeryCommands>,
    cfg: Config,
)
    requires
        forall|i: int|
            0 <= i < committed.len() ==> spec_site_prune_part(#[trigger] committed[i], pending, cfg)
                == Seq::<Seq<Seq<char>>>::empty(),
    ensures
        spec_site_prunes(committed, pending, cfg) == Seq::<Seq<Seq<char>>>::empty(),
    decreases committed.len(),
{
    if committed.len() > 0 {
        assert(spec_site_prune_part(committed[0], pending, cfg) == Seq::<Seq<Seq<char>>>::empty());
        assert(forall|i: int|
            0 <= i < committed.drop_first().len() ==> spec_site_prune_part(
                #[trigger] committed.drop_first()[i],
                pending,
                cfg,
            ) == Seq::<Seq<Seq<char>>>::empty()) by {
            assert(forall|i: int|
                0 <= i < committed.drop_first().len() ==> committed.drop_first()[i]
                    == #[trigger] committed[i + 1]);
        }
        lemma_site_prunes_all_kept(committed.drop_first(), pending, cfg);
        assert(spec_site_prunes(committed, pending, cfg) =~= Seq::<Seq<Seq<char>>>::empty());
    }
}

proof fn lemma_site_adds_all_matched(
    pending: Seq<BakeryCommands>,
    committed: Seq<BakeryCommands>,
    cfg: Config,
)
    requires
        forall|i: int|
            0 <= i < pending.len() ==> spec_site_add_part(#[trigger] pending[i], committed, cfg)
                == Seq::<Seq<Seq<char>>>::empty(),
    ensures
        spec_site_adds(pending, committed, cfg) == Seq::<Seq<Seq<char>>>::empty(),
    decreases pending.len(),
{
    if pending.len() > 0 {
        assert(spec_site_add_part(pending[0], committed, cfg) == Seq::<Seq<Seq<char>>>::empty());
        assert(forall|i: int|
            0 <= i < pending.drop_first().len() ==> spec_site_add_part(
                #[trigger] pending.drop_first()[i],
                committed,
                cfg,
            ) == Seq::<Seq<Seq<char>>>::empty()) by {
            assert(forall|i: int|
                0 <= i < pending.drop_first().len() ==> pending.drop_first()[i]
                    == #[trigger] pending[i + 1]);
        }
        lemma_site_adds_all_matched(pending.drop_first(), committed, cfg);
        assert(spec_site_adds(pending, committed, cfg) =~= Seq::<Seq<Seq<char>>>::empty());
    }
}

proof fn lemma_circuit_adds_all_matched(
    pending: Seq<BakeryCommands>,
    committed: Seq<BakeryCommands>,
    cfg: Config,
)
    requires
        forall|i: int|
            0 <= i < pending.len() ==> spec_circuit_add_part(#[trigger] pending[i], committed, cfg)
                == Seq::<Seq<Seq<char>>>::empty(),
    ensures
        spec_circuit_adds(pending, committed, cfg) == Seq::<Seq<Seq<char>>>::empty(),
    decreases pending.len(),
{
    if pending.len() > 0 {
        assert(spec_circuit_add_part(pending[0], committed, cfg) == Seq::<Seq<Seq<char>>>::empty());
        assert(forall|i: int|
            0 <= i < pending.drop_first().len() ==> spec_circuit_add_part(
                #[trigger] pending.drop_first()[i],
                committed,
                cfg,
            ) == Seq::<Seq<Seq<char>>>::empty()) by {
            assert(forall|i: int|
                0 <= i < pending.drop_first().len() ==> pending.drop_first()[i]
                    == #[trigger] pending[i + 1]);
        }
        lemma_circuit_adds_all_matched(pending.drop_first(), committed, cfg);
        assert(spec_circuit_adds(pending, committed, cfg) =~= Seq::<Seq<Seq<char>>>::empty());
    }
}

/// Diff minimality: committing a batch identical to the committed set
/// emits nothing at all.
pub proof fn lemma_diff_identity(cmds: Seq<BakeryCommands>, cfg: Config)
    ensures
        spec_diff(cmds, cmds, cfg) == Seq::<Seq<Seq<char>>>::empty(),
{
    assert forall|i: int| 0 <= i < cmds.len() implies spec_circuit_prune_part(
        #[trigger] cmds[i],
        cmds,
        cfg,
    ) == Seq::<Seq<Seq<char>>>::empty() by {
        match spec_circuit_key(cmds[i]) {
            Some(h) => {
                assert(spec_circuit_key(cmds[i]) == Some(h));
                assert(spec_has_circuit(cmds, h));
            },
            None => {},
        }
    }
    assert forall|i: int| 0 <= i < cmds.len() implies spec_site_prune_part(
        #[trigger] cmds[i],
        cmds,
        cfg,
    ) == Seq::<Seq<Seq<char>>>::empty() by {
        match spec_site_key(cmds[i]) {
            Some(h) => {
                assert(spec_site_key(cmds[i]) == Some(h));
                assert(spec_has_site(cmds, h));
            },
            None => {},
        }
    }
    assert forall|i: int| 0 <= i < cmds.len() implies spec_site_add_part(
        #[trigger] cmds[i],
        cmds,
        cfg,
    ) == Seq::<Seq<Seq<char>>>::empty() by {
        if cmds[i] is AddSite {
            assert(spec_cmd_matches(cmds[i], cmds[i]));
            assert(spec_matched_in(cmds, cmds[i]));
        }
    }
    assert forall|i: int| 0 <= i < cmds.len() implies spec_circuit_add_part(
        #[trigger] cmds[i],
        cmds,
        cfg,
    ) == Seq::<Seq<Seq<char>>>::empty() by {
        if cmds[i] is AddCircuit {
            assert(spec_cmd_matches(cmds[i], cmds[i]));
            assert(spec_matched_in(cmds, cmds[i]));
        }
    }
    lemma_circuit_prunes_all_kept(cmds, cmds, cfg);
    lemma_site_prunes_all_kept(cmds, cmds, cfg);
    lemma_site_adds_all_matched(cmds, cmds, cfg);
    lemma_circuit_adds_all_matched(cmds, cmds, cfg);
    assert(spec_diff(cmds, cmds, cfg) =~= Seq::<Seq<Seq<char>>>::empty());
}

/// Order correctness: a batch that adds a site and a child circuit onto an
/// empty committed set emits the site's commands strictly before the
/// circuit's.
pub proof fn lemma_site_precedes_circuit(site: BakeryCommands, circuit: BakeryCommands, cfg: Config)
    requires
        site is AddSite,
        circuit is AddCircuit,
    ensures
        spec_diff(Seq::<BakeryCommands>::empty(), seq![site, circuit], cfg) == opt_cmds(
            spec_to_commands(site, cfg, ExecutionMode::Builder),
        ) + opt_cmds(spec_to_commands(circuit, cfg, ExecutionMode::Builder)),
{
    let p = seq![site, circuit];
    let e = Seq::<BakeryCommands>::empty();
    assert(spec_circuit_prunes(e, p, cfg) =~= Seq::<Seq<Seq<char>>>::empty());
    assert(spec_site_prunes(e, p, cfg) =~= Seq::<Seq<Seq<char>>>::empty());
    assert(p.drop_first() =~= seq![circuit]);
    assert(seq![circuit].drop_first() =~= e);
    assert(!spec_matched_in(e, site));
    assert(!spec_matched_in(e, circuit));
    assert(p[0] == site && seq![circuit][0] == circuit);
    assert(spec_site_adds(e, e, cfg) == Seq::<Seq<Seq<char>>>::empty());
    assert(spec_circuit_adds(e, e, cfg) == Seq::<Seq<Seq<char>>>::empty());
    assert(spec_site_adds(seq![circuit], e, cfg) =~= Seq::<Seq<Seq<char>>>::empty());
    assert(spec_site_adds(p, e, cfg) =~= opt_cmds(
        spec_to_commands(site, cfg, ExecutionMode::Builder),
    ));
    assert(spec_circuit_adds(seq![circuit], e, cfg) =~= opt_cmds(
        spec_to_commands(circuit, cfg, ExecutionMode::Builder),
    ));
    assert(spec_circuit_adds(p, e, cfg) =~= opt_cmds(
        spec_to_commands(circuit, cfg, ExecutionMode::Builder),
    ));
    assert(spec_diff(e, p, cfg) =~= opt_cmds(spec_to_commands(site, cfg, ExecutionMode::Builder))
        + opt_cmds(spec_to_commands(circuit, cfg, ExecutionMode::Builder)));
}

} // verus!

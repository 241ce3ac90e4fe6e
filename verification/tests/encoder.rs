use lqos_bakery::{
    BakeryCommands, Config, ExecutionMode, LazyQueueMode, TcHandle, format_rate_for_tc,
    format_rate_for_tc_milli, quantum, r2q, sqm_rate_fixup,
};

fn test_config(on_a_stick: bool, lazy: Option<LazyQueueMode>) -> Config {
    Config {
        isp_interface: "eth0".to_string(),
        internet_interface: "eth1".to_string(),
        on_a_stick_mode: on_a_stick,
        uplink_bandwidth_mbps: 1000,
        downlink_bandwidth_mbps: 1000,
        lazy_queues: lazy,
        monitor_only: false,
        sqm: "cake diffserv4".to_string(),
    }
}

fn circuit_cmd() -> BakeryCommands {
    BakeryCommands::AddCircuit {
        circuit_hash: 7,
        parent_class_id: TcHandle::new(1, 10),
        up_parent_class_id: TcHandle::new(2, 10),
        class_minor: 5,
        download_bandwidth_min: 10_000,
        upload_bandwidth_min: 5_000,
        download_bandwidth_max: 100_000,
        upload_bandwidth_max: 50_000,
        class_major: 10,
        up_class_major: 11,
        ip_addresses: "192.0.2.1".to_string(),
    }
}

#[test]
fn rate_formatting_rounds_and_floors() {
    assert_eq!(format_rate_for_tc(0), "1mbit");
    assert_eq!(format_rate_for_tc(100), "100mbit");
    let low = (0.4_f32 * 1000.0) as u64;
    assert_eq!(format_rate_for_tc_milli(low), "1mbit");
    let high = (99.6_f32 * 1000.0) as u64;
    assert_eq!(format_rate_for_tc_milli(high), "100mbit");
}

#[test]
fn handle_rendering_is_unpadded_hex() {
    assert_eq!(TcHandle::new(1, 2).as_tc_string(), "0x1:0x2");
    assert_eq!(TcHandle::new(15, 255).as_tc_string(), "0xf:0xff");
}

#[test]
fn r2q_scales_with_capacity() {
    assert_eq!(r2q(0), 10);
    assert_eq!(r2q(16), 10);
    assert_eq!(r2q(1000), 625);
    assert_eq!(r2q(1_000_000), 65535);
}

#[test]
fn quantum_is_clamped() {
    assert_eq!(quantum(1000, 625), "200000");
    assert_eq!(quantum(1, 10), "12500");
    assert_eq!(quantum(0, 10), "1500");
    assert_eq!(quantum(100_000, 10), "200000");
}

#[test]
fn sqm_fixup_appends_low_rate_parameters() {
    let cfg = test_config(false, None);
    assert_eq!(sqm_rate_fixup(5_000, &cfg), vec!["cake", "diffserv4", "rtt", "300ms"]);
    assert_eq!(sqm_rate_fixup(50_000, &cfg), vec!["cake", "diffserv4"]);
    let mut fq = test_config(false, None);
    fq.sqm = "fq_codel".to_string();
    assert_eq!(sqm_rate_fixup(5_000, &fq), vec!["fq_codel", "quantum", "300"]);
}

#[test]
fn mq_setup_emits_24_commands_for_two_queues() {
    let cfg = test_config(false, None);
    let cmd = BakeryCommands::MqSetup { queues_available: 2, stick_offset: 0 };
    let out = cmd.to_commands(&cfg, ExecutionMode::Builder).unwrap();
    assert_eq!(out.len(), 24);
    assert_eq!(out[0], vec!["qdisc", "del", "dev", "eth0", "root"]);
    assert_eq!(out[1], vec!["qdisc", "del", "dev", "eth1", "root"]);
    assert_eq!(
        out[2],
        vec!["qdisc", "replace", "dev", "eth0", "root", "handle", "7FFF:", "mq"]
    );
    assert_eq!(
        out[3],
        vec!["qdisc", "add", "dev", "eth0", "parent", "7FFF:0x1", "handle", "0x1:", "htb", "default", "2"]
    );
    assert_eq!(
        out[4],
        vec![
            "class", "add", "dev", "eth0", "parent", "0x1:", "classid", "0x1:1", "htb", "rate",
            "1000mbit", "ceil", "1000mbit", "quantum", "200000"
        ]
    );
    assert_eq!(out[5], vec!["qdisc", "add", "dev", "eth0", "parent", "0x1:1", "cake", "diffserv4"]);
    assert_eq!(
        out[6],
        vec![
            "class", "add", "dev", "eth0", "parent", "0x1:1", "classid", "0x1:2", "htb", "rate",
            "249mbit", "ceil", "999mbit", "prio", "5", "quantum", "200000"
        ]
    );
    assert_eq!(out[7], vec!["qdisc", "add", "dev", "eth0", "parent", "0x1:2", "cake", "diffserv4"]);
    // Internet side starts after the two ISP queue blocks.
    assert_eq!(
        out[13],
        vec!["qdisc", "replace", "dev", "eth1", "root", "handle", "7FFF:", "mq"]
    );
    assert_eq!(
        out[19],
        vec!["qdisc", "add", "dev", "eth1", "parent", "7FFF:0x2", "handle", "0x2:", "htb", "default", "2"]
    );
}

#[test]
fn mq_setup_on_a_stick_uses_one_interface() {
    let cfg = test_config(true, None);
    let cmd = BakeryCommands::MqSetup { queues_available: 2, stick_offset: 2 };
    let out = cmd.to_commands(&cfg, ExecutionMode::Builder).unwrap();
    assert_eq!(out.len(), 2 + 10 * 2);
    let dels: Vec<_> = out.iter().filter(|c| c[1] == "del").collect();
    assert_eq!(dels.len(), 1);
    let replaces: Vec<_> = out.iter().filter(|c| c.contains(&"mq".to_string())).collect();
    assert_eq!(replaces.len(), 1);
    for c in &out {
        assert_eq!(c[2], "dev");
        assert_eq!(c[3], "eth0");
    }
    // The upload-side queue blocks are offset by the stick offset.
    assert_eq!(
        out[12],
        vec!["qdisc", "add", "dev", "eth0", "parent", "7FFF:0x3", "handle", "0x3:", "htb", "default", "2"]
    );
}

#[test]
fn add_site_emits_two_class_replaces() {
    let cfg = test_config(false, None);
    let cmd = BakeryCommands::AddSite {
        site_hash: 1,
        parent_class_id: TcHandle::new(1, 1),
        up_parent_class_id: TcHandle::new(1, 1),
        class_minor: 0x10,
        download_bandwidth_min: 100_000,
        upload_bandwidth_min: 50_000,
        download_bandwidth_max: 1_000_000,
        upload_bandwidth_max: 500_000,
    };
    let out = cmd.to_commands(&cfg, ExecutionMode::Builder).unwrap();
    assert_eq!(out.len(), 2);
    assert_eq!(
        out[0],
        vec![
            "class", "replace", "dev", "eth0", "parent", "0x1:0x1", "classid", "0x10", "htb",
            "rate", "100mbit", "ceil", "1000mbit", "prio", "3", "quantum", "200000"
        ]
    );
    assert_eq!(
        out[1],
        vec![
            "class", "replace", "dev", "eth1", "parent", "0x1:0x1", "classid", "0x10", "htb",
            "rate", "50mbit", "ceil", "500mbit", "prio", "3", "quantum", "100000"
        ]
    );
}

#[test]
fn add_circuit_live_update_htb_mode_emits_only_sqm() {
    let cfg = test_config(false, Some(LazyQueueMode::Htb));
    let out = circuit_cmd().to_commands(&cfg, ExecutionMode::LiveUpdate).unwrap();
    assert_eq!(out.len(), 2);
    assert_eq!(out[0][0], "qdisc");
    assert_eq!(out[0][1], "replace");
    assert_eq!(out[0][5], "0xa:0x5");
    assert_eq!(out[1][0], "qdisc");
    assert_eq!(out[1][1], "replace");
    assert_eq!(out[1][5], "0xb:0x5");
}

#[test]
fn add_circuit_builder_full_emits_nothing() {
    let cfg = test_config(false, Some(LazyQueueMode::Full));
    assert!(circuit_cmd().to_commands(&cfg, ExecutionMode::Builder).is_none());
}

#[test]
fn add_circuit_builder_htb_skips_sqm() {
    let cfg = test_config(false, Some(LazyQueueMode::Htb));
    let out = circuit_cmd().to_commands(&cfg, ExecutionMode::Builder).unwrap();
    assert_eq!(out.len(), 2);
    assert_eq!(out[0][0], "class");
    assert_eq!(out[1][0], "class");
}

#[test]
fn add_circuit_live_update_lazy_disabled_is_a_no_op() {
    let cfg = test_config(false, None);
    let out = circuit_cmd().to_commands(&cfg, ExecutionMode::LiveUpdate).unwrap();
    assert!(out.is_empty());
}

#[test]
fn monitor_only_suppresses_sqm() {
    let mut cfg = test_config(false, None);
    cfg.monitor_only = true;
    let out = circuit_cmd().to_commands(&cfg, ExecutionMode::Builder).unwrap();
    assert_eq!(out.len(), 2);
    assert!(out.iter().all(|c| c[0] == "class"));
}

#[test]
fn storm_guard_emits_one_class_change() {
    let cfg = test_config(false, None);
    let cmd = BakeryCommands::StormGuardAdjustment {
        dry_run: true,
        interface_name: "eth0".to_string(),
        class_id: "1:2".to_string(),
        new_rate: 500,
    };
    let out = cmd.to_commands(&cfg, ExecutionMode::LiveUpdate).unwrap();
    assert_eq!(out.len(), 1);
    assert_eq!(
        out[0],
        vec!["class", "change", "dev", "eth0", "classid", "1:2", "htb", "rate", "499mbit", "ceil", "500mbit"]
    );
}

#[test]
fn batch_control_commands_emit_nothing() {
    let cfg = test_config(false, None);
    assert!(BakeryCommands::StartBatch.to_commands(&cfg, ExecutionMode::Builder).is_none());
    assert!(BakeryCommands::CommitBatch.to_commands(&cfg, ExecutionMode::Builder).is_none());
    assert!(BakeryCommands::Tick.to_commands(&cfg, ExecutionMode::Builder).is_none());
}

#[test]
fn prune_force_inverts_a_full_build() {
    let cfg = test_config(false, None);
    let built = circuit_cmd().to_commands(&cfg, ExecutionMode::Builder).unwrap();
    assert_eq!(built.len(), 4);
    let pruned = circuit_cmd().to_prune(&cfg, true).unwrap();
    assert_eq!(pruned.len(), 4);
    // SQM deletions first (uplink then downlink), then the class deletions.
    assert_eq!(pruned[0], vec!["qdisc", "del", "dev", "eth1", "parent", "0xb:0x5"]);
    assert_eq!(pruned[1], vec!["qdisc", "del", "dev", "eth0", "parent", "0xa:0x5"]);
    assert_eq!(
        pruned[2],
        vec!["class", "del", "dev", "eth0", "parent", "0x1:0xa", "classid", "0x5"]
    );
    assert_eq!(
        pruned[3],
        vec!["class", "del", "dev", "eth1", "parent", "0x2:0xa", "classid", "0x5"]
    );
    // Each deletion targets a handle the build created.
    assert_eq!(built[1][5], pruned[1][5]);
    assert_eq!(built[3][5], pruned[0][5]);
}

#[test]
fn prune_without_force_respects_lazy_mode() {
    let none_cfg = test_config(false, None);
    assert!(circuit_cmd().to_prune(&none_cfg, false).is_none());
    let htb_cfg = test_config(false, Some(LazyQueueMode::Htb));
    let out = circuit_cmd().to_prune(&htb_cfg, false).unwrap();
    assert_eq!(out.len(), 2);
    assert!(out.iter().all(|c| c[0] == "qdisc" && c[1] == "del"));
    let full_cfg = test_config(false, Some(LazyQueueMode::Full));
    assert_eq!(circuit_cmd().to_prune(&full_cfg, false).unwrap().len(), 4);
}

#[test]
fn prune_on_non_circuit_is_none() {
    let cfg = test_config(false, None);
    assert!(BakeryCommands::Tick.to_prune(&cfg, true).is_none());
}

use lqos_bakery::{
    BakeryCommands, BakeryError, BatchEngine, CircuitAdjustment, Config, LazyQueueMode,
    NetworkAdjustment, OverrideFile, ShapedDevice, TcHandle,
};

fn engine_config() -> Config {
    Config {
        isp_interface: "eth0".to_string(),
        internet_interface: "eth1".to_string(),
        on_a_stick_mode: false,
        uplink_bandwidth_mbps: 1000,
        downlink_bandwidth_mbps: 1000,
        lazy_queues: None,
        monitor_only: false,
        sqm: "cake diffserv4".to_string(),
    }
}

fn site_cmd() -> BakeryCommands {
    BakeryCommands::AddSite {
        site_hash: 1,
        parent_class_id: TcHandle::new(1, 1),
        up_parent_class_id: TcHandle::new(1, 1),
        class_minor: 0x10,
        download_bandwidth_min: 100_000,
        upload_bandwidth_min: 50_000,
        download_bandwidth_max: 1_000_000,
        upload_bandwidth_max: 500_000,
    }
}

fn child_circuit_cmd() -> BakeryCommands {
    BakeryCommands::AddCircuit {
        circuit_hash: 2,
        parent_class_id: TcHandle::new(1, 0x10),
        up_parent_class_id: TcHandle::new(1, 0x10),
        class_minor: 0x11,
        download_bandwidth_min: 10_000,
        upload_bandwidth_min: 5_000,
        download_bandwidth_max: 100_000,
        upload_bandwidth_max: 50_000,
        class_major: 1,
        up_class_major: 1,
        ip_addresses: "192.0.2.9".to_string(),
    }
}

#[test]
fn commit_without_start_is_invalid_state() {
    let mut engine = BatchEngine::new();
    let cfg = engine_config();
    assert_eq!(engine.commit_batch(&cfg), Err(BakeryError::InvalidState));
}

#[test]
fn double_start_is_invalid_state() {
    let mut engine = BatchEngine::new();
    assert!(engine.start_batch().is_ok());
    assert_eq!(engine.start_batch(), Err(BakeryError::InvalidState));
}

#[test]
fn aborting_a_batch_discards_it() {
    let mut engine = BatchEngine::new();
    let cfg = engine_config();
    assert_eq!(engine.abort_batch(), Err(BakeryError::InvalidState));
    engine.start_batch().unwrap();
    engine.enqueue(site_cmd(), &cfg).unwrap();
    assert_eq!(engine.abort_batch(), Ok(()));
    // Nothing was committed: a live change finds no site.
    assert!(engine.change_site_speed_live(&cfg, 1, 1, 1, 1, 1).is_none());
}

#[test]
fn identical_batch_emits_nothing() {
    let mut engine = BatchEngine::new();
    let cfg = engine_config();
    engine.start_batch().unwrap();
    assert_eq!(engine.enqueue(site_cmd(), &cfg), Ok(None));
    assert_eq!(engine.enqueue(child_circuit_cmd(), &cfg), Ok(None));
    let first = engine.commit_batch(&cfg).unwrap();
    assert!(!first.is_empty());
    engine.start_batch().unwrap();
    engine.enqueue(site_cmd(), &cfg).unwrap();
    engine.enqueue(child_circuit_cmd(), &cfg).unwrap();
    let second = engine.commit_batch(&cfg).unwrap();
    assert_eq!(second.len(), 0);
}

#[test]
fn site_commands_precede_child_circuit_commands() {
    let mut engine = BatchEngine::new();
    let cfg = engine_config();
    engine.start_batch().unwrap();
    engine.enqueue(child_circuit_cmd(), &cfg).unwrap();
    engine.enqueue(site_cmd(), &cfg).unwrap();
    let out = engine.commit_batch(&cfg).unwrap();
    // Two site classes, then the circuit's two classes and two SQM leaves.
    assert_eq!(out.len(), 6);
    assert_eq!(out[0][0], "class");
    assert_eq!(out[0][7], "0x10");
    assert_eq!(out[1][7], "0x10");
    assert_eq!(out[2][7], "0x11");
}

#[test]
fn removed_circuit_and_site_are_pruned_in_order() {
    let mut engine = BatchEngine::new();
    let cfg = engine_config();
    engine.start_batch().unwrap();
    engine.enqueue(site_cmd(), &cfg).unwrap();
    engine.enqueue(child_circuit_cmd(), &cfg).unwrap();
    engine.commit_batch(&cfg).unwrap();
    engine.start_batch().unwrap();
    let out = engine.commit_batch(&cfg).unwrap();
    // Circuit prune (two qdisc dels, two class dels), then the site's two
    // class dels.
    assert_eq!(out.len(), 6);
    assert_eq!(out[0][0], "qdisc");
    assert_eq!(out[1][0], "qdisc");
    assert_eq!(out[2][0], "class");
    assert_eq!(out[2][7], "0x11");
    assert_eq!(out[4][7], "0x10");
    assert_eq!(out[5][7], "0x10");
}

#[test]
fn rate_changed_site_is_reemitted_children_untouched() {
    let mut engine = BatchEngine::new();
    let cfg = engine_config();
    engine.start_batch().unwrap();
    engine.enqueue(site_cmd(), &cfg).unwrap();
    engine.enqueue(child_circuit_cmd(), &cfg).unwrap();
    engine.commit_batch(&cfg).unwrap();
    engine.start_batch().unwrap();
    let faster = BakeryCommands::AddSite {
        site_hash: 1,
        parent_class_id: TcHandle::new(1, 1),
        up_parent_class_id: TcHandle::new(1, 1),
        class_minor: 0x10,
        download_bandwidth_min: 200_000,
        upload_bandwidth_min: 50_000,
        download_bandwidth_max: 1_000_000,
        upload_bandwidth_max: 500_000,
    };
    engine.enqueue(faster, &cfg).unwrap();
    engine.enqueue(child_circuit_cmd(), &cfg).unwrap();
    let out = engine.commit_batch(&cfg).unwrap();
    assert_eq!(out.len(), 2);
    assert_eq!(out[0][9], "rate");
    assert_eq!(out[0][10], "200mbit");
}

#[test]
fn commands_outside_a_batch_are_encoded_immediately() {
    let mut engine = BatchEngine::new();
    let mut cfg = engine_config();
    cfg.lazy_queues = Some(LazyQueueMode::Full);
    // A live update under full laziness materialises everything.
    let out = engine.enqueue(child_circuit_cmd(), &cfg).unwrap().unwrap();
    assert_eq!(out.len(), 4);
    let storm = BakeryCommands::StormGuardAdjustment {
        dry_run: false,
        interface_name: "eth0".to_string(),
        class_id: "1:2".to_string(),
        new_rate: 100,
    };
    let out = engine.enqueue(storm, &cfg).unwrap().unwrap();
    assert_eq!(out.len(), 1);
    assert_eq!(out[0][1], "change");
}

#[test]
fn inverted_rates_are_rejected() {
    let mut engine = BatchEngine::new();
    let cfg = engine_config();
    engine.start_batch().unwrap();
    let bad = BakeryCommands::AddSite {
        site_hash: 9,
        parent_class_id: TcHandle::new(1, 1),
        up_parent_class_id: TcHandle::new(1, 1),
        class_minor: 0x20,
        download_bandwidth_min: 2_000_000,
        upload_bandwidth_min: 50_000,
        download_bandwidth_max: 1_000_000,
        upload_bandwidth_max: 500_000,
    };
    assert_eq!(engine.enqueue(bad, &cfg), Err(BakeryError::InvalidTopology));
}

#[test]
fn duplicate_hash_in_batch_is_rejected() {
    let mut engine = BatchEngine::new();
    let cfg = engine_config();
    engine.start_batch().unwrap();
    engine.enqueue(site_cmd(), &cfg).unwrap();
    assert_eq!(engine.enqueue(site_cmd(), &cfg), Err(BakeryError::InvalidTopology));
}

#[test]
fn change_site_speed_live_uses_committed_handles() {
    let mut engine = BatchEngine::new();
    let cfg = engine_config();
    engine.start_batch().unwrap();
    engine.enqueue(site_cmd(), &cfg).unwrap();
    engine.commit_batch(&cfg).unwrap();
    let out = engine.change_site_speed_live(&cfg, 1, 200_000, 80_000, 900_000, 400_000).unwrap();
    assert_eq!(out.len(), 2);
    assert_eq!(
        out[0],
        vec![
            "class", "change", "dev", "eth0", "parent", "0x1:0x1", "classid", "0x10", "htb",
            "rate", "200mbit", "ceil", "900mbit", "prio", "3", "quantum", "180000"
        ]
    );
    assert_eq!(out[1][1], "change");
    assert_eq!(out[1][10], "80mbit");
    assert!(engine.change_site_speed_live(&cfg, 42, 1, 1, 1, 1).is_none());
}

fn device(device_id: &str, circuit_id: &str) -> ShapedDevice {
    ShapedDevice {
        circuit_id: circuit_id.to_string(),
        circuit_name: "Circuit One".to_string(),
        device_id: device_id.to_string(),
        device_name: "Device One".to_string(),
        parent_node: "root".to_string(),
        ip_addresses: "192.0.2.1".to_string(),
        download_min: 10_000,
        download_max: 100_000,
        upload_min: 5_000,
        upload_max: 50_000,
    }
}

#[test]
fn adding_an_identical_device_reports_no_change() {
    let mut file = OverrideFile::new();
    assert!(file.add_persistent_shaped_device_return_changed(device("d1", "c1")));
    assert!(!file.add_persistent_shaped_device_return_changed(device("d1", "c1")));
    assert_eq!(file.persistent_devices().len(), 1);
}

#[test]
fn adding_a_modified_device_replaces_it() {
    let mut file = OverrideFile::new();
    file.add_persistent_shaped_device_return_changed(device("d1", "c1"));
    let mut changed = device("d1", "c1");
    changed.download_max = 200_000;
    assert!(file.add_persistent_shaped_device_return_changed(changed));
    assert_eq!(file.persistent_devices().len(), 1);
    assert_eq!(file.persistent_devices()[0].download_max, 200_000);
}

#[test]
fn removal_by_circuit_counts_matches() {
    let mut file = OverrideFile::new();
    file.add_persistent_shaped_device_return_changed(device("d1", "c1"));
    file.add_persistent_shaped_device_return_changed(device("d2", "c1"));
    file.add_persistent_shaped_device_return_changed(device("d3", "c2"));
    assert_eq!(file.remove_persistent_shaped_device_by_circuit_count(&"c1".to_string()), 2);
    assert_eq!(file.persistent_devices().len(), 1);
    assert_eq!(file.remove_persistent_shaped_device_by_circuit_count(&"c9".to_string()), 0);
}

#[test]
fn removal_by_device_counts_matches() {
    let mut file = OverrideFile::new();
    file.add_persistent_shaped_device_return_changed(device("d1", "c1"));
    file.add_persistent_shaped_device_return_changed(device("d2", "c1"));
    assert_eq!(file.remove_persistent_shaped_device_by_device_count(&"d2".to_string()), 1);
    assert_eq!(file.persistent_devices().len(), 1);
    assert_eq!(file.persistent_devices()[0].device_id, "d1");
}

#[test]
fn adjustment_lists_add_and_remove_by_index() {
    let mut file = OverrideFile::new();
    file.add_circuit_adjustment(CircuitAdjustment::RemoveCircuit { circuit_id: "c1".to_string() });
    file.add_circuit_adjustment(CircuitAdjustment::ReparentCircuit {
        circuit_id: "c2".to_string(),
        parent_node: "siteB".to_string(),
    });
    assert_eq!(file.circuit_adjustments().len(), 2);
    assert!(!file.remove_circuit_adjustment_by_index(2));
    assert!(file.remove_circuit_adjustment_by_index(0));
    assert_eq!(file.circuit_adjustments().len(), 1);
    assert!(matches!(
        file.circuit_adjustments()[0],
        CircuitAdjustment::ReparentCircuit { .. }
    ));

    file.add_network_adjustment(NetworkAdjustment::AdjustSiteSpeed {
        site_name: "siteA".to_string(),
        download_bandwidth_mbps: Some(500),
        upload_bandwidth_mbps: None,
    });
    assert_eq!(file.network_adjustments().len(), 1);
    assert!(file.remove_network_adjustment_by_index(0));
    assert!(!file.remove_network_adjustment_by_index(0));
}

use lqos_bakery::{
    CatalogDevice, SearchCatalog, SearchResult, TrieEntry, net_to_string, parse_cidr,
    parse_cidr4, parse_cidr6, parse_ip, parse_ipv4, parse_ipv6, search, v4_to_v6,
};

fn small_catalog() -> SearchCatalog {
    // ::ffff:10.1.0.0/112 is 10.1.0.0/16 mapped into IPv6 space.
    let net_10_1 = v4_to_v6((10u32 << 24) | (1 << 16));
    let net_192 = v4_to_v6((192u32 << 24) | (0 << 16) | (2 << 8));
    SearchCatalog {
        devices: vec![
            CatalogDevice {
                circuit_id: "circ-1".to_string(),
                circuit_name: "Maple Street".to_string(),
                device_name: "router-a".to_string(),
            },
            CatalogDevice {
                circuit_id: "circ-2".to_string(),
                circuit_name: "Oak Avenue".to_string(),
                device_name: "router-b".to_string(),
            },
        ],
        trie: vec![
            TrieEntry { address: net_10_1, prefix: 112, device_index: 0 },
            TrieEntry { address: net_192, prefix: 120, device_index: 1 },
        ],
        site_names: vec!["Downtown".to_string(), "Uptown Maple".to_string()],
    }
}

#[test]
fn parse_ipv4_accepts_dotted_quads_only() {
    assert_eq!(parse_ipv4("10.1.2.3"), Some((10 << 24) | (1 << 16) | (2 << 8) | 3));
    assert_eq!(parse_ipv4("0.0.0.0"), Some(0));
    assert_eq!(parse_ipv4("255.255.255.255"), Some(u32::MAX));
    assert_eq!(parse_ipv4("256.1.1.1"), None);
    assert_eq!(parse_ipv4("10.1.2"), None);
    assert_eq!(parse_ipv4("10.1.2.3.4"), None);
    assert_eq!(parse_ipv4("10.01.2.3"), None);
    assert_eq!(parse_ipv4("10.1.2."), None);
    assert_eq!(parse_ipv4("ten.one.two.three"), None);
}

#[test]
fn parse_cidr4_bounds_the_prefix() {
    assert_eq!(parse_cidr4("10.1.0.0/16"), Some(((10 << 24) | (1 << 16), 16)));
    assert_eq!(parse_cidr4("10.1.0.0/33"), None);
    assert_eq!(parse_cidr4("10.1.0.0"), None);
    assert_eq!(parse_cidr4("10.1.0.0/16/8"), None);
}

#[test]
fn parse_ipv6_accepts_standard_forms() {
    assert_eq!(parse_ipv6("::"), Some(0));
    assert_eq!(parse_ipv6("::1"), Some(1));
    assert_eq!(parse_ipv6("1::"), Some(1u128 << 112));
    assert_eq!(parse_ipv6("fe80::1"), Some((0xfe80u128 << 112) | 1));
    assert_eq!(
        parse_ipv6("1:2:3:4:5:6:7:8"),
        Some(
            (1u128 << 112) | (2 << 96) | (3 << 80) | (4 << 64) | (5 << 48) | (6 << 32)
                | (7 << 16) | 8
        )
    );
    assert_eq!(
        parse_ipv6("1:2:3:4:5:6:7::"),
        Some((1u128 << 112) | (2 << 96) | (3 << 80) | (4 << 64) | (5 << 48) | (6 << 32) | (7 << 16))
    );
    assert_eq!(parse_ipv6("::ffff:10.1.0.0"), Some(0xffff_0a01_0000));
    assert_eq!(parse_ipv6("ABCD::ef"), Some((0xabcdu128 << 112) | 0xef));
}

#[test]
fn parse_ipv6_rejects_malformed_forms() {
    assert_eq!(parse_ipv6(""), None);
    assert_eq!(parse_ipv6(":"), None);
    assert_eq!(parse_ipv6(":::"), None);
    assert_eq!(parse_ipv6("1:2"), None);
    assert_eq!(parse_ipv6(":1"), None);
    assert_eq!(parse_ipv6("1:"), None);
    assert_eq!(parse_ipv6("1::2::3"), None);
    assert_eq!(parse_ipv6("g::1"), None);
    assert_eq!(parse_ipv6("12345::"), None);
    assert_eq!(parse_ipv6("1:2:3:4:5:6:7:8:9"), None);
    assert_eq!(parse_ipv6("1:2:3:4:5:6:7:8::"), None);
    assert_eq!(parse_ipv6("10.1.2.3"), None);
}

#[test]
fn parse_ip_handles_both_families() {
    assert_eq!(parse_ip("10.1.2.3"), Some(v4_to_v6((10 << 24) | (1 << 16) | (2 << 8) | 3)));
    assert_eq!(parse_ip("::1"), Some(1));
    assert_eq!(parse_ip("router"), None);
}

#[test]
fn parse_cidr_handles_both_families() {
    assert_eq!(parse_cidr("10.1.0.0/16"), Some((v4_to_v6((10 << 24) | (1 << 16)), 112)));
    assert_eq!(parse_cidr6("fe80::/64"), Some((0xfe80u128 << 112, 64)));
    assert_eq!(parse_cidr("fe80::/64"), Some((0xfe80u128 << 112, 64)));
    assert_eq!(parse_cidr6("fe80::/129"), None);
    assert_eq!(parse_cidr("fe80::"), None);
}

#[test]
fn exact_ipv6_match_returns_the_device_first() {
    let mut catalog = small_catalog();
    catalog.trie.push(TrieEntry { address: 0xfe80u128 << 112, prefix: 64, device_index: 1 });
    let results = search(&catalog, &"fe80::1".to_string());
    assert!(!results.is_empty());
    match &results[0] {
        SearchResult::Device { circuit_id, name, .. } => {
            assert_eq!(circuit_id, "circ-2");
            assert_eq!(name, "router-b (fe80:0:0:0:0:0:0:0/64)");
        },
        other => panic!("expected a device, got {:?}", other),
    }
}

#[test]
fn ipv6_cidr_search_matches_overlapping_networks() {
    let mut catalog = small_catalog();
    catalog.trie.push(TrieEntry { address: 0xfe80u128 << 112, prefix: 64, device_index: 1 });
    let results = search(&catalog, &"fe80::/64".to_string());
    assert_eq!(results.len(), 1);
    match &results[0] {
        SearchResult::Device { circuit_id, .. } => assert_eq!(circuit_id, "circ-2"),
        other => panic!("expected a device, got {:?}", other),
    }
}

#[test]
fn mapped_networks_render_as_dotted_quads() {
    let net = v4_to_v6((10u32 << 24) | (1 << 16));
    assert_eq!(net_to_string(net, 112), "10.1.0.0/16");
    assert_eq!(net_to_string(1, 128), "0:0:0:0:0:0:0:1/128");
}

#[test]
fn exact_ip_match_returns_the_device_first() {
    let catalog = small_catalog();
    let results = search(&catalog, &"10.1.2.3".to_string());
    assert!(!results.is_empty());
    match &results[0] {
        SearchResult::Device { circuit_id, name, circuit_name } => {
            assert_eq!(circuit_id, "circ-1");
            assert_eq!(circuit_name, "Maple Street");
            assert_eq!(name, "router-a (10.1.0.0/16)");
        },
        other => panic!("expected a device, got {:?}", other),
    }
}

#[test]
fn longest_prefix_wins() {
    let mut catalog = small_catalog();
    // A broader route over the same space, pointing at the other device.
    catalog.trie.push(TrieEntry { address: v4_to_v6(10 << 24), prefix: 104, device_index: 1 });
    let results = search(&catalog, &"10.1.2.3".to_string());
    match &results[0] {
        SearchResult::Device { circuit_id, .. } => assert_eq!(circuit_id, "circ-1"),
        other => panic!("expected a device, got {:?}", other),
    }
}

#[test]
fn cidr_search_matches_overlapping_networks() {
    let catalog = small_catalog();
    let results = search(&catalog, &"10.1.0.0/16".to_string());
    assert_eq!(results.len(), 1);
    match &results[0] {
        SearchResult::Device { circuit_id, .. } => assert_eq!(circuit_id, "circ-1"),
        other => panic!("expected a device, got {:?}", other),
    }
}

#[test]
fn textual_prefix_search_matches_rendered_networks() {
    let catalog = small_catalog();
    let results = search(&catalog, &"10.1.".to_string());
    assert_eq!(results.len(), 1);
    match &results[0] {
        SearchResult::Device { name, .. } => assert_eq!(name, "router-a (10.1.0.0/16)"),
        other => panic!("expected a device, got {:?}", other),
    }
}

#[test]
fn name_search_is_case_insensitive_and_spans_kinds() {
    let catalog = small_catalog();
    let results = search(&catalog, &"MAPLE".to_string());
    // The circuit by circuit name, and the site whose name contains it.
    assert_eq!(results.len(), 2);
    assert!(matches!(&results[0], SearchResult::Circuit { id, .. } if id == "circ-1"));
    assert!(matches!(&results[1], SearchResult::Site { idx: 1, .. }));
}

#[test]
fn device_name_search_returns_devices() {
    let catalog = small_catalog();
    let results = search(&catalog, &"router".to_string());
    assert_eq!(results.len(), 2);
    assert!(results.iter().all(|r| matches!(r, SearchResult::Device { .. })));
}

#[test]
fn short_terms_match_nothing() {
    let catalog = small_catalog();
    assert!(search(&catalog, &"ro".to_string()).is_empty());
}

#[test]
fn short_ip_terms_still_hit_the_table() {
    let mut catalog = small_catalog();
    catalog.trie.push(TrieEntry { address: 0, prefix: 0, device_index: 1 });
    let results = search(&catalog, &"::".to_string());
    assert_eq!(results.len(), 1);
    assert!(matches!(&results[0], SearchResult::Device { circuit_id, .. } if circuit_id == "circ-2"));
}

#[test]
fn results_are_capped_and_deduplicated() {
    let mut catalog = SearchCatalog { devices: vec![], trie: vec![], site_names: vec![] };
    for i in 0..60 {
        catalog.devices.push(CatalogDevice {
            circuit_id: format!("c{}", i),
            circuit_name: format!("shared name {}", i),
            device_name: format!("shared dev {}", i),
        });
    }
    let results = search(&catalog, &"shared".to_string());
    assert_eq!(results.len(), 50);
    let mut keys: Vec<String> = results
        .iter()
        .map(|r| match r {
            SearchResult::Circuit { id, .. } => format!("Circuit:{}", id),
            SearchResult::Device { circuit_id, name, .. } => {
                format!("Device:{}:{}", circuit_id, name)
            },
            SearchResult::Site { idx, .. } => format!("Site:{}", idx),
        })
        .collect();
    let before = keys.len();
    keys.sort();
    keys.dedup();
    assert_eq!(keys.len(), before);
}

#[test]
fn duplicate_hits_are_reported_once() {
    let mut catalog = small_catalog();
    // A second route to the same device: the substring pass would find the
    // device again by name, but the key keeps it unique.
    catalog.devices[0].device_name = "maple box".to_string();
    let results = search(&catalog, &"maple".to_string());
    // Circuit "Maple Street", device "maple box", site "Uptown Maple".
    assert_eq!(results.len(), 3);
}

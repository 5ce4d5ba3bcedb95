use pia_wg::catalog::{
    catalog_json_prefix, plan_connection, region_at, resolve_port, select_region, sort_regions,
    GroupDetails, ProtocolGroup, Region, ServerDetails, ServerGroup,
};
use pia_wg::config::{config_file_name, Config, KeyStatus};
use pia_wg::error::ProvisionError;
use pia_wg::keys::Keypair;
use pia_wg::net::{Endpoint, IpAddress};

const ALICE_PRIVATE: [u8; 32] = [
    119, 7, 109, 10, 115, 24, 165, 125, 60, 22, 193, 114, 81, 178, 102, 69, 223, 76, 47, 135, 235,
    192, 153, 42, 177, 119, 251, 165, 29, 185, 44, 42,
];
const ALICE_PRIVATE_TEXT: &str = "dwdtCnMYpX08FsFyUbJmRd9ML4frwJkqsXf7pR25LCo=";
const ALICE_PUBLIC_TEXT: &str = "hSDwCYkwp1R0i33ctD73Wg2/Og0mOBr066SpjqqbTmo=";
const BOB_PRIVATE: [u8; 32] = [
    222, 158, 219, 125, 123, 125, 193, 180, 211, 91, 97, 194, 236, 228, 53, 55, 63, 131, 67, 200,
    91, 120, 103, 77, 173, 252, 126, 20, 111, 136, 43, 79,
];
const BOB_PRIVATE_TEXT: &str = "3p7bfXt9wbTTW2HC7OQ1Nz+DQ8hbeGdNrfx+FG+IK08=";

fn group(name: &str, ports: Vec<Vec<i32>>) -> ProtocolGroup {
    ProtocolGroup {
        name: name.to_string(),
        entries: ports.into_iter().map(|p| GroupDetails { ports: p }).collect(),
    }
}

fn server(ip: [u8; 4], cn: &str) -> ServerDetails {
    ServerDetails { ip: IpAddress::V4(ip), cn: cn.to_string() }
}

fn region(id: &str, offline: bool, servers: Vec<ServerGroup>) -> Region {
    Region {
        id: id.to_string(),
        name: format!("Region {}", id),
        port_forward: false,
        offline,
        servers,
    }
}

fn wg_region(id: &str, offline: bool) -> Region {
    region(
        id,
        offline,
        vec![ServerGroup { name: "wg".to_string(), servers: vec![server([10, 0, 0, 1], "east401")] }],
    )
}

fn ids(regions: &[Region]) -> Vec<String> {
    regions.iter().map(|r| r.id.clone()).collect()
}

fn status(status: &str, server_key: &str, port: i32, message: Option<&str>) -> KeyStatus {
    KeyStatus {
        status: status.to_string(),
        server_key: server_key.to_string(),
        server_port: port,
        server_ip: IpAddress::V4([203, 0, 113, 7]),
        server_vip: "10.1.0.1".to_string(),
        peer_ip: IpAddress::V4([10, 7, 0, 2]),
        dns_servers: vec!["10.0.0.242".to_string(), "10.0.0.243".to_string()],
        message: message.map(|m| m.to_string()),
    }
}

#[test]
fn catalog_prefix_ignores_trailer() {
    let prefix = catalog_json_prefix("{\"regions\":[]}\nBASE64GARBAGE").unwrap();
    assert_eq!(prefix, "{\"regions\":[]}");
    let value: serde_json::Value = serde_json::from_str(prefix).unwrap();
    assert_eq!(value["regions"].as_array().unwrap().len(), 0);
}

#[test]
fn catalog_prefix_stops_at_first_newline() {
    assert_eq!(catalog_json_prefix("{}\nA\nB").unwrap(), "{}");
    assert_eq!(catalog_json_prefix("\ntrailer").unwrap(), "");
}

#[test]
fn catalog_prefix_without_newline_fails() {
    assert!(matches!(catalog_json_prefix("{\"regions\":[]}"), Err(ProvisionError::CatalogParse(_))));
}

#[test]
fn port_is_first_of_tunnel_group() {
    let groups = vec![
        group("ovpntcp", vec![vec![80, 443]]),
        group("wg", vec![vec![1337, 51820], vec![9999]]),
    ];
    assert_eq!(resolve_port(&groups).unwrap(), 1337);
}

#[test]
fn port_missing_group_fails() {
    let groups = vec![group("ovpntcp", vec![vec![80]]), group("wgx", vec![vec![1]])];
    assert!(matches!(resolve_port(&groups), Err(ProvisionError::PortResolution)));
}

#[test]
fn port_empty_group_fails() {
    assert!(matches!(resolve_port(&vec![group("wg", vec![])]), Err(ProvisionError::PortResolution)));
    assert!(matches!(
        resolve_port(&vec![group("wg", vec![vec![]])]),
        Err(ProvisionError::PortResolution)
    ));
}

#[test]
fn region_selected_by_exact_id() {
    let regions = vec![wg_region("us-east2", false), wg_region("us-east", false)];
    let r = select_region(regions, "us-east").unwrap();
    assert_eq!(r.id, "us-east");
}

#[test]
fn region_partial_id_not_found() {
    let regions = vec![wg_region("us-east", false)];
    match select_region(regions, "us") {
        Err(ProvisionError::RegionNotFound(id)) => assert_eq!(id, "us"),
        other => panic!("unexpected {:?}", other),
    }
}

#[test]
fn offline_region_is_refused() {
    match plan_connection(wg_region("de-berlin", true), 1337) {
        Err(ProvisionError::RegionOffline(id)) => assert_eq!(id, "de-berlin"),
        other => panic!("unexpected {:?}", other),
    }
}

#[test]
fn region_without_tunnel_server_fails() {
    let r = region(
        "uk",
        false,
        vec![ServerGroup { name: "ovpnudp".to_string(), servers: vec![server([1, 2, 3, 4], "x")] }],
    );
    assert!(matches!(plan_connection(r, 1337), Err(ProvisionError::RegionNotFound(_))));
    let empty = region("uk", false, vec![ServerGroup { name: "wg".to_string(), servers: vec![] }]);
    assert!(matches!(plan_connection(empty, 1337), Err(ProvisionError::RegionNotFound(_))));
}

#[test]
fn port_out_of_range_fails_transport() {
    assert!(matches!(
        plan_connection(wg_region("us-east", false), 70000),
        Err(ProvisionError::TransportBuild(_))
    ));
    assert!(matches!(
        plan_connection(wg_region("us-east", false), -1),
        Err(ProvisionError::TransportBuild(_))
    ));
}

#[test]
fn plan_pins_first_tunnel_server() {
    let r = region(
        "us-east",
        false,
        vec![
            ServerGroup { name: "ovpnudp".to_string(), servers: vec![server([9, 9, 9, 9], "other")] },
            ServerGroup {
                name: "wg".to_string(),
                servers: vec![server([10, 0, 0, 1], "east401"), server([10, 0, 0, 2], "east402")],
            },
        ],
    );
    let plan = plan_connection(r, 1337).unwrap();
    assert_eq!(plan.host, "east401");
    assert_eq!(plan.region.id, "us-east");
    assert_eq!(plan.address.port, 1337);
    assert!(matches!(plan.address.ip, IpAddress::V4([10, 0, 0, 1])));
}

#[test]
fn regions_sorted_by_id() {
    let regions = vec![
        wg_region("us-west", false),
        wg_region("ar", false),
        wg_region("us-east", false),
        wg_region("Zz", false),
    ];
    let sorted = sort_regions(regions);
    assert_eq!(ids(&sorted), vec!["Zz", "ar", "us-east", "us-west"]);
}

#[test]
fn region_sort_is_repeatable() {
    let make = || vec![wg_region("c", false), wg_region("a", false), wg_region("b", false)];
    let first = ids(&sort_regions(make()));
    let second = ids(&sort_regions(make()));
    assert_eq!(first, second);
    let again = ids(&sort_regions(sort_regions(make())));
    assert_eq!(first, again);
    assert!(sort_regions(vec![]).is_empty());
}

#[test]
fn region_at_index() {
    let regions = vec![wg_region("a", false), wg_region("b", false)];
    assert_eq!(region_at(regions, 1).unwrap().id, "b");
    assert!(region_at(vec![wg_region("a", false)], 1).is_none());
}

#[test]
fn public_key_derived_from_private() {
    let keys = Keypair::from_private(ALICE_PRIVATE);
    assert_eq!(keys.public_text(), ALICE_PUBLIC_TEXT);
    let fresh = Keypair::generate();
    assert_eq!(Keypair::from_private(fresh.private).public, fresh.public);
}

#[test]
fn rejected_key_keeps_message() {
    let keys = Keypair::from_private(ALICE_PRIVATE);
    let err = Config::new(keys, status("ERROR", BOB_PRIVATE_TEXT, 1337, Some("Login failed!")))
        .unwrap_err();
    match &err {
        ProvisionError::KeyExchangeRejected(Some(m)) => assert_eq!(m, "Login failed!"),
        other => panic!("unexpected {:?}", other),
    }
    assert_eq!(err.describe(), "Error creating private key: Login failed!");
}

#[test]
fn rejected_key_without_message() {
    let keys = Keypair::from_private(ALICE_PRIVATE);
    let err = Config::new(keys, status("ok", BOB_PRIVATE_TEXT, 1337, None)).unwrap_err();
    assert!(matches!(err, ProvisionError::KeyExchangeRejected(None)));
    assert_eq!(err.describe(), "Error creating private key: no message");
}

#[test]
fn invalid_server_key_is_malformed_answer() {
    let keys = Keypair::from_private(ALICE_PRIVATE);
    let err = Config::new(keys, status("OK", "not a key", 1337, None)).unwrap_err();
    assert!(matches!(err, ProvisionError::ExitServerResponse(_)));
}

#[test]
fn invalid_server_port_is_malformed_answer() {
    let keys = Keypair::from_private(ALICE_PRIVATE);
    let err = Config::new(keys, status("OK", BOB_PRIVATE_TEXT, 65536, None)).unwrap_err();
    assert!(matches!(err, ProvisionError::ExitServerResponse(_)));
}

#[test]
fn accepted_key_builds_config() {
    let keys = Keypair::from_private(ALICE_PRIVATE);
    let config = Config::new(keys, status("OK", BOB_PRIVATE_TEXT, 1337, None)).unwrap();
    assert_eq!(config.private_key, ALICE_PRIVATE);
    assert_eq!(config.public_key, BOB_PRIVATE);
    assert_eq!(config.allowed_ips, "0.0.0.0/0");
    assert_eq!(config.endpoint.port, 1337);
    assert_eq!(config.api, "10.1.0.1");
}

#[test]
fn rendered_config_text() {
    let keys = Keypair::from_private(ALICE_PRIVATE);
    let config = Config::new(keys, status("OK", BOB_PRIVATE_TEXT, 1337, None)).unwrap();
    let expected = format!(
        "[Interface]\nPrivateKey = {}\nAddress = 10.7.0.2\nDNS = 10.0.0.242,10.0.0.243\n\n[Peer]\nPublicKey = {}\nAllowedIPs = 0.0.0.0/0\nEndpoint = 203.0.113.7:1337\nPersistentKeepalive = 25",
        ALICE_PRIVATE_TEXT, BOB_PRIVATE_TEXT
    );
    assert_eq!(config.render(), expected);
}

#[test]
fn rendered_config_reads_back() {
    let keys = Keypair::from_private(BOB_PRIVATE);
    let config = Config::new(keys, status("OK", ALICE_PUBLIC_TEXT, 51820, None)).unwrap();
    let text = config.render();
    let lines: Vec<&str> = text.split('\n').collect();
    assert_eq!(lines.len(), 10);
    assert_eq!(lines[1].strip_prefix("PrivateKey = ").unwrap(), BOB_PRIVATE_TEXT);
    assert_eq!(lines[2].strip_prefix("Address = ").unwrap(), "10.7.0.2");
    let dns: Vec<&str> = lines[3].strip_prefix("DNS = ").unwrap().split(',').collect();
    assert_eq!(dns, vec!["10.0.0.242", "10.0.0.243"]);
    assert_eq!(lines[6].strip_prefix("PublicKey = ").unwrap(), ALICE_PUBLIC_TEXT);
    assert_eq!(lines[7].strip_prefix("AllowedIPs = ").unwrap(), "0.0.0.0/0");
    assert_eq!(lines[8].strip_prefix("Endpoint = ").unwrap(), "203.0.113.7:51820");
}

#[test]
fn ipv6_endpoint_rendering() {
    let keys = Keypair::from_private(ALICE_PRIVATE);
    let mut answer = status("OK", BOB_PRIVATE_TEXT, 443, None);
    answer.server_ip = IpAddress::V6([0x2001, 0xdb8, 0, 0, 0, 0, 0, 0x1f]);
    answer.peer_ip = IpAddress::V6([0xfd00, 0, 0, 0, 0, 0, 0, 2]);
    answer.dns_servers = vec!["10.0.0.242".to_string()];
    let text = Config::new(keys, answer).unwrap().render();
    assert!(text.contains("\nAddress = fd00:0:0:0:0:0:0:2\n"));
    assert!(text.contains("\nDNS = 10.0.0.242\n"));
    assert!(text.contains("\nEndpoint = [2001:db8:0:0:0:0:0:1f]:443\n"));
}

#[test]
fn end_to_end_single_region() {
    let groups = vec![group("wg", vec![vec![1337]])];
    let regions = vec![wg_region("us-east", false)];
    let port = resolve_port(&groups).unwrap();
    let chosen = select_region(regions, "us-east").unwrap();
    let plan = plan_connection(chosen, port).unwrap();
    assert_eq!(plan.host, "east401");
    let keys = Keypair::from_private(ALICE_PRIVATE);
    let config = Config::new(keys, status("OK", BOB_PRIVATE_TEXT, 1337, None)).unwrap();
    let text = config.render();
    assert!(text.contains("PrivateKey = "));
    assert!(text.contains("Address = 10.7.0.2"));
    assert!(text.contains(&format!("PublicKey = {}", BOB_PRIVATE_TEXT)));
    assert!(text.contains("Endpoint = 203.0.113.7:1337"));
    assert!(text.contains("PersistentKeepalive = 25"));
    assert_eq!(config_file_name(&plan.region.id), "./wg-us-east.conf");
}

#[test]
fn error_descriptions_name_stage() {
    assert_eq!(ProvisionError::PortResolution.describe(), "No WireGuard port in server list");
    assert_eq!(
        ProvisionError::RegionOffline("uk".to_string()).describe(),
        "Region is offline: uk"
    );
    assert_eq!(
        ProvisionError::Auth("401".to_string()).describe(),
        "Failed to get token: 401"
    );
    assert_eq!(
        ProvisionError::Persistence("denied".to_string()).describe(),
        "Failed to save wireguard configuration: denied"
    );
}

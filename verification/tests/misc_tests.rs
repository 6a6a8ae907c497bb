use landscape_core::configs::{
    debug_default, default_clamp_size, yes, CreateDevType, FirewallServiceConfig,
    IfaceIpModelConfig, IfaceZoneType, NetworkIfaceConfig, WebCommArgs, WifiMode,
};
use landscape_core::dns_records::{FlowDnsMarkInfo, LdIp};
use landscape_core::flow_map::FlowDnsMap;
use landscape_core::metric::{
    convert_ip, swap16, swap32, ConnectInfo, ConnectMetric, RawConnEvent, RawConnMetricEvent,
    RawInetAddr, LANDSCAPE_IPV4_TYPE, LANDSCAPE_IPV6_TYPE,
};
use landscape_core::resolv::{resolv_conf_plan, resolver_conf_content, ResolvFileKind, ResolvPlan};
use landscape_core::store::ConfigStore;
use landscape_core::time_util::{
    ns_from_parts, relative_ns_parts, LdCountdown, LD_EINVAL, MILL_A_DAY,
};

#[test]
fn ns_from_parts_combines_and_refuses() {
    assert_eq!(ns_from_parts(1, 500), Some(1_000_000_500));
    assert_eq!(ns_from_parts(0, 0), Some(0));
    assert_eq!(ns_from_parts(-1, 500), None);
}

#[test]
fn relative_ns_parts_exact_difference() {
    // (5 s + 100 ns) - (3 s + 200 ns) = 1_999_999_900 ns
    assert_eq!(relative_ns_parts(5, 100, 3, 200), Ok(1_999_999_900));
    // a negative difference is refused
    assert_eq!(relative_ns_parts(3, 0, 5, 0), Err(LD_EINVAL));
}

#[test]
fn countdown_remaining_at() {
    let c = LdCountdown { start_ms: 1_000, duration_ms: 500 };
    assert_eq!(c.remaining_at(1_000), 500);
    assert_eq!(c.remaining_at(1_200), 300);
    assert_eq!(c.remaining_at(1_500), 0);
    assert_eq!(c.remaining_at(2_000), 0);
    assert_eq!(c.remaining_at(900), 500);
}

#[test]
fn resolv_conf_takeover_plans() {
    // a symlink is deleted before the new file is written
    assert_eq!(resolv_conf_plan(ResolvFileKind::Symlink, false), ResolvPlan::DeleteThenWrite);
    assert_eq!(resolv_conf_plan(ResolvFileKind::Symlink, true), ResolvPlan::DeleteThenWrite);
    // a regular file without a backup becomes the backup
    assert_eq!(
        resolv_conf_plan(ResolvFileKind::RegularFile, false),
        ResolvPlan::RenameToBackupThenWrite
    );
    assert_eq!(
        resolv_conf_plan(ResolvFileKind::RegularFile, true),
        ResolvPlan::RemoveExistingThenWrite
    );
    assert_eq!(resolv_conf_plan(ResolvFileKind::Missing, false), ResolvPlan::WriteOnly);
    assert_eq!(resolv_conf_plan(ResolvFileKind::OtherKind, false), ResolvPlan::Fatal);
    assert_eq!(resolver_conf_content(), "nameserver 127.0.0.1\n");
}

#[test]
fn byte_swaps_are_exact() {
    assert_eq!(swap16(0x1234), 0x3412);
    assert_eq!(swap32(0x1234_5678), 0x7856_3412);
    assert_eq!(swap32(swap32(0xDEAD_BEEF)), 0xDEAD_BEEF);
}

#[test]
fn convert_ip_by_family() {
    let raw = RawInetAddr { ip: 0x0100_00_7f, bits: 1 };
    assert_eq!(convert_ip(&raw, LANDSCAPE_IPV4_TYPE), LdIp::V4(0x7f00_0001));
    assert_eq!(convert_ip(&raw, LANDSCAPE_IPV6_TYPE), LdIp::V6(1));
    assert_eq!(convert_ip(&raw, 200), LdIp::V4(0));
}

fn raw_event() -> RawConnEvent {
    RawConnEvent {
        src_addr: RawInetAddr { ip: 0x0100_00_7f, bits: 0 },
        dst_addr: RawInetAddr { ip: 0x0200_00_7f, bits: 0 },
        src_port: 0x5000,
        dst_port: 0xbb01,
        l4_proto: 6,
        flow_id: 3,
        trace_id: 9,
        l3_proto: LANDSCAPE_IPV4_TYPE,
        create_time: 111,
        event_type: 1,
        report_time: 222,
    }
}

#[test]
fn connect_info_from_raw_swaps_ports_and_ips() {
    let info = ConnectInfo::from_raw(&raw_event());
    assert_eq!(info.key.src_ip, LdIp::V4(0x7f00_0001));
    assert_eq!(info.key.dst_ip, LdIp::V4(0x7f00_0002));
    assert_eq!(info.key.src_port, 0x0050);
    assert_eq!(info.key.dst_port, 0x01bb);
    assert_eq!(info.event_type, 1);
    assert_eq!(info.report_time, 222);
}

#[test]
fn connect_metric_from_raw_keeps_counters() {
    let ev = RawConnMetricEvent {
        src_addr: RawInetAddr { ip: 0, bits: 7 },
        dst_addr: RawInetAddr { ip: 0, bits: 8 },
        src_port: 0,
        dst_port: 0,
        l4_proto: 17,
        flow_id: 1,
        trace_id: 2,
        l3_proto: LANDSCAPE_IPV6_TYPE,
        create_time: 5,
        time: 10,
        ingress_bytes: 100,
        ingress_packets: 2,
        egress_bytes: 300,
        egress_packets: 4,
    };
    let m = ConnectMetric::from_raw(&ev);
    assert_eq!(m.key.src_ip, LdIp::V6(7));
    assert_eq!(m.key.dst_ip, LdIp::V6(8));
    assert_eq!(m.report_time, 10);
    assert_eq!(m.ingress_bytes, 100);
    assert_eq!(m.egress_packets, 4);
}

#[test]
fn upsert_twice_leaves_map_as_after_first() {
    // upsert(flow, X) twice equals upsert(flow, X) once
    let items = vec![
        FlowDnsMarkInfo { ip: LdIp::V4(1), mark: 5 },
        FlowDnsMarkInfo { ip: LdIp::V4(2), mark: 6 },
    ];
    let mut once = FlowDnsMap::new();
    once.upsert(42, &items);
    let mut twice = FlowDnsMap::new();
    twice.upsert(42, &items);
    twice.upsert(42, &items);
    assert_eq!(once.flows.len(), twice.flows.len());
    assert_eq!(once.flows[0].entries, twice.flows[0].entries);
}

#[test]
fn upsert_updates_mark_in_place() {
    let mut map = FlowDnsMap::new();
    map.upsert(1, &vec![FlowDnsMarkInfo { ip: LdIp::V4(9), mark: 1 }]);
    map.upsert(1, &vec![FlowDnsMarkInfo { ip: LdIp::V4(9), mark: 2 }]);
    assert_eq!(map.flows[0].entries.len(), 1);
    assert_eq!(map.flows[0].entries[0].mark, 2);
}

#[test]
fn replace_swaps_whole_table_per_flow() {
    let mut map = FlowDnsMap::new();
    map.upsert(1, &vec![FlowDnsMarkInfo { ip: LdIp::V4(9), mark: 1 }]);
    map.upsert(2, &vec![FlowDnsMarkInfo { ip: LdIp::V4(8), mark: 7 }]);
    map.replace(1, vec![FlowDnsMarkInfo { ip: LdIp::V4(10), mark: 3 }]);
    let f1 = map.flows.iter().find(|f| f.flow_id == 1).unwrap();
    assert_eq!(f1.entries.len(), 1);
    assert_eq!(f1.entries[0].ip, LdIp::V4(10));
    let f2 = map.flows.iter().find(|f| f.flow_id == 2).unwrap();
    assert_eq!(f2.entries[0].mark, 7);
}

#[test]
fn small_defaults() {
    assert!(yes());
    assert!(!debug_default());
    assert_eq!(default_clamp_size(), 1492);
    assert_eq!(MILL_A_DAY, 86_400_000);
}

#[test]
fn iface_bridge_and_name() {
    let br = NetworkIfaceConfig::crate_default_br_lan();
    assert_eq!(br.get_iface_name(), String::from("br_lan"));
    assert_eq!(br.create_dev_type, CreateDevType::Bridge);
    assert_eq!(br.zone_type, IfaceZoneType::Lan);
    assert!(br.enable_in_boot);
    assert_eq!(br.wifi_mode, WifiMode::Undefined);
    let other = NetworkIfaceConfig::crate_bridge(String::from("br0"), None);
    assert_eq!(other.zone_type, IfaceZoneType::Undefined);
}

#[test]
fn check_iface_status_requires_wan_for_pppoe_and_dhcp() {
    let wan = NetworkIfaceConfig::crate_bridge(String::from("w"), Some(IfaceZoneType::Wan));
    let lan = NetworkIfaceConfig::crate_bridge(String::from("l"), Some(IfaceZoneType::Lan));
    let pppoe = IfaceIpModelConfig::PPPoE {
        default_router: true,
        username: String::from("user"),
        password: String::from("SECRET-REDACTED"),
        mtu: 1492,
    };
    assert!(pppoe.check_iface_status(&wan));
    assert!(!pppoe.check_iface_status(&lan));
    let nothing = IfaceIpModelConfig::Nothing;
    assert!(nothing.check_iface_status(&lan));
}

#[test]
fn ipv4_listen_only_for_v4_addresses() {
    let mut args = WebCommArgs {
        web: None,
        port: 6300,
        address: LdIp::V4(0),
        export_manager: true,
        config_dir: None,
        database_path: None,
        ebpf_map_space: String::from("default"),
        admin_user: String::from("root"),
        admin_pass: String::from("SECRET-REDACTED"),
        debug: false,
        log_output_in_terminal: false,
        max_log_files: 7,
    };
    assert_eq!(args.get_ipv4_listen(), Some((0, 6300)));
    args.address = LdIp::V6(1);
    assert_eq!(args.get_ipv4_listen(), None);
}

#[test]
fn config_store_crud() {
    let mk = |name: &str, at: u64| FirewallServiceConfig {
        iface_name: String::from(name),
        enable: true,
        update_at: at,
    };
    let mut store: ConfigStore<FirewallServiceConfig> = ConfigStore::new();
    store.set_model(mk("eth0", 1));
    store.set_or_update_model(&String::from("eth1"), mk("eth1", 2));
    assert_eq!(store.list_all().len(), 2);
    assert_eq!(store.find_by_id(&String::from("eth0")).unwrap().update_at, 1);
    store.set_or_update_model(&String::from("eth0"), mk("eth0", 9));
    assert_eq!(store.find_by_id(&String::from("eth0")).unwrap().update_at, 9);
    assert_eq!(store.list_all().len(), 2);
    store.delete_model(&String::from("eth1"));
    assert!(store.find_by_id(&String::from("eth1")).is_none());
    store.truncate_table();
    assert_eq!(store.list_all().len(), 0);
}

use swagex::steam::{
    first_remote_address, hosts_with_owned_block, recover_stale_route, steam_hosts,
    without_owned_hosts_block, IpAddress, SteamRouteState,
};

#[test]
fn removes_only_the_owned_hosts_block() {
    let original = "127.0.0.1 localhost\r\n\
                    # BEGIN SwagEx Steam\r\n\
                    127.11.12.13 summonerswar-eu-lb.qpyou.cn\r\n\
                    # END SwagEx Steam\r\n\
                    10.0.0.2 intranet\r\n";

    assert_eq!(
        without_owned_hosts_block(original),
        "127.0.0.1 localhost\r\n10.0.0.2 intranet\r\n"
    );
}

#[test]
fn leaves_an_unrelated_hosts_file_unchanged() {
    let original = "127.0.0.1 localhost\n10.0.0.2 intranet\n";
    assert_eq!(without_owned_hosts_block(original), original);
}

#[test]
fn steam_endpoints_keep_distinct_loopback_addresses() {
    let hosts = steam_hosts();
    let mut addresses = hosts.iter().map(|(_, address)| *address).collect::<Vec<_>>();
    addresses.sort_unstable();
    addresses.dedup();
    assert_eq!(addresses.len(), hosts.len());
}

#[test]
fn upstream_resolution_ignores_stale_loopback_addresses() {
    let addresses = vec![IpAddress::V4([127, 11, 12, 13]), IpAddress::V4([34, 160, 156, 240])];

    assert_eq!(first_remote_address(&addresses), Some(IpAddress::V4([34, 160, 156, 240])));
}

#[test]
fn upstream_resolution_finds_nothing_among_loopback_addresses() {
    let addresses = vec![
        IpAddress::V4([127, 0, 0, 1]),
        IpAddress::V6([0, 0, 0, 0, 0, 0, 0, 1]),
    ];
    assert_eq!(first_remote_address(&addresses), None);
    let v6 = vec![IpAddress::V6([0x2001, 0xdb8, 0, 0, 0, 0, 0, 1])];
    assert_eq!(first_remote_address(&v6), Some(IpAddress::V6([0x2001, 0xdb8, 0, 0, 0, 0, 0, 1])));
}

const BLOCK_LF: &str = "# BEGIN SwagEx Steam\n\
                        127.11.12.13 summonerswar-eu-lb.qpyou.cn\n\
                        127.11.12.14 summonerswar-gb-lb.qpyou.cn\n\
                        127.11.12.15 summonerswar-sea-lb.qpyou.cn\n\
                        127.11.12.16 summonerswar-jp-lb.qpyou.cn\n\
                        127.11.12.17 summonerswar-kr-lb.qpyou.cn\n\
                        127.11.12.18 summonerswar-cn-lb.qpyou.cn\n\
                        # END SwagEx Steam\n";

#[test]
fn installs_the_block_after_the_other_lines() {
    let original = "127.0.0.1 localhost\n10.0.0.2 intranet";
    let installed = hosts_with_owned_block(original);
    assert_eq!(installed, format!("127.0.0.1 localhost\n10.0.0.2 intranet\n{BLOCK_LF}"));
}

#[test]
fn installing_again_replaces_the_earlier_block() {
    let original = "127.0.0.1 localhost\r\n";
    let once = hosts_with_owned_block(original);
    assert!(once.starts_with("127.0.0.1 localhost\r\n# BEGIN SwagEx Steam\r\n127.11.12.13 "));
    assert!(once.ends_with("# END SwagEx Steam\r\n"));
    assert_eq!(hosts_with_owned_block(&once), once);
}

#[test]
fn removing_after_installing_keeps_every_other_line() {
    let original = "127.0.0.1 localhost\n# comment\n10.0.0.2 intranet\n";
    let installed = hosts_with_owned_block(original);
    assert_eq!(without_owned_hosts_block(&installed), original);
}

#[test]
fn an_unclosed_block_drops_the_rest_of_the_file() {
    let original = "a\n  # BEGIN SwagEx Steam  \nb\nc\n";
    assert_eq!(without_owned_hosts_block(original), "a\n");
}

#[test]
fn recovers_only_a_stale_route() {
    let stale = format!("127.0.0.1 localhost\n{BLOCK_LF}");
    assert_eq!(recover_stale_route(&stale), Some("127.0.0.1 localhost\n".to_string()));
    assert_eq!(recover_stale_route("127.0.0.1 localhost\n"), None);
}

#[test]
fn stopping_flushes_only_after_a_change() {
    let mut route = SteamRouteState::new();
    assert!(!route.is_active());
    assert!(!route.stop_needs_dns_flush(false));
    assert!(route.stop_needs_dns_flush(true));
    route.activate();
    assert!(route.is_active());
    assert!(route.stop_needs_dns_flush(false));
    assert!(route.is_active());
    route.stop();
    assert!(!route.is_active());
    assert!(!route.stop_needs_dns_flush(false));
}

#[test]
fn removing_after_installing_gives_back_a_crlf_file() {
    let original = "127.0.0.1 localhost\r\n\r\n10.0.0.2 intranet\r\n";
    let installed = hosts_with_owned_block(original);
    assert!(installed.ends_with("# END SwagEx Steam\r\n"));
    assert_eq!(without_owned_hosts_block(&installed), original);
}

#[test]
fn removing_after_installing_ends_the_last_line() {
    let original = "127.0.0.1 localhost\n10.0.0.2 intranet";
    let installed = hosts_with_owned_block(original);
    assert_eq!(without_owned_hosts_block(&installed), "127.0.0.1 localhost\n10.0.0.2 intranet\n");
}

#[test]
fn installing_then_removing_gives_back_an_lf_file_with_blank_lines() {
    let original = "\n127.0.0.1 localhost\n\n# comment\n::1 localhost\n";
    let installed = hosts_with_owned_block(original);
    assert!(installed.contains("# BEGIN SwagEx Steam\n"));
    assert_eq!(without_owned_hosts_block(&installed), original);
}

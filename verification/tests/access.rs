use report_host::access::{
    access_control, parse_address_list, AccessControl, AccessOutcome, CidrBlock, IpAddress,
};

fn v4(a: u8, b: u8, c: u8, d: u8) -> IpAddress {
    IpAddress::V4(u32::from_be_bytes([a, b, c, d]))
}

fn policy(allowed: &[&str], proxies: &[&str]) -> AccessControl {
    AccessControl::new(
        allowed.iter().map(|s| s.to_string()).collect(),
        proxies.iter().map(|s| s.to_string()).collect(),
    )
}

#[test]
fn trusted_proxy_with_allowed_forwarded_client_is_allowed() {
    let ac = policy(&["192.168.1.0/24"], &["10.0.0.0/24"]);
    assert_eq!(
        ac.is_allowed(v4(10, 0, 0, 5), Some("192.168.1.10")),
        (true, "client ip from header in allowed_ips")
    );
}

#[test]
fn trusted_proxy_with_foreign_forwarded_client_is_denied() {
    let ac = policy(&["192.168.1.0/24"], &["10.0.0.0/24"]);
    assert_eq!(ac.is_allowed(v4(10, 0, 0, 5), Some("8.8.8.8")), (false, "client ip not allowed"));
}

#[test]
fn empty_policy_allows_any_remote() {
    let ac = policy(&[], &[]);
    assert_eq!(
        ac.is_allowed(v4(203, 0, 113, 9), None),
        (true, "no proxies configured and no allowed_ips -> allow all")
    );
    assert_eq!(ac.is_allowed(IpAddress::V6(1), Some("junk")).0, true);
}

#[test]
fn without_proxies_the_remote_address_is_judged() {
    let ac = policy(&["192.168.1.0/24"], &[]);
    assert_eq!(ac.is_allowed(v4(192, 168, 1, 10), None), (true, "remote addr in allowed_ips"));
    assert_eq!(ac.is_allowed(v4(10, 0, 0, 1), None), (false, "remote addr not in allowed_ips"));
}

#[test]
fn request_from_untrusted_proxy_is_denied() {
    let ac = policy(&["192.168.1.0/24"], &["10.0.0.0/24"]);
    assert_eq!(
        ac.is_allowed(v4(10, 0, 1, 5), Some("192.168.1.10")),
        (false, "request did not come from trusted proxy")
    );
}

#[test]
fn trusted_proxy_without_allowed_clients_allows_all() {
    let ac = policy(&[], &["10.0.0.0/24"]);
    assert_eq!(
        ac.is_allowed(v4(10, 0, 0, 5), None),
        (true, "Trusted proxy -> No allowed_ips configured -> allow all")
    );
}

#[test]
fn missing_or_unreadable_header_is_denied_behind_proxy() {
    let ac = policy(&["192.168.1.0/24"], &["10.0.0.0/24"]);
    assert_eq!(ac.is_allowed(v4(10, 0, 0, 5), None), (false, "client ip not allowed"));
    assert_eq!(ac.is_allowed(v4(10, 0, 0, 5), Some("not-an-ip")), (false, "client ip not allowed"));
    assert_eq!(ac.is_allowed(v4(10, 0, 0, 5), Some("")), (false, "client ip not allowed"));
}

#[test]
fn first_forwarded_token_is_trimmed_and_used() {
    let ac = policy(&["192.168.1.0/24"], &["10.0.0.0/24"]);
    assert!(ac.is_allowed(v4(10, 0, 0, 5), Some("  192.168.1.77 , 8.8.8.8")).0);
    assert!(!ac.is_allowed(v4(10, 0, 0, 5), Some("8.8.8.8, 192.168.1.77")).0);
}

#[test]
fn mapped_ipv6_addresses_are_judged_as_ipv4() {
    let ac = policy(&["192.168.1.0/24"], &[]);
    let mapped = IpAddress::V6(0xffff_0000_0000u128 | 0xc0a8_010au128);
    assert_eq!(AccessControl::normalize_ip(mapped), v4(192, 168, 1, 10));
    assert!(ac.is_allowed(mapped, None).0);
    assert!(AccessControl::ip_in_nets(mapped, &ac.allowed_ips));
    let ac = policy(&["192.168.1.0/24"], &["10.0.0.0/24"]);
    assert!(ac.is_allowed(v4(10, 0, 0, 5), Some("::ffff:192.168.1.10")).0);
    let plain = IpAddress::V6(0x2001_0db8_0000_0000_0000_0000_0000_0001u128);
    assert_eq!(AccessControl::normalize_ip(plain), plain);
}

#[test]
fn compile_nets_reads_networks_and_single_addresses() {
    let nets = AccessControl::compile_nets(vec![
        " 10.1.2.3/8 ".to_string(),
        "".to_string(),
        "   ".to_string(),
        "192.168.1.7".to_string(),
        "bogus".to_string(),
        "::1".to_string(),
        "2001:db8::/32".to_string(),
        "10.0.0.0/33".to_string(),
    ]);
    assert_eq!(
        nets,
        vec![
            CidrBlock::V4 { addr: 0x0a01_0203, prefix_len: 8 },
            CidrBlock::V4 { addr: 0xc0a8_0107, prefix_len: 32 },
            CidrBlock::V6 { addr: 1, prefix_len: 128 },
            CidrBlock::V6 { addr: 0x2001_0db8u128 << 96, prefix_len: 32 },
        ]
    );
}

#[test]
fn membership_follows_the_prefix() {
    let net = CidrBlock::V4 { addr: 0x0a01_0203, prefix_len: 8 };
    assert!(net.contains(v4(10, 0, 0, 0)));
    assert!(net.contains(v4(10, 255, 255, 255)));
    assert!(!net.contains(v4(11, 0, 0, 0)));
    assert!(!net.contains(v4(9, 255, 255, 255)));
    assert!(!net.contains(IpAddress::V6(0x0a00_0000)));
    let all = CidrBlock::V4 { addr: 0, prefix_len: 0 };
    assert!(all.contains(v4(255, 255, 255, 255)));
    let host = CidrBlock::V4 { addr: 0xc0a8_0107, prefix_len: 32 };
    assert!(host.contains(v4(192, 168, 1, 7)));
    assert!(!host.contains(v4(192, 168, 1, 8)));
    let six = CidrBlock::V6 { addr: 0x2001_0db8u128 << 96, prefix_len: 32 };
    assert!(six.contains(IpAddress::V6((0x2001_0db8u128 << 96) | 0xffff)));
    assert!(!six.contains(IpAddress::V6(0x2001_0db9u128 << 96)));
    assert!(!six.contains(v4(32, 1, 13, 184)));
    let every = CidrBlock::V6 { addr: 5, prefix_len: 0 };
    assert!(every.contains(IpAddress::V6(u128::MAX)));
    let one = CidrBlock::V6 { addr: 5, prefix_len: 128 };
    assert!(one.contains(IpAddress::V6(5)));
    assert!(!one.contains(IpAddress::V6(4)));
}

#[test]
fn forwards_only_allowed_requests_with_a_known_remote() {
    let ac = policy(&["192.168.1.0/24"], &[]);
    assert_eq!(access_control(&ac, Some(v4(192, 168, 1, 10)), None), AccessOutcome::Forward);
    assert_eq!(access_control(&ac, Some(v4(10, 0, 0, 1)), None), AccessOutcome::Forbidden);
    assert_eq!(access_control(&ac, None, Some("192.168.1.10")), AccessOutcome::Forbidden);
}

#[test]
fn configured_lists_are_split_trimmed_and_cleaned() {
    assert_eq!(parse_address_list(""), Vec::<String>::new());
    assert_eq!(parse_address_list(" , ,, "), Vec::<String>::new());
    assert_eq!(parse_address_list("10.0.0.0/24"), vec!["10.0.0.0/24"]);
    assert_eq!(
        parse_address_list(" 10.0.0.0/24 ,192.168.1.7,, ::1 ,"),
        vec!["10.0.0.0/24", "192.168.1.7", "::1"]
    );
    for raw in ["a,b", ",a", "a,", " a , b ,c", ",,", "x y, z"] {
        let want: Vec<String> =
            raw.split(',').map(|s| s.trim().to_string()).filter(|s| !s.is_empty()).collect();
        assert_eq!(parse_address_list(raw), want);
    }
}

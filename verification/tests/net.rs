use fosipcore::net::{
    check_claim, claimed_host, is_blocked_ip, pick_resolved, resolve_camera, validate_resolved,
    IpAddr, NetError, OriginInfo, SocketAddr,
};

fn v4(a: u8, b: u8, c: u8, d: u8) -> IpAddr {
    IpAddr::V4([a, b, c, d])
}

fn at(ip: IpAddr, port: u16) -> SocketAddr {
    SocketAddr { ip, port }
}

/// ::ffff:a.b.c.d
fn mapped(a: u16, b: u16, c: u16, d: u16) -> IpAddr {
    IpAddr::V6([0, 0, 0, 0, 0, 0xffff, a * 256 + b, c * 256 + d])
}

#[test]
fn blocked_ranges() {
    assert!(is_blocked_ip(v4(127, 0, 0, 1)));
    assert!(is_blocked_ip(v4(127, 8, 9, 10)));
    assert!(is_blocked_ip(v4(169, 254, 169, 254)));
    assert!(is_blocked_ip(v4(0, 0, 0, 0)));
    assert!(is_blocked_ip(v4(224, 0, 0, 1)));
    assert!(is_blocked_ip(IpAddr::V6([0, 0, 0, 0, 0, 0, 0, 1])));
    assert!(is_blocked_ip(IpAddr::V6([0xfe80, 0, 0, 0, 0, 0, 0, 1])));
    assert!(is_blocked_ip(mapped(127, 0, 0, 1)));
    assert!(is_blocked_ip(mapped(169, 254, 169, 254)));
    assert!(!is_blocked_ip(IpAddr::V6([0x2001, 0xdb8, 0, 0, 0, 0, 0, 1])));
    // Addresses of a local network and of the world are the whole point.
    assert!(!is_blocked_ip(v4(192, 168, 1, 50)));
    assert!(!is_blocked_ip(v4(10, 0, 0, 5)));
    assert!(!is_blocked_ip(v4(172, 16, 0, 1)));
    assert!(!is_blocked_ip(v4(8, 8, 8, 8)));
}

#[test]
fn blocked_ranges_at_their_edges() {
    assert!(is_blocked_ip(v4(239, 255, 255, 255)));
    assert!(!is_blocked_ip(v4(240, 0, 0, 0)));
    assert!(!is_blocked_ip(v4(223, 255, 255, 255)));
    assert!(!is_blocked_ip(v4(0, 0, 0, 1)));
    assert!(!is_blocked_ip(v4(169, 253, 0, 0)));
    assert!(is_blocked_ip(IpAddr::V6([0; 8])));
    assert!(!is_blocked_ip(IpAddr::V6([0, 0, 0, 0, 0, 0, 0, 2])));
    assert!(is_blocked_ip(IpAddr::V6([0xff02, 0, 0, 0, 0, 0, 0, 1])));
    assert!(is_blocked_ip(IpAddr::V6([0xfebf, 0, 0, 0, 0, 0, 0, 1])));
    assert!(!is_blocked_ip(IpAddr::V6([0xfec0, 0, 0, 0, 0, 0, 0, 1])));
    assert!(is_blocked_ip(mapped(0, 0, 0, 0)));
    assert!(!is_blocked_ip(mapped(192, 168, 1, 1)));
    assert!(is_blocked_ip(mapped(224, 0, 0, 1)));
    assert!(is_blocked_ip(mapped(239, 255, 255, 255)));
    assert!(!is_blocked_ip(mapped(240, 0, 0, 1)));
}

#[test]
fn resolve_ip_literal_ok() {
    let ip = v4(192, 168, 1, 50);
    let a = resolve_camera("192.168.1.50", 88, Some(ip), None).unwrap();
    assert_eq!(a, at(ip, 88));
}

#[test]
fn resolve_ip_literal_blocked() {
    assert_eq!(
        resolve_camera("127.0.0.1", 88, Some(v4(127, 0, 0, 1)), None),
        Err(NetError::BlockedAddress(v4(127, 0, 0, 1)))
    );
    assert!(resolve_camera("169.254.169.254", 80, Some(v4(169, 254, 169, 254)), None).is_err());
    assert!(resolve_camera("::1", 88, Some(IpAddr::V6([0, 0, 0, 0, 0, 0, 0, 1])), None).is_err());
    assert!(resolve_camera("0.0.0.0", 88, Some(v4(0, 0, 0, 0)), None).is_err());
}

#[test]
fn resolve_empty_host() {
    assert_eq!(resolve_camera("", 88, None, None), Err(NetError::EmptyHost));
    assert_eq!(resolve_camera("   ", 88, None, None), Err(NetError::EmptyHost));
}

#[test]
fn host_names_are_looked_up() {
    let lan = at(v4(192, 168, 1, 50), 88);
    let other = at(v4(10, 0, 0, 1), 88);
    assert!(check_claim("cam.lan", 88, None).is_none());
    assert_eq!(claimed_host(" cam.lan\t"), "cam.lan");
    assert_eq!(resolve_camera(" cam.lan ", 88, None, Some(&[lan, other])), Ok(lan));
    assert_eq!(
        resolve_camera(" cam.lan ", 88, None, None),
        Err(NetError::LookupFailed("cam.lan".into()))
    );
    assert_eq!(
        pick_resolved("cam.lan", Some(&[])),
        Err(NetError::NoAddresses("cam.lan".into()))
    );
    // A literal is not looked up.
    assert_eq!(resolve_camera("10.0.0.1", 88, Some(v4(10, 0, 0, 1)), Some(&[lan])), Ok(other));
}

#[test]
fn validate_resolved_allows_lan_ip() {
    let addrs: Vec<SocketAddr> = vec![at(v4(192, 168, 1, 50), 88)];
    assert!(validate_resolved("cam.lan", &addrs).is_ok());
}

#[test]
fn validate_resolved_rejects_mixed_records() {
    // One answer in the local network and one loopback answer: the whole claim
    // is refused.
    let addrs: Vec<SocketAddr> = vec![at(v4(192, 168, 1, 50), 88), at(v4(127, 0, 0, 1), 88)];
    assert!(validate_resolved("cam.lan", &addrs).is_err());
    assert_eq!(
        validate_resolved("cam.lan", &addrs),
        Err(NetError::ResolvesToBlocked("cam.lan".into(), v4(127, 0, 0, 1)))
    );
}

#[test]
fn validate_resolved_rejects_empty() {
    assert!(validate_resolved("cam.lan", &[]).is_err());
}

#[test]
fn test_origin_parse_lan_host_with_path() {
    // Browsers may include the path in Origin for nested pages; we only
    // care about host:port.
    let o = OriginInfo::parse("http://camera.lan:88/live").unwrap();
    assert_eq!(o.host, "camera.lan");
    assert_eq!(o.port, 88);
}

#[test]
fn test_origin_parse_lan_host_with_port() {
    let o = OriginInfo::parse("http://camera.lan:88").unwrap();
    assert_eq!(o.host, "camera.lan");
    assert_eq!(o.port, 88);
}

#[test]
fn test_origin_parse_default_ports() {
    assert_eq!(OriginInfo::parse("http://192.168.1.50").unwrap().port, 80);
    assert_eq!(OriginInfo::parse("https://cam.lan").unwrap().port, 443);
    assert_eq!(OriginInfo::parse("https://cam.lan:443").unwrap().port, 443);
}

#[test]
fn test_origin_parse_ipv6() {
    let o = OriginInfo::parse("http://[::1]:88").unwrap();
    assert_eq!(o.host, "::1");
    assert_eq!(o.port, 88);
}

#[test]
fn test_origin_parse_rejects_garbage() {
    assert!(OriginInfo::parse("").is_none());
    assert!(OriginInfo::parse("null").is_none());
    assert!(OriginInfo::parse("ftp://cam:88").is_none());
    assert!(OriginInfo::parse("http://").is_none());
    assert!(OriginInfo::parse("http://cam:99999").is_none());
    assert!(OriginInfo::parse("http://cam:notaport").is_none());
}

#[test]
fn test_origin_matches() {
    let o = OriginInfo::parse("http://camera.lan:88").unwrap();
    assert!(o.matches("camera.lan", 88));
    assert!(o.matches("CAMERA.LAN ", 88)); // case + trim
    assert!(!o.matches("192.168.1.50", 88));
    assert!(!o.matches("camera.lan", 80));
    assert!(!o.matches("evil.example", 88));
}

#[test]
fn origins_at_their_edges() {
    assert_eq!(
        OriginInfo::parse("  http://CAM.Lan:+80/x//y "),
        Some(OriginInfo { host: "cam.lan".into(), port: 80 })
    );
    assert_eq!(
        OriginInfo::parse("http://[::1]"),
        Some(OriginInfo { host: "::1".into(), port: 80 })
    );
    assert_eq!(
        OriginInfo::parse("https://[FE80::2]/x"),
        Some(OriginInfo { host: "fe80::2".into(), port: 443 })
    );
    assert!(OriginInfo::parse("http://[::1]88").is_none());
    assert!(OriginInfo::parse("http://[::1").is_none());
    assert!(OriginInfo::parse("http://[]:88").is_none());
    assert!(OriginInfo::parse("http://:88").is_none());
    assert!(OriginInfo::parse("http:/cam").is_none());
    assert!(OriginInfo::parse("HTTP://cam").is_none());
    assert!(OriginInfo::parse("http//cam").is_none());
    assert_eq!(OriginInfo::parse("http://a:b:1").unwrap().host, "a:b");
}

#[test]
fn page_of_a_camera_matches_its_claim() {
    for (host, port) in [("camera.lan", 88u16), ("192.168.1.50", 65535), ("CAM", 0)] {
        let o = OriginInfo::parse(&format!("http://{host}:{port}")).unwrap();
        assert_eq!(o.host, host.to_ascii_lowercase());
        assert_eq!(o.port, port);
        assert!(o.matches(host, port));
    }
}

#[test]
fn origins_name_host_and_port() {
    for (scheme, default) in [("http", 80u16), ("https", 443)] {
        for (shown, host) in [("Cam.lan", "cam.lan"), ("10.0.0.1", "10.0.0.1"), ("[FE80::1]", "fe80::1")] {
            for port in [None, Some(0u16), Some(88), Some(65535)] {
                for path in ["", "/", "/a:1//b]", "/live ", "/a b\t\n"] {
                    let tail = port.map_or(String::new(), |p| format!(":{p}"));
                    let o = OriginInfo::parse(&format!("{scheme}://{shown}{tail}{path}")).unwrap();
                    assert_eq!(o.host, host);
                    assert_eq!(o.port, port.unwrap_or(default));
                }
            }
        }
    }
}

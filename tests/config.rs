use dispatch_proxy::config::{
    balancers_from_detected, get_iface_from_ip, local_balancer, parse_tunnel_balancer,
    parse_tunnel_balancers, split_weight, strip_brackets, ConfigErrorKind, InterfaceAddr,
};

fn tunnel_error(arg: &str) -> ConfigErrorKind {
    parse_tunnel_balancer(arg).unwrap_err().kind
}

#[test]
fn tunnel_spec_with_weight() {
    let lb = parse_tunnel_balancer("relay.example:7777@3").unwrap();
    assert_eq!(lb.address, "relay.example:7777");
    assert_eq!(lb.contention_ratio, 3);
    assert_eq!(lb.iface, None);
    assert!(!lb.is_ipv6);
}

#[test]
fn tunnel_spec_ipv6_literal() {
    let lb = parse_tunnel_balancer("[::1]:7777").unwrap();
    assert_eq!(lb.address, "[::1]:7777");
    assert_eq!(lb.contention_ratio, 1);
    assert!(lb.is_ipv6);
}

#[test]
fn tunnel_port_is_normalised() {
    let lb = parse_tunnel_balancer("10.0.0.1:+0080@+2").unwrap();
    assert_eq!(lb.address, "10.0.0.1:80");
    assert_eq!(lb.contention_ratio, 2);
}

#[test]
fn tunnel_spec_errors() {
    assert_eq!(tunnel_error("10.0.0.1:0"), ConfigErrorKind::InvalidPort);
    assert_eq!(tunnel_error("10.0.0.1:70000"), ConfigErrorKind::InvalidPort);
    assert_eq!(tunnel_error("10.0.0.1:http"), ConfigErrorKind::InvalidPort);
    assert_eq!(tunnel_error("10.0.0.1"), ConfigErrorKind::InvalidSpec);
    assert_eq!(tunnel_error("[::1"), ConfigErrorKind::InvalidIpv6);
    assert_eq!(tunnel_error("[::1]7777"), ConfigErrorKind::InvalidSpec);
    assert_eq!(tunnel_error("10.0.0.1:80@0"), ConfigErrorKind::InvalidRatio);
    assert_eq!(tunnel_error("10.0.0.1:80@x"), ConfigErrorKind::InvalidRatio);
    let e = parse_tunnel_balancer("host@-1").unwrap_err();
    assert_eq!(e.kind, ConfigErrorKind::InvalidRatio);
    assert_eq!(e.subject, "host");
}

#[test]
fn tunnel_list_requires_an_entry() {
    let e = parse_tunnel_balancers(&vec![]).unwrap_err();
    assert_eq!(e.kind, ConfigErrorKind::NoBalancers);
    let lbs = parse_tunnel_balancers(&vec!["a:1".to_string(), "b:2@4".to_string()]).unwrap();
    assert_eq!(lbs.len(), 2);
    assert_eq!(lbs[1].address, "b:2");
    assert_eq!(lbs[1].contention_ratio, 4);
    let e = parse_tunnel_balancers(&vec!["a:1".to_string(), "b".to_string()]).unwrap_err();
    assert_eq!(e.kind, ConfigErrorKind::InvalidSpec);
    assert_eq!(e.subject, "b");
}

#[test]
fn weight_split() {
    assert_eq!(split_weight("10.0.0.2").unwrap(), ("10.0.0.2".to_string(), 1));
    assert_eq!(split_weight("10.0.0.2@5").unwrap(), ("10.0.0.2".to_string(), 5));
    assert_eq!(split_weight("10.0.0.2@5@9").unwrap(), ("10.0.0.2".to_string(), 5));
    assert_eq!(split_weight("10.0.0.2@0").unwrap_err().kind, ConfigErrorKind::InvalidRatio);
    assert_eq!(split_weight("10.0.0.2@").unwrap_err().kind, ConfigErrorKind::InvalidRatio);
    assert_eq!(
        split_weight("10.0.0.2@4294967296").unwrap_err().kind,
        ConfigErrorKind::InvalidRatio
    );
    assert_eq!(split_weight("10.0.0.2@4294967295").unwrap().1, 4294967295);
}

#[test]
fn brackets_are_stripped() {
    assert_eq!(strip_brackets("[fe80::1]"), "fe80::1");
    assert_eq!(strip_brackets("fe80::1"), "fe80::1");
    assert_eq!(strip_brackets("[fe80::1"), "[fe80::1");
    assert_eq!(strip_brackets("[]"), "");
}

#[test]
fn local_bind_addresses() {
    let lb = local_balancer(&[192, 168, 0, 10], "eth0".to_string(), 2);
    assert_eq!(lb.address, "192.168.0.10:0");
    assert_eq!(lb.iface.as_deref(), Some("eth0"));
    assert_eq!(lb.contention_ratio, 2);
    assert!(!lb.is_ipv6);
    let mut v6 = [0u8; 16];
    v6[0] = 0xfe;
    v6[1] = 0x80;
    v6[15] = 1;
    let lb = local_balancer(&v6, "wlan0".to_string(), 1);
    assert_eq!(lb.address, "[fe80::1]:0");
    assert!(lb.is_ipv6);
}

#[test]
fn auto_detect_without_interfaces_fails() {
    let e = balancers_from_detected(&vec![]).unwrap_err();
    assert_eq!(e.kind, ConfigErrorKind::NoWorkingInterfaces);
}

#[test]
fn auto_detect_gives_unit_weights() {
    let working = vec![
        ("eth0".to_string(), vec![10, 0, 0, 2]),
        ("eth1".to_string(), vec![0x20, 0x01, 0x0d, 0xb8, 0, 0, 0, 0, 0, 0, 0, 0, 0, 0, 0, 5]),
    ];
    let lbs = balancers_from_detected(&working).unwrap();
    assert_eq!(lbs.len(), 2);
    assert_eq!(lbs[0].address, "10.0.0.2:0");
    assert_eq!(lbs[1].address, "[2001:db8::5]:0");
    assert_eq!(lbs[1].iface.as_deref(), Some("eth1"));
    assert!(lbs.iter().all(|lb| lb.contention_ratio == 1));
}

#[test]
fn interface_lookup_skips_loopback() {
    let ifaces = vec![
        InterfaceAddr { name: "lo".to_string(), ip: vec![10, 0, 0, 2], is_loopback: true },
        InterfaceAddr { name: "eth0".to_string(), ip: vec![10, 0, 0, 1], is_loopback: false },
        InterfaceAddr { name: "eth1".to_string(), ip: vec![10, 0, 0, 2], is_loopback: false },
    ];
    assert_eq!(get_iface_from_ip(&ifaces, &[10, 0, 0, 2]), Some("eth1".to_string()));
    assert_eq!(get_iface_from_ip(&ifaces, &[10, 0, 0, 9]), None);
}

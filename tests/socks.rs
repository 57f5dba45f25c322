use dispatch_proxy::load_balancer::TargetAddressType;
use dispatch_proxy::socks::{
    client_connection_request, client_greeting, reply, servers_choice, ConnectRequest,
    GreetingDecode, RequestDecode, TargetAddress, ADDRTYPE_NOT_SUPPORTED, COMMAND_NOT_SUPPORTED,
    NETWORK_UNREACHABLE, SERVER_FAILURE, SUCCESS,
};

fn decode(bytes: &[u8]) -> (ConnectRequest, usize) {
    match client_connection_request(bytes) {
        RequestDecode::Decoded(req, n) => (req, n),
        other => panic!("not decoded: {:?}", other),
    }
}

#[test]
fn socks_v4_happy_path() {
    match client_greeting(&[0x05, 0x01, 0x00]) {
        GreetingDecode::Accepted(methods) => assert_eq!(methods, vec![0x00]),
        other => panic!("unexpected {:?}", other),
    }
    assert_eq!(servers_choice(), vec![0x05, 0x00]);
    let request = [0x05, 0x01, 0x00, 0x01, 0x5d, 0xb8, 0xd8, 0x22, 0x01, 0xbb];
    let (req, n) = decode(&request);
    assert_eq!(n, 10);
    assert_eq!(req.target_address(), "93.184.216.34:443");
    assert_eq!(req.target_type(), TargetAddressType::IPv4);
    assert_eq!(reply(SUCCESS), vec![0x05, 0x00, 0x00, 0x01, 0, 0, 0, 0, 0, 0]);
}

#[test]
fn unsupported_command_is_rejected() {
    let request = [0x05, 0x02, 0x00, 0x01, 1, 2, 3, 4, 0, 80];
    match client_connection_request(&request) {
        RequestDecode::Rejected(code) => {
            assert_eq!(code, COMMAND_NOT_SUPPORTED);
            assert_eq!(reply(code), vec![0x05, 0x07, 0x00, 0x01, 0, 0, 0, 0, 0, 0]);
        }
        other => panic!("unexpected {:?}", other),
    }
}

#[test]
fn unsupported_command_rejected_from_header_alone() {
    match client_connection_request(&[0x05, 0x02, 0x00, 0x01]) {
        RequestDecode::Rejected(code) => assert_eq!(code, COMMAND_NOT_SUPPORTED),
        other => panic!("unexpected {:?}", other),
    }
}

#[test]
fn wrong_request_version_is_server_failure() {
    match client_connection_request(&[0x04, 0x01, 0x00, 0x01]) {
        RequestDecode::Rejected(code) => assert_eq!(code, SERVER_FAILURE),
        other => panic!("unexpected {:?}", other),
    }
}

#[test]
fn unknown_address_type_is_rejected() {
    match client_connection_request(&[0x05, 0x01, 0x00, 0x02, 0, 0]) {
        RequestDecode::Rejected(code) => assert_eq!(code, ADDRTYPE_NOT_SUPPORTED),
        other => panic!("unexpected {:?}", other),
    }
}

#[test]
fn short_input_asks_for_more() {
    assert!(matches!(client_connection_request(&[0x05, 0x01]), RequestDecode::Incomplete(4)));
    assert!(matches!(
        client_connection_request(&[0x05, 0x01, 0x00, 0x01, 1]),
        RequestDecode::Incomplete(10)
    ));
    assert!(matches!(
        client_connection_request(&[0x05, 0x01, 0x00, 0x04]),
        RequestDecode::Incomplete(22)
    ));
    assert!(matches!(
        client_connection_request(&[0x05, 0x01, 0x00, 0x03]),
        RequestDecode::Incomplete(5)
    ));
    assert!(matches!(
        client_connection_request(&[0x05, 0x01, 0x00, 0x03, 4, b'a']),
        RequestDecode::Incomplete(11)
    ));
    assert!(matches!(client_greeting(&[0x05]), GreetingDecode::Incomplete(2)));
    assert!(matches!(client_greeting(&[0x05, 0x02, 0x00]), GreetingDecode::Incomplete(4)));
}

#[test]
fn greeting_with_wrong_version() {
    assert!(matches!(client_greeting(&[0x04, 0x01, 0x00]), GreetingDecode::Unsupported(4)));
}

#[test]
fn greeting_methods_are_kept() {
    match client_greeting(&[0x05, 0x03, 0x00, 0x01, 0x02]) {
        GreetingDecode::Accepted(methods) => assert_eq!(methods, vec![0x00, 0x01, 0x02]),
        other => panic!("unexpected {:?}", other),
    }
}

#[test]
fn domain_of_length_zero_decodes() {
    let request = [0x05, 0x01, 0x00, 0x03, 0x00, 0x00, 0x50];
    let (req, n) = decode(&request);
    assert_eq!(n, 7);
    assert_eq!(req.target_address(), ":80");
    assert_eq!(req.target_type(), TargetAddressType::Domain);
    assert_eq!(req.encode(), request.to_vec());
}

#[test]
fn domain_of_length_255_decodes() {
    let mut request = vec![0x05, 0x01, 0x00, 0x03, 0xff];
    request.extend(std::iter::repeat(b'a').take(255));
    request.extend([0x1f, 0x90]);
    let (req, n) = decode(&request);
    assert_eq!(n, 262);
    let expected = format!("{}:8080", "a".repeat(255));
    assert_eq!(req.target_address(), expected);
    assert_eq!(req.encode(), request);
}

#[test]
fn domain_text_replaces_invalid_utf8() {
    let request = [0x05, 0x01, 0x00, 0x03, 0x03, b'a', 0xff, b'b', 0x00, 0x16];
    let (req, _) = decode(&request);
    assert_eq!(req.target_address(), "a\u{fffd}b:22");
}

#[test]
fn domain_text_plain_host() {
    let mut request = vec![0x05, 0x01, 0x00, 0x03, 11];
    request.extend(b"example.com");
    request.extend([0x01, 0xbb]);
    let (req, _) = decode(&request);
    assert_eq!(req.target_address(), "example.com:443");
}

fn ipv6_request(addr: [u8; 16], port: u16) -> Vec<u8> {
    let mut request = vec![0x05, 0x01, 0x00, 0x04];
    request.extend(addr);
    request.extend(port.to_be_bytes());
    request
}

#[test]
fn ipv6_loopback_text() {
    let mut addr = [0u8; 16];
    addr[15] = 1;
    let (req, _) = decode(&ipv6_request(addr, 443));
    assert_eq!(req.target_address(), "[::1]:443");
    assert_eq!(req.target_type(), TargetAddressType::IPv6);
}

#[test]
fn ipv6_unspecified_text() {
    let (req, _) = decode(&ipv6_request([0u8; 16], 80));
    assert_eq!(req.target_address(), "[::]:80");
}

#[test]
fn ipv6_canonical_texts() {
    let samples: Vec<([u8; 16], &str)> = vec![
        ([0x20, 0x01, 0x0d, 0xb8, 0, 0, 0, 0, 0, 0, 0, 0, 0, 0, 0, 1], "2001:db8::1"),
        ([0x20, 0x01, 0x0d, 0xb8, 0, 1, 0, 0, 0, 1, 0, 1, 0, 1, 0, 1], "2001:db8:1:0:1:1:1:1"),
        ([0xfe, 0x80, 0, 0, 0, 0, 0, 0, 0x12, 0x34, 0xab, 0xcd, 0, 0, 0, 0], "fe80::1234:abcd:0:0"),
        ([0, 0, 0, 0, 0, 0, 0, 0, 0, 0, 0xff, 0xff, 192, 168, 1, 20], "::ffff:192.168.1.20"),
        ([0x26, 0x06, 0x47, 0, 0x47, 0, 0, 0, 0, 0, 0, 0, 0, 0, 0x11, 0x11], "2606:4700:4700::1111"),
        ([0xff; 16], "ffff:ffff:ffff:ffff:ffff:ffff:ffff:ffff"),
        ([0, 1, 0, 0, 0, 2, 0, 0, 0, 0, 0, 3, 0, 0, 0, 0], "1:0:2::3:0:0"),
        ([0, 0, 0, 0, 0, 0, 0, 0, 0, 0, 0, 0, 10, 0, 0, 1], "::a00:1"),
    ];
    for (addr, text) in samples {
        let (req, _) = decode(&ipv6_request(addr, 1));
        assert_eq!(req.target_address(), format!("[{}]:1", text));
    }
}

#[test]
fn ipv6_fixed_texts() {
    let (req, _) = decode(&ipv6_request(
        [0x20, 0x01, 0x0d, 0xb8, 0, 0, 0, 1, 0, 0, 0, 0, 0, 0, 0, 1],
        8080,
    ));
    assert_eq!(req.target_address(), "[2001:db8:0:1::1]:8080");
    let (req, _) = decode(&ipv6_request(
        [0, 0, 0, 0, 0, 0, 0, 0, 0, 0, 0xff, 0xff, 10, 0, 0, 1],
        53,
    ));
    assert_eq!(req.target_address(), "[::ffff:10.0.0.1]:53");
}

#[test]
fn decode_then_encode_is_identity() {
    let requests: Vec<Vec<u8>> = vec![
        vec![0x05, 0x01, 0x00, 0x01, 0x5d, 0xb8, 0xd8, 0x22, 0x01, 0xbb],
        ipv6_request([7u8; 16], 65535),
        vec![0x05, 0x01, 0x00, 0x03, 0x03, b'f', b'o', b'o', 0x00, 0x00],
    ];
    for request in requests {
        let (req, n) = decode(&request);
        assert_eq!(n, request.len());
        assert_eq!(req.encode(), request);
    }
}

#[test]
fn encode_builds_wire_form() {
    let req = ConnectRequest { address: TargetAddress::Ipv4(vec![127, 0, 0, 1]), port: 1080 };
    assert_eq!(req.encode(), vec![0x05, 0x01, 0x00, 0x01, 127, 0, 0, 1, 0x04, 0x38]);
    assert_eq!(req.target_address(), "127.0.0.1:1080");
}

#[test]
fn error_replies_are_ten_bytes() {
    for code in [SERVER_FAILURE, NETWORK_UNREACHABLE, COMMAND_NOT_SUPPORTED, ADDRTYPE_NOT_SUPPORTED] {
        assert_eq!(reply(code), vec![5, code, 0, 1, 0, 0, 0, 0, 0, 0]);
    }
}

use netplane::addressing::{count_ones, find_free_sdn_client_ip, sdn_cidr};
use netplane::ipv4::{calculate_network_address, Ipv4};
use netplane::packet::{parse_ipv4_header, validate_packet};

#[test]
fn ipv4_text_roundtrip() {
    let ip = Ipv4::parse("192.168.1.20").unwrap();
    assert_eq!(ip.octets_array(), [192, 168, 1, 20]);
    assert_eq!(ip.to_string(), "192.168.1.20");
    assert!(Ipv4::parse("192.168.01.20").is_none());
    assert!(Ipv4::parse("256.0.0.1").is_none());
    assert!(Ipv4::parse("1.2.3").is_none());
    assert!(Ipv4::parse(" 1.2.3.4").is_none());
    assert_eq!(Ipv4::parse("0.0.0.0"), Some(Ipv4::unspecified()));
}

#[test]
fn group_addresses() {
    assert!(Ipv4::parse("224.0.0.251").unwrap().is_multicast_or_broadcast());
    assert!(Ipv4::parse("239.255.255.250").unwrap().is_multicast_or_broadcast());
    assert!(Ipv4::parse("255.255.255.255").unwrap().is_multicast_or_broadcast());
    assert!(!Ipv4::parse("10.0.0.255").unwrap().is_multicast_or_broadcast());
    assert!(!Ipv4::parse("240.0.0.1").unwrap().is_multicast_or_broadcast());
}

#[test]
fn network_address() {
    assert_eq!(
        calculate_network_address("10.1.2.3", "255.255.0.0").unwrap().to_string(),
        "10.1.0.0"
    );
    assert_eq!(
        calculate_network_address("10.1.2", "255.255.0.0").unwrap_err(),
        "Invalid IP address format"
    );
    assert_eq!(
        calculate_network_address("10.1.2.3", "mask").unwrap_err(),
        "Invalid netmask format"
    );
}

#[test]
fn cidr_of_netmask() {
    assert_eq!(sdn_cidr("10.0.0.0", "255.255.255.0").unwrap(), "10.0.0.0/24");
    assert_eq!(sdn_cidr("10.0.0.0", "255.0.0.0").unwrap(), "10.0.0.0/8");
    assert_eq!(sdn_cidr("x", "0.0.0.0").unwrap(), "x/0");
    assert_eq!(sdn_cidr("10.0.0.0", "255.255").unwrap_err(), "invalid netmask: 255.255");
    assert_eq!(count_ones(0xffff_ff00), 24);
    assert_eq!(count_ones(0x8000_0001), 2);
}

#[test]
fn free_address_allocation() {
    let used = vec!["10.0.0.1".to_string(), "garbage".to_string(), "10.0.0.2".to_string()];
    assert_eq!(find_free_sdn_client_ip("10.0.0.0", "255.255.255.0", &used).unwrap(), "10.0.0.3");
    assert_eq!(find_free_sdn_client_ip("10.0.0.0", "255.255.255.0", &[]).unwrap(), "10.0.0.1");
    let full = vec!["10.0.0.1".to_string(), "10.0.0.2".to_string()];
    assert_eq!(
        find_free_sdn_client_ip("10.0.0.0", "255.255.255.252", &full).unwrap_err(),
        "No free sdn_client_ip available in 10.0.0.0/255.255.255.252"
    );
    assert_eq!(
        find_free_sdn_client_ip("10.0.0.0", "255.255.255.255", &[]).unwrap_err(),
        "No usable host addresses in 10.0.0.0/255.255.255.255"
    );
    assert_eq!(
        find_free_sdn_client_ip("10.0.0", "255.255.255.0", &[]).unwrap_err(),
        "Invalid network address: 10.0.0"
    );
    assert_eq!(
        find_free_sdn_client_ip("10.0.0.0", "x", &[]).unwrap_err(),
        "Invalid netmask: x"
    );
}

fn packet(proto: u8, dst: [u8; 4]) -> Vec<u8> {
    let mut p = vec![0u8; 24];
    p[0] = 0x45;
    p[2] = 0;
    p[3] = 24;
    p[9] = proto;
    p[12..16].copy_from_slice(&[10, 0, 0, 1]);
    p[16..20].copy_from_slice(&dst);
    p[20] = 0x1f;
    p[21] = 0x90;
    p[22] = 0x00;
    p[23] = 0x35;
    p
}

#[test]
fn ipv4_header_fields() {
    let p = packet(17, [10, 0, 0, 2]);
    let h = parse_ipv4_header(&p).unwrap();
    assert_eq!(h.version, 4);
    assert_eq!(h.ihl, 20);
    assert_eq!(h.total_length, 24);
    assert_eq!(h.protocol, 17);
    assert_eq!(h.src_ip, "10.0.0.1");
    assert_eq!(h.dst_ip, "10.0.0.2");
    assert_eq!(h.src_port, 8080);
    assert_eq!(h.dst_port, 53);
    let icmp = parse_ipv4_header(&packet(1, [10, 0, 0, 2])).unwrap();
    assert_eq!(icmp.src_port, 0);
    assert_eq!(icmp.dst_port, 0);
    assert!(parse_ipv4_header(&p[..19]).is_none());
    assert!(validate_packet(&p[..20]));
    assert!(!validate_packet(&[0x45; 10]));
}

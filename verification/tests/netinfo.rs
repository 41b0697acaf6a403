use lddns::ip::IpAddress;
use lddns::netinfo::{
    choose_interface, hostname_from_text, interfaces_from_ip_output, interfaces_from_ipconfig_output,
    address_in_ip_output, address_in_ipconfig_output, local_ip_from_ip_output, local_ip_from_ipconfig_output,
    local_subnet_from_ip_output, ChoiceError,
};

const IP_OUTPUT: &str = "1: lo: <LOOPBACK,UP,LOWER_UP> mtu 65536 qdisc noqueue state UNKNOWN group default qlen 1000
    inet 127.0.0.1/8 scope host lo
       valid_lft forever preferred_lft forever
2: eth0: <BROADCAST,MULTICAST,UP,LOWER_UP> mtu 1500 qdisc fq_codel state UP group default qlen 1000
    inet 192.168.1.23/24 brd 192.168.1.255 scope global dynamic eth0
       valid_lft 86000sec preferred_lft 86000sec
3: docker0: <NO-CARRIER,BROADCAST,MULTICAST,UP> mtu 1500 qdisc noqueue state DOWN group default
    inet 172.17.0.1/16 brd 172.17.255.255 scope global docker0
       valid_lft forever preferred_lft forever
";

const IPCONFIG_OUTPUT: &str = "\r\nWindows IP Configuration\r\n\r\n\r\nEthernet adapter Ethernet:\r\n\r\n   Connection-specific DNS Suffix  . : home\r\n   IPv4 Address. . . . . . . . . . . : 192.168.0.15\r\n   Subnet Mask . . . . . . . . . . . : 255.255.255.0\r\n\r\nWireless LAN adapter Wi-Fi:\r\n\r\n   IPv4 Address. . . . . . . . . . . : 10.1.2.3\r\n";

#[test]
fn local_ip_from_ip_output_without_subnet() {
    match local_ip_from_ip_output(IP_OUTPUT, None) {
        Some(IpAddress::V4(o)) => assert_eq!(o, [192, 168, 1, 23]),
        other => panic!("unexpected {:?}", other),
    }
}

#[test]
fn local_ip_from_ip_output_with_subnet() {
    match local_ip_from_ip_output(IP_OUTPUT, Some("172.17")) {
        Some(IpAddress::V4(o)) => assert_eq!(o, [172, 17, 0, 1]),
        other => panic!("unexpected {:?}", other),
    }
    assert!(local_ip_from_ip_output(IP_OUTPUT, Some("10.")).is_none());
    assert!(local_ip_from_ip_output(IP_OUTPUT, Some("127.")).is_none());
    assert!(local_ip_from_ip_output("", None).is_none());
}

#[test]
fn local_ip_from_ipconfig() {
    match local_ip_from_ipconfig_output(IPCONFIG_OUTPUT, None) {
        Some(IpAddress::V4(o)) => assert_eq!(o, [192, 168, 0, 15]),
        other => panic!("unexpected {:?}", other),
    }
    match local_ip_from_ipconfig_output(IPCONFIG_OUTPUT, Some("10.1")) {
        Some(IpAddress::V4(o)) => assert_eq!(o, [10, 1, 2, 3]),
        other => panic!("unexpected {:?}", other),
    }
}

#[test]
fn interfaces_of_ip_output() {
    let found = interfaces_from_ip_output(IP_OUTPUT);
    assert_eq!(
        found,
        vec![
            ("eth0".to_string(), "192.168.1.23".to_string()),
            ("docker0".to_string(), "172.17.0.1".to_string()),
        ]
    );
}

#[test]
fn interfaces_of_ipconfig_output() {
    let found = interfaces_from_ipconfig_output(IPCONFIG_OUTPUT);
    assert_eq!(
        found,
        vec![
            ("Ethernet adapter Ethernet".to_string(), "192.168.0.15".to_string()),
            ("Wireless LAN adapter Wi-Fi".to_string(), "10.1.2.3".to_string()),
        ]
    );
}

#[test]
fn interface_choice() {
    let listed = vec![
        ("eth0".to_string(), "192.168.1.23".to_string()),
        ("docker0".to_string(), "172.17.0.1".to_string()),
    ];
    assert_eq!(choose_interface(&listed, " 2\n"), Ok("172.17.0.1".to_string()));
    assert_eq!(choose_interface(&listed, "1"), Ok("192.168.1.23".to_string()));
    assert_eq!(choose_interface(&listed, "0"), Err(ChoiceError::OutOfRange));
    assert_eq!(choose_interface(&listed, "3"), Err(ChoiceError::OutOfRange));
    assert_eq!(choose_interface(&listed, "two"), Err(ChoiceError::NotANumber));
    assert_eq!(choose_interface(&Vec::new(), "1"), Err(ChoiceError::NoInterfaces));
}

#[test]
fn hostnames_and_mentions() {
    assert_eq!(hostname_from_text("  my-pc\n"), Some("my-pc".to_string()));
    assert_eq!(hostname_from_text(" \n\t"), None);
    assert!(address_in_ip_output(IP_OUTPUT, "192.168.1.23"));
    assert!(address_in_ip_output(IP_OUTPUT, "172.17.0.1"));
    assert!(address_in_ip_output(IP_OUTPUT, "127.0.0.1"));
    assert!(!address_in_ip_output(IP_OUTPUT, "192.168.1.24"));
    assert!(!address_in_ip_output(IP_OUTPUT, "192.168.1.2"));
    let one = "2: eth0: <UP>\n    inet 192.168.1.10/24 scope global eth0\n";
    assert!(!address_in_ip_output(one, "192.168.1.1"));
    assert!(address_in_ip_output(one, "192.168.1.10"));
    for (_, ip) in interfaces_from_ip_output(IP_OUTPUT).iter() {
        assert!(address_in_ip_output(IP_OUTPUT, ip));
    }
    for (_, ip) in interfaces_from_ipconfig_output(IPCONFIG_OUTPUT).iter() {
        assert!(address_in_ipconfig_output(IPCONFIG_OUTPUT, ip));
    }
    assert!(!address_in_ipconfig_output(IPCONFIG_OUTPUT, "192.168.0.1"));
    assert!(!address_in_ipconfig_output(IPCONFIG_OUTPUT, "255.255.255.0"));
}

#[test]
fn server_subnet_from_ip_output() {
    assert_eq!(local_subnet_from_ip_output(IP_OUTPUT), "192.168.1");
    assert_eq!(local_subnet_from_ip_output(""), "192.168.0");
    let only_private = "    inet 10.200.0.5/8 scope global eth0\n    inet 10.20.0.5/8 scope global eth1\n";
    assert_eq!(local_subnet_from_ip_output(only_private), "10.20.0");
}

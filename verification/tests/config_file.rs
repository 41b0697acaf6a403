use lddns::config::{parse_config, Config};

#[test]
fn parse_reads_settings() {
    let s = parse_config("SERVER=192.168.1.1\nHOSTNAME = mypc \nSUBNET=auto\nENABLED=false\nINTERFACE_IP=\n# comment\n");
    assert_eq!(s.hostname, Some("mypc".to_string()));
    assert_eq!(s.server, Some("192.168.1.1".to_string()));
    assert_eq!(s.subnet, None);
    assert_eq!(s.interface_ip, None);
}

#[test]
fn later_lines_win_and_auto_keeps() {
    let s = parse_config("SERVER=a\r\nSERVER=auto\nSUBNET=10.0.0\nSUBNET=10.1.0\nINTERFACE_IP=auto\n");
    assert_eq!(s.server, Some("a".to_string()));
    assert_eq!(s.subnet, Some("10.1.0".to_string()));
    assert_eq!(s.interface_ip, None);
}

#[test]
fn save_text_and_roundtrip() {
    let c = Config {
        hostname: "mypc".to_string(),
        server: None,
        subnet: Some("192.168.1".to_string()),
        interface_ip: Some("192.168.1.5".to_string()),
    };
    let text = c.to_text();
    assert_eq!(text, "SERVER=auto\nHOSTNAME=mypc\nSUBNET=192.168.1\nENABLED=false\nINTERFACE_IP=192.168.1.5\n");
    let back = parse_config(&text);
    assert_eq!(back.hostname, Some("mypc".to_string()));
    assert_eq!(back.server, None);
    assert_eq!(back.subnet, Some("192.168.1".to_string()));
    assert_eq!(back.interface_ip, Some("192.168.1.5".to_string()));
}

#[test]
fn fallback_hostname() {
    let c = Config::from_settings(parse_config("SERVER=1.2.3.4\n"), "fallback".to_string());
    assert_eq!(c.hostname, "fallback");
    assert_eq!(c.server, Some("1.2.3.4".to_string()));
    let c = Config::from_settings(parse_config("HOSTNAME=h\n"), "fallback".to_string());
    assert_eq!(c.hostname, "h");
}

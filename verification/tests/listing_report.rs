use lddns::listing::{domain_report, DomainEntry};

#[test]
fn report_with_domains() {
    let entries = vec![
        DomainEntry {
            hostname: Some("pc".to_string()),
            domain: Some("pc.local".to_string()),
            ip: Some("192.168.1.7".to_string()),
            last_seen: Some(12),
        },
        DomainEntry { hostname: None, domain: None, ip: None, last_seen: None },
    ];
    let lines = domain_report("2", Some(&entries));
    assert_eq!(
        lines,
        vec![
            "Зарегистрированные домены (2):",
            "",
            "  pc.local (pc)",
            "    IP: 192.168.1.7",
            "    Последний heartbeat: 12 сек назад",
            "",
            "  unknown (unknown)",
            "    IP: unknown",
            "    Последний heartbeat: 0 сек назад",
            "",
        ]
    );
}

#[test]
fn report_without_domains() {
    assert_eq!(domain_report("null", None), vec!["Нет зарегистрированных доменов"]);
}

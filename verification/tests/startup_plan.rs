use lddns::startup::{missing_configured_address, plan_address, AddressPlan, MissingAddress};

#[test]
fn address_plans() {
    assert!(matches!(
        plan_address(Some("10.0.0.2".to_string()), Some("10.0.0.3".to_string()), true),
        AddressPlan::Explicit(ref s) if s == "10.0.0.2"
    ));
    assert!(matches!(
        plan_address(None, Some("10.0.0.3".to_string()), false),
        AddressPlan::Configured(ref s) if s == "10.0.0.3"
    ));
    assert!(matches!(plan_address(None, None, false), AddressPlan::Ask));
    assert!(matches!(plan_address(None, None, true), AddressPlan::Detect));
    assert_eq!(missing_configured_address(true), MissingAddress::Fail);
    assert_eq!(missing_configured_address(false), MissingAddress::Ask);
}

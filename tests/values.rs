use gs1900::addr::{IPv4Address, MacAddress};
use gs1900::types::{
    CablePairState, Error, LLDPCap, MacEntryType, MediaType, PoEClass, PoEMode, PoEPowerUpSequence,
    PoEPriority, PoEStatus, PortDuplex, PortSpeed, SFPStatus, VLANType,
};

#[test]
fn mac_parse_and_format() {
    let m = MacAddress::from_str("00:1A:2b:3C:4d:5e").unwrap();
    assert_eq!(m.bytes, [0x00, 0x1a, 0x2b, 0x3c, 0x4d, 0x5e]);
    assert_eq!(m.to_string(), "00:1a:2b:3c:4d:5e");
}

#[test]
fn mac_round_trip_all_bytes() {
    for b in 0..=255u8 {
        let m = MacAddress { bytes: [b, 255 - b, b / 2, 7, 0, 255] };
        let back = MacAddress::from_str(&m.to_string()).unwrap();
        assert_eq!(back.bytes, m.bytes);
    }
}

#[test]
fn mac_rejects_bad_shapes() {
    assert_eq!(MacAddress::from_str("00:1a:2b:3c:4d").unwrap_err(), Error::Malformed);
    assert_eq!(MacAddress::from_str("00:1a:2b:3c:4d:5e:6f").unwrap_err(), Error::Malformed);
    assert_eq!(MacAddress::from_str("0:1a:2b:3c:4d:5e").unwrap_err(), Error::Malformed);
    assert_eq!(MacAddress::from_str("00:1a:2b:3c:4d:5g").unwrap_err(), Error::Malformed);
    assert_eq!(MacAddress::from_str("+0:1a:2b:3c:4d:5e").unwrap_err(), Error::Malformed);
    assert_eq!(MacAddress::from_str("").unwrap_err(), Error::Malformed);
}

#[test]
fn mac_default_is_zero() {
    assert_eq!(MacAddress::default().bytes, [0; 6]);
    assert_eq!(MacAddress::default().to_string(), "00:00:00:00:00:00");
}

#[test]
fn ipv4_parse_and_format() {
    let a = IPv4Address::from_str("192.168.1.254").unwrap();
    assert_eq!(a.bytes, [192, 168, 1, 254]);
    assert_eq!(a.to_string(), "192.168.1.254");
    assert_eq!(IPv4Address::from_str("010.0.0.1").unwrap().bytes, [10, 0, 0, 1]);
    assert_eq!(IPv4Address::default().to_string(), "0.0.0.0");
}

#[test]
fn ipv4_round_trip_all_bytes() {
    for b in 0..=255u8 {
        let a = IPv4Address { bytes: [b, 0, 255 - b, 9] };
        assert_eq!(IPv4Address::from_str(&a.to_string()).unwrap().bytes, a.bytes);
    }
}

#[test]
fn ipv4_rejects_bad_shapes() {
    for s in ["1.2.3", "1.2.3.4.5", "1.2.3.256", "1..3.4", "1.2.3.0004", "1.2.x.4", "", "1.2.3.4 "] {
        assert_eq!(IPv4Address::from_str(s).unwrap_err(), Error::Malformed, "{}", s);
    }
}

#[test]
fn caps_order_and_repeats_do_not_matter() {
    let a = LLDPCap::from_str("Bridge, Router").unwrap();
    let b = LLDPCap::from_str("Router, Bridge").unwrap();
    let c = LLDPCap::from_str("Router, Bridge, Router, Bridge").unwrap();
    assert_eq!(a, b);
    assert_eq!(a, c);
    assert!(a.bridge && a.router && !a.station && !a.wlan && !a.telephone);
    assert_eq!(a.bits(), 2 + 8);
}

#[test]
fn caps_each_phrase_sets_one_flag() {
    assert_eq!(LLDPCap::from_str("Station Only").unwrap().bits(), 1);
    assert_eq!(LLDPCap::from_str("Bridge").unwrap().bits(), 2);
    assert_eq!(LLDPCap::from_str("WLAN").unwrap().bits(), 4);
    assert_eq!(LLDPCap::from_str("Router").unwrap().bits(), 8);
    assert_eq!(LLDPCap::from_str("Telephone").unwrap().bits(), 16);
    assert_eq!(LLDPCap::from_str("Station Only, Bridge, WLAN, Router, Telephone").unwrap().bits(), 31);
}

#[test]
fn caps_unknown_phrase_fails_anywhere() {
    assert_eq!(LLDPCap::from_str("Repeater").unwrap_err(), Error::Malformed);
    assert_eq!(LLDPCap::from_str("Repeater, Bridge").unwrap_err(), Error::Malformed);
    assert_eq!(LLDPCap::from_str("Bridge, Repeater").unwrap_err(), Error::Malformed);
    assert_eq!(LLDPCap::from_str("").unwrap_err(), Error::Malformed);
}

#[test]
fn port_speed_table() {
    let table: [(&str, bool, u32); 14] = [
        ("auto", true, 0),
        ("Auto", true, 0),
        ("a-1000M", true, 1000),
        ("1000M", false, 1000),
        ("1000Mb", false, 1000),
        ("1000Mb/s", false, 1000),
        ("a-100M", true, 100),
        ("100M", false, 100),
        ("100Mb", false, 100),
        ("100Mb/s", false, 100),
        ("a-10M", true, 10),
        ("10M", false, 10),
        ("10Mb", false, 10),
        ("10Mb/s", false, 10),
    ];
    for (lit, auto, speed) in table {
        assert_eq!(PortSpeed::from_str(lit).unwrap(), PortSpeed { auto, speed }, "{}", lit);
    }
    for lit in ["a-10Mb", "1G", "AUTO", "", "100 M"] {
        assert_eq!(PortSpeed::from_str(lit).unwrap_err(), Error::Malformed);
    }
}

#[test]
fn port_duplex_table() {
    assert_eq!(PortDuplex::from_str("Auto").unwrap(), PortDuplex::Auto);
    assert_eq!(PortDuplex::from_str("auto").unwrap(), PortDuplex::Auto);
    assert_eq!(PortDuplex::from_str("a-full").unwrap(), PortDuplex::Full);
    assert_eq!(PortDuplex::from_str("Full").unwrap(), PortDuplex::Full);
    assert_eq!(PortDuplex::from_str("half").unwrap(), PortDuplex::Half);
    assert_eq!(PortDuplex::from_str("a-half").unwrap(), PortDuplex::Half);
    assert!(PortDuplex::from_str("FULL").is_err());
}

#[test]
fn enum_literal_tables() {
    assert_eq!(MacEntryType::from_str("Management").unwrap(), MacEntryType::Management);
    assert_eq!(MacEntryType::from_str("Static").unwrap(), MacEntryType::Static);
    assert!(MacEntryType::from_str("static").is_err());
    assert_eq!(SFPStatus::from_str("N/A").unwrap(), SFPStatus::NotAvailable);
    assert_eq!(SFPStatus::from_str("W").unwrap(), SFPStatus::Warning);
    assert_eq!(SFPStatus::from_str("E").unwrap(), SFPStatus::Error);
    assert!(SFPStatus::from_str("ok").is_err());
    assert_eq!(PoEClass::from_str("class3").unwrap(), PoEClass::Class3);
    assert!(PoEClass::from_str("class5").is_err());
    assert_eq!(PoEPriority::from_str("critical").unwrap(), PoEPriority::Critical);
    assert_eq!(PoEStatus::from_str("searching").unwrap(), PoEStatus::Searching);
    assert_eq!(PoEMode::from_str("Port limit mode").unwrap(), PoEMode::Consumption);
    assert_eq!(PoEPowerUpSequence::from_str("Simultaneous").unwrap(), PoEPowerUpSequence::Simultaneous);
    assert_eq!(CablePairState::from_str("ImpedanceMis").unwrap(), CablePairState::ImpedanceMis);
    assert_eq!(MediaType::from_str("Fiber").unwrap(), MediaType::Fiber);
    assert_eq!(VLANType::from_str("Dynamic").unwrap(), VLANType::Dynamic);
    assert_eq!(VLANType::from_str("Other").unwrap_err(), Error::Malformed);
}

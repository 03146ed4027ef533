use gs1900::basic::parse_basic_info;
use gs1900::cable::{parse_cable_info, parse_cable_info_port};
use gs1900::iface::{parse_interface_info, parse_interface_info_port};
use gs1900::poe::{parse_poe_debug, parse_poe_info};
use gs1900::status::parse_interface_status_info;
use gs1900::tables::{
    parse_fiber_entry, parse_fiber_info, parse_lldp_info, parse_mac_lookup, parse_mac_table,
    parse_vlan_info,
};
use gs1900::MacAddress;
use gs1900::types::{
    CablePairState, Error, MacEntryType, MediaType, PoEClass, PoEMode, PoEPowerUpSequence,
    PoEPriority, PoEStatus, PortDuplex, PortSpeed, SFPStatus, VLANType,
};


fn info_text(uptime: &str) -> String {
    format!(
        "System Name       : core-sw\nSystem Location   : rack 2\nSystem Contact    : noc\n\
         MAC Address       : 00:1A:2B:3C:4D:5E\nIP Address        : 192.168.1.2\n\
         Subnet Mask       : 255.255.255.0\nBoot Version      : V2.40\n\
         Firmware Version  : V2.60(AAZI.2)\nSystem Object ID  : 1.3.6.1.4.1.890\n\
         System Up Time  : {}\n",
        uptime
    )
}

#[test]
fn basic_info_uptime_in_seconds() {
    let b = parse_basic_info(&info_text("2 days, 3 hours, 4 mins, 5 secs")).unwrap();
    assert_eq!(b.system_uptime, 2 * 86400 + 3 * 3600 + 4 * 60 + 5);
    assert_eq!(b.system_uptime, 183845);
}

#[test]
fn basic_info_fields() {
    let b = parse_basic_info(&info_text("0 days, 0 hours, 1 mins, 0 secs")).unwrap();
    assert_eq!(b.system_name, "core-sw");
    assert_eq!(b.system_location, "rack 2");
    assert_eq!(b.system_contact, "noc");
    assert_eq!(b.mac_address.bytes, [0x00, 0x1a, 0x2b, 0x3c, 0x4d, 0x5e]);
    assert_eq!(b.ip_address.bytes, [192, 168, 1, 2]);
    assert_eq!(b.subnet_mask.bytes, [255, 255, 255, 0]);
    assert_eq!(b.boot_version, "V2.40");
    assert_eq!(b.firmware_version, "V2.60(AAZI.2)");
    assert_eq!(b.system_object_id, "1.3.6.1.4.1.890");
    assert_eq!(b.system_uptime, 60);
}

#[test]
fn basic_info_unknown_key_fails() {
    let text = format!("{}Serial Number : 123\n", info_text("1 days, 0 hours, 0 mins, 0 secs"));
    assert_eq!(parse_basic_info(&text).unwrap_err(), Error::Protocol);
}

#[test]
fn basic_info_bad_address_fails() {
    let text = "MAC Address : 00:1a:2b\n";
    assert_eq!(parse_basic_info(text).unwrap_err(), Error::Malformed);
}

#[test]
fn basic_info_unknown_key_fails_anywhere() {
    let text = "System Name : a\nGS1900#\nBogus Key : b\n";
    assert_eq!(parse_basic_info(text).unwrap_err(), Error::Protocol);
    let b = parse_basic_info("System Name : a\nGS1900#\n").unwrap();
    assert_eq!(b.system_name, "a");
    assert_eq!(b.system_uptime, 0);
}

#[test]
fn fiber_entry_value_and_status() {
    assert_eq!(parse_fiber_entry("25.0  (OK)").unwrap(), (250, "OK".to_string()));
    assert_eq!(parse_fiber_entry("-3.5  (W)").unwrap(), (-35, "W".to_string()));
    assert_eq!(parse_fiber_entry("N/A").unwrap(), (0, "N/A".to_string()));
    assert_eq!(parse_fiber_entry("x.5  (OK)").unwrap_err(), Error::Malformed);
}

#[test]
fn fiber_table() {
    let text = "Port | Temperature | Voltage | Current | Output power | Input power | OE-Present | LOS\n\
                ----+----\n\
                25 | 40.5  (OK) | 3.30  (OK) | 6.10  (W) | 0.55  (OK) | N/A | Insert | Normal\n\
                26 | N/A | N/A | N/A | N/A | N/A | Remove | Loss\n";
    let v = parse_fiber_info(text).unwrap();
    assert_eq!(v.len(), 2);
    assert_eq!(v[0].port, 25);
    assert_eq!(v[0].temperature, 405);
    assert_eq!(v[0].temperature_status, SFPStatus::OK);
    assert_eq!(v[0].voltage, 330);
    assert_eq!(v[0].current, 610);
    assert_eq!(v[0].current_status, SFPStatus::Warning);
    assert_eq!(v[0].output_power, 55);
    assert_eq!(v[0].input_power, 0);
    assert_eq!(v[0].input_power_status, SFPStatus::NotAvailable);
    assert!(v[0].present && v[0].link);
    assert!(!v[1].present && !v[1].link);
}

const MAC_TABLE: &str = " VID | MAC Address       | Type    | Ports\n\
                         -----+-------------------+---------+------\n\
                         short | line\n\
                         1 | 00:1a:2b:3c:4d:5e | Dynamic | gi1\n\
                         20 | 00:00:00:00:00:01 | Management | CPU\n";

#[test]
fn mac_table_skips_header_and_short_lines() {
    let v = parse_mac_table(MAC_TABLE).unwrap();
    assert_eq!(v.len(), 2);
    assert_eq!(v[0].vlan_id, 1);
    assert_eq!(v[0].mac_address.bytes, [0x00, 0x1a, 0x2b, 0x3c, 0x4d, 0x5e]);
    assert_eq!(v[0].entry_type, MacEntryType::Dynamic);
    assert_eq!(v[0].ports, "gi1");
    assert_eq!(v[1].vlan_id, 20);
    assert_eq!(v[1].entry_type, MacEntryType::Management);
}

#[test]
fn mac_table_bad_port_fails_whole_call() {
    let text = format!("{}x1 | 00:1a:2b:3c:4d:5e | Dynamic | gi1\n", MAC_TABLE);
    assert_eq!(parse_mac_table(&text).unwrap_err(), Error::Malformed);
    let text = format!("{}1 | 00:1a:2b:3c:4d | Dynamic | gi1\n", MAC_TABLE);
    assert!(parse_mac_table(&text).is_err());
    let text = format!("{}1 | 00:1a:2b:3c:4d:5e | Learned | gi1\n", MAC_TABLE);
    assert!(parse_mac_table(&text).is_err());
}

#[test]
fn mac_lookup_selects_by_address() {
    let wanted = MacAddress::from_str("00:00:00:00:00:01").unwrap();
    let e = parse_mac_lookup(MAC_TABLE, &wanted).unwrap().unwrap();
    assert_eq!(e.vlan_id, 20);
    assert_eq!(e.ports, "CPU");
    let first = MacAddress::from_str("00:1a:2b:3c:4d:5e").unwrap();
    assert_eq!(parse_mac_lookup(MAC_TABLE, &first).unwrap().unwrap().ports, "gi1");
    let absent = MacAddress::from_str("aa:bb:cc:dd:ee:ff").unwrap();
    assert!(parse_mac_lookup(MAC_TABLE, &absent).unwrap().is_none());
    assert!(parse_mac_lookup(" VID | MAC Address | Type | Ports\n", &first).unwrap().is_none());
    let bad = format!("{}x | 00:1a:2b:3c:4d:5e | Dynamic | gi1\n", MAC_TABLE);
    assert!(parse_mac_lookup(&bad, &first).is_err());
}

#[test]
fn vlan_table() {
    let text = " VID | VLAN Name | Untagged Ports | Tagged Ports | Type\n\
                -----+-----\n\
                1 | default | 1-8 |  | Default\n\
                10 | guests | 3 | 1-2 | Static\n";
    let v = parse_vlan_info(text).unwrap();
    assert_eq!(v.len(), 2);
    assert_eq!(v[0].id, 1);
    assert_eq!(v[0].name, "default");
    assert_eq!(v[0].ports_untagged, "1-8");
    assert_eq!(v[0].ports_tagged, "");
    assert_eq!(v[0].vlan_type, VLANType::Default);
    assert_eq!(v[1].id, 10);
    assert_eq!(v[1].vlan_type, VLANType::Static);
    assert!(parse_vlan_info("x | a | b | c | Static\n").is_err());
}

#[test]
fn lldp_neighbors() {
    let text = " Port | Device ID | Port ID | SysName | Capabilities | TTL\n\
                ------+------\n\
                3 | 00:11:22:33:44:55 | gi1 | sw2 | Bridge, Router | 120\n\
                GS1900#\n";
    let v = parse_lldp_info(text).unwrap();
    assert_eq!(v.len(), 1);
    assert_eq!(v[0].port, 3);
    assert_eq!(v[0].device_id, "00:11:22:33:44:55");
    assert_eq!(v[0].port_id, "gi1");
    assert_eq!(v[0].system_name, "sw2");
    assert!(v[0].caps.bridge && v[0].caps.router);
    assert_eq!(v[0].ttl, 120);
    let late = format!("{}4 | x | y | z | Nonsense | 1\n", text);
    assert_eq!(parse_lldp_info(&late).unwrap_err(), Error::Malformed);
    let reordered = text.replace("Bridge, Router", "Router, Bridge, Router");
    assert_eq!(parse_lldp_info(&reordered).unwrap()[0].caps, v[0].caps);
    let bad = "3 | a | b | c | Bridge, Repeater | 120\n";
    assert!(parse_lldp_info(bad).is_err());
}

#[test]
fn poe_debug_fixed_width() {
    let line = format!("{:<4} {:<5} {:<10} {:<8} {:<7} {}", "1", "en", "on", "low", "class2", "Normal power");
    let text = format!("Port State Status     Priority Class   Reason\n---- ----- ---------- -------- ------- ------\n{}\nshort\n", line);
    let v = parse_poe_debug(&text).unwrap();
    assert_eq!(v.len(), 1);
    assert_eq!(v[0].port, 1);
    assert_eq!(v[0].status, PoEStatus::On);
    assert_eq!(v[0].priority, PoEPriority::Low);
    assert_eq!(v[0].class, PoEClass::Class2);
    assert_eq!(v[0].reason, "Normal power");
    let bad = format!("{:<4} {:<5} {:<10} {:<8} {:<7} {}", "1", "en", "maybe", "low", "class2", "x");
    assert!(parse_poe_debug(&bad).is_err());
}

#[test]
fn poe_info_sections() {
    let supply = format!("{:<4} {:<5} {:<6} {:<8} {:<15} {:<8} {}", "0", "On", "Normal", "120Watts", "30Watts (25%)", "10Watts", "110Watts");
    let port = format!("{:<4} {:<24} {:<10} {:<12} {}", "1", "15400 (30000)", "3500", "53000", "66");
    let text = format!(
        "Power management mode: Port limit mode\nPre-allocation: Disabled\nPower-up sequence: Simultaneous\n\n\
         Unit Power Status Nominal  Allocated       Consumed Available\n\
         ---- ----- ------ -------- --------------- -------- ---------\n{}\n\n\
         Port Power Limit (Admin) (mW) Power (mW) Voltage (mV) Current (mA)\n\
         ---- ------------------------ ---------- ------------ ------------\n{}\n",
        supply, port
    );
    let (cfg, supplies, ports) = parse_poe_info(&text).unwrap();
    assert_eq!(cfg.management_mode, PoEMode::Consumption);
    assert!(!cfg.pre_allocation);
    assert_eq!(cfg.power_up_sequence, PoEPowerUpSequence::Simultaneous);
    assert_eq!(supplies.len(), 1);
    assert_eq!(supplies[0].unit, 0);
    assert_eq!(supplies[0].power, "On");
    assert_eq!(supplies[0].status, "Normal");
    assert_eq!(supplies[0].nominal_power, 120);
    assert_eq!(supplies[0].allocated_power, 30);
    assert_eq!(supplies[0].consumed_power, 10);
    assert_eq!(supplies[0].available_power, 110);
    assert_eq!(ports.len(), 1);
    assert_eq!(ports[0].port, 1);
    assert_eq!(ports[0].power_limit, 15400);
    assert_eq!(ports[0].admin_power_limit, 30000);
    assert_eq!(ports[0].power, 3500);
    assert_eq!(ports[0].voltage, 53000);
    assert_eq!(ports[0].current, 66);
}

#[test]
fn poe_info_unknown_config_key_fails() {
    assert_eq!(parse_poe_info("Mystery: 1\n").unwrap_err(), Error::Protocol);
    assert!(parse_poe_info("Power management mode: Magic\n").is_err());
}

const CABLE: &str = "Port | Speed | Local pair | Pair length | Pair status\n\
                     --------+------\n\
                     1 | 1000M | Pair A | 1.50 | Normal\n\
                     Pair B | 2.00 | Open\n\
                     Pair C | 0.00 | LineDriver\n\
                     Pair D | 3.25 | ImpedanceMis\n\
                     \n\
                     2 | auto | Pair A | 0.00 | Open\n\
                     \n";

#[test]
fn cable_blocks() {
    let v = parse_cable_info(CABLE).unwrap();
    assert_eq!(v.len(), 2);
    assert_eq!(v[0].port, 1);
    assert_eq!(v[0].speed, PortSpeed { auto: false, speed: 1000 });
    assert_eq!(v[0].pair_info[0].pair, 'A');
    assert_eq!(v[0].pair_info[0].length, 150);
    assert_eq!(v[0].pair_info[0].status, CablePairState::Normal);
    assert_eq!(v[0].pair_info[1].length, 200);
    assert_eq!(v[0].pair_info[1].status, CablePairState::Open);
    assert_eq!(v[0].pair_info[2].status, CablePairState::LineDriver);
    assert_eq!(v[0].pair_info[3].pair, 'D');
    assert_eq!(v[0].pair_info[3].length, 325);
    assert_eq!(v[0].pair_info[3].status, CablePairState::ImpedanceMis);
    assert_eq!(v[1].port, 2);
    assert_eq!(v[1].speed, PortSpeed { auto: true, speed: 0 });
    assert_eq!(v[1].pair_info[1].pair, 'B');
    assert_eq!(v[1].pair_info[1].length, 0);
}

#[test]
fn cable_port_variant() {
    let c = parse_cable_info_port(CABLE, 2).unwrap().unwrap();
    assert_eq!(c.port, 2);
    assert_eq!(parse_cable_info_port(CABLE, 1).unwrap().unwrap().pair_info[3].length, 325);
    assert!(parse_cable_info_port(CABLE, 9).unwrap().is_none());
    assert!(parse_cable_info_port("Port | Speed | Local pair | Pair length | Pair status\n", 1).unwrap().is_none());
    assert!(parse_cable_info("x | auto | Pair A | 1.0 | Open\n").is_err());
}

fn iface_block(port: u32, flow: &str) -> String {
    format!(
        "GigabitEthernet{} is up\n  Hardware is Gigabit Ethernet\n  a-full-duplex, a-1000M-speed, media type is Copper\n  flow-control is {}\n\
         \x20    10 packets input, 2000 bytes, 0 throttles\n\
         \x20    Received 3 broadcasts (4 multicasts)\n\
         \x20    0 runts, 1 giants, 0 throttles\n\
         \x20    1 input errors, 2 CRC, 3 frame, 4 overrun, 5 ignored\n\
         \x20    6 multicast, 7 pause input\n\
         \x20    8 input packets with dribble condition detected\n\
         \x20    20 packets output, 3000 bytes, 9 underrun\n\
         \x20    9 output errors, 10 collisions, 11 interface resets\n\
         \x20    12 babbles, 13 late collision, 14 deferred\n\
         \x20    15 PAUSE output\n",
        port, flow
    )
}

#[test]
fn interface_counters() {
    let text = format!("{}{}", iface_block(1, "off"), iface_block(2, "on"));
    let v = parse_interface_info(&text).unwrap();
    assert_eq!(v.len(), 2);
    let s = v[0];
    assert_eq!(s.port, 1);
    assert!(s.up);
    assert_eq!(s.duplex, PortDuplex::Full);
    assert_eq!(s.speed, PortSpeed { auto: true, speed: 1000 });
    assert_eq!(s.media_type, MediaType::Copper);
    assert!(!s.flow_control);
    assert_eq!((s.input_packets, s.input_bytes, s.input_throttles), (10, 2000, 0));
    assert_eq!((s.input_broadcasts, s.input_multicasts), (3, 4));
    assert_eq!((s.input_runts, s.input_giants), (0, 1));
    assert_eq!((s.input_errors, s.input_crc, s.input_frame, s.input_overrun, s.input_ignored), (1, 2, 3, 4, 5));
    assert_eq!(s.input_pause, 7);
    assert_eq!(s.input_dribble, 8);
    assert_eq!((s.output_packets, s.output_bytes, s.output_underrun), (20, 3000, 9));
    assert_eq!((s.output_errors, s.output_collisions, s.output_interface_resets), (9, 10, 11));
    assert_eq!((s.output_babbles, s.output_late_collisions, s.output_deferred), (12, 13, 14));
    assert_eq!(s.output_paused, 15);
    assert_eq!(v[1].port, 2);
    assert!(v[1].flow_control);
}

#[test]
fn interface_port_variant_and_not_found() {
    let text = format!("{}{}", iface_block(7, "off"), iface_block(8, "on"));
    let s = parse_interface_info_port(&text, 8).unwrap();
    assert_eq!(s.port, 8);
    assert!(s.flow_control);
    assert_eq!(parse_interface_info_port(&text, 7).unwrap().port, 7);
    assert_eq!(parse_interface_info_port(&text, 3).unwrap_err(), Error::NotFound);
    assert_eq!(parse_interface_info_port("nothing here\n", 1).unwrap_err(), Error::NotFound);
    let overflow = "GigabitEthernet1 is up\n     99999999999 packets input, 1 bytes, 0 throttles\n";
    assert_eq!(parse_interface_info(overflow).unwrap_err(), Error::Malformed);
}

#[test]
fn interface_record_without_port_is_dropped() {
    let text = "     5 PAUSE output\n";
    assert_eq!(parse_interface_info(text).unwrap().len(), 0);
}

#[test]
fn interface_status_table() {
    let text = "Port  Name        Status      Vlan  Duplex  Speed    Type\n\
                1     uplink one  connected   1     a-full  a-1000M  Copper\n\
                2                 notconnect  10    Auto    Auto     Fiber\n\
                3     x notconnect 1 Auto Auto Copper\n\
                garbage line\n";
    let v = parse_interface_status_info(text).unwrap();
    assert_eq!(v.len(), 3);
    assert_eq!(v[0].port, 1);
    assert_eq!(v[0].name, "uplink one");
    assert!(v[0].connected);
    assert_eq!(v[0].vlan, 1);
    assert_eq!(v[0].duplex, PortDuplex::Full);
    assert_eq!(v[0].speed, PortSpeed { auto: true, speed: 1000 });
    assert_eq!(v[0].mediatype, MediaType::Copper);
    assert_eq!(v[1].port, 2);
    assert_eq!(v[1].name, "");
    assert!(!v[1].connected);
    assert_eq!(v[1].vlan, 10);
    assert_eq!(v[1].mediatype, MediaType::Fiber);
    assert_eq!(v[2].name, "x");
    let bad = "1  n  connected  1  sideways  Auto  Copper\n";
    assert!(parse_interface_status_info(bad).is_err());
}

#[test]
fn poe_debug_skips_any_non_numeric_port_slice() {
    let line = format!("{:<4} {:<5} {:<10} {:<8} {:<7} {}", "2", "en", "off", "high", "class0", "Disabled");
    let text = format!("==== ===== ========== ======== ======= ======\nUnit somewhere else entirely here and more\n{}\n", line);
    let v = parse_poe_debug(&text).unwrap();
    assert_eq!(v.len(), 1);
    assert_eq!(v[0].port, 2);
    let big = format!("{:<4} {:<5} {:<10} {:<8} {:<7} {}", "300", "en", "off", "high", "class0", "x");
    assert_eq!(parse_poe_debug(&big).unwrap_err(), Error::Malformed);
}

#[test]
fn poe_port_values_are_not_negative() {
    let port = format!("{:<4} {:<24} {:<10} {:<12} {}", "1", "15400 (30000)", "3500", "53000", "-5");
    let text = format!("\n\n{}\n", port);
    assert_eq!(parse_poe_info(&text).unwrap_err(), Error::Malformed);
    let ok = format!("{:<4} {:<24} {:<10} {:<12} {}", "1", "15400 (30000)", "3500", "53000", "5");
    assert_eq!(parse_poe_info(&format!("\n\n{}\n", ok)).unwrap().2[0].current, 5);
}

#[test]
fn fiber_negative_reading_only_for_temperature() {
    let ok = "25 | -4.5  (W) | 3.30  (OK) | 6.10  (OK) | 0.55  (OK) | 0.40  (OK) | Insert | Normal\n";
    assert_eq!(parse_fiber_info(ok).unwrap()[0].temperature, -45);
    let bad = "25 | 4.5  (OK) | -3.30  (OK) | 6.10  (OK) | 0.55  (OK) | 0.40  (OK) | Insert | Normal\n";
    assert_eq!(parse_fiber_info(bad).unwrap_err(), Error::Malformed);
}

#[test]
fn cable_pair_beyond_d_still_needs_valid_columns() {
    let skipped = "1 | 100M | Pair A | 1.00 | Open\nPair E | 2.00 | Open\n\n";
    let v = parse_cable_info(skipped).unwrap();
    assert_eq!(v.len(), 1);
    assert_eq!(v[0].pair_info[1].length, 0);
    let bad_state = "1 | 100M | Pair A | 1.00 | Open\nPair E | 2.00 | Broken\n\n";
    assert_eq!(parse_cable_info(bad_state).unwrap_err(), Error::Malformed);
}

use std::hash::{Hash, Hasher};
use plc_modbus::address::{check_ip, first_ipv4, generate_tcp_key, is_ipv4, parse_ipv4, Host};
use plc_modbus::error::ModbusError;
use plc_modbus::manager::{ModbusManager, OpenStep};
use plc_modbus::serial::{generate_serial_key, uppercase_port_names};

#[test]
fn tcp_key_of_a_literal_address() {
    let host = check_ip("192.168.1.10").unwrap();
    assert_eq!(host, Host::Address(0xC0A8010A));
    assert_eq!(generate_tcp_key(0xC0A8010A, 502), 0x0000_C0A8_010A_01F6);
}

#[test]
fn opening_the_same_endpoint_twice_reuses_the_id() {
    let mut m: ModbusManager<u32> = ModbusManager::new();
    let first = m.tcp_step(0xC0A8010A, 502);
    assert_eq!(first, OpenStep::Connect(0x0000_C0A8_010A_01F6));
    m.insert(0x0000_C0A8_010A_01F6, 7);
    assert_eq!(m.tcp_step(0xC0A8010A, 502), OpenStep::Reuse(0x0000_C0A8_010A_01F6));
    assert_eq!(m.get_all_connections(), vec![0x0000_C0A8_010A_01F6]);
}

#[test]
fn resolved_host_gives_key_of_first_ipv4() {
    assert_eq!(check_ip("localhost").unwrap(), Host::Name);
    let ip = first_ipv4("localhost", &vec![None, Some(0x7F000001), Some(0x0A000001)]).unwrap();
    assert_eq!(ip, 0x7F000001);
    assert_eq!(generate_tcp_key(ip, 1502), 0x7F00_0001_05DE);
}

#[test]
fn resolver_without_ipv4_is_invalid_ip() {
    match first_ipv4("example.invalid", &vec![None, None]) {
        Err(ModbusError::InvalidIp(h)) => assert_eq!(h, "example.invalid"),
        other => panic!("unexpected {:?}", other),
    }
}

#[test]
fn ipv4_literal_detection() {
    assert!(is_ipv4("192.168.1.10"));
    assert!(is_ipv4("0.0.0.0"));
    assert!(is_ipv4("010.0.0.1"));
    assert!(!is_ipv4("256.1.1.1"));
    assert!(!is_ipv4("1.2.3"));
    assert!(!is_ipv4("1.2.3.4.5"));
    assert!(!is_ipv4("localhost"));
    assert!(!is_ipv4("1.2.3.4 "));
    assert!(!is_ipv4(""));
}

#[test]
fn strict_parse_rejects_leading_zeros() {
    assert_eq!(parse_ipv4("10.0.0.1"), Some(0x0A000001));
    assert_eq!(parse_ipv4("255.255.255.255"), Some(0xFFFF_FFFF));
    assert_eq!(parse_ipv4("010.0.0.1"), None);
    match check_ip("010.0.0.1") {
        Err(ModbusError::InvalidIp(s)) => assert_eq!(s, "010.0.0.1"),
        other => panic!("unexpected {:?}", other),
    }
}

#[test]
fn serial_key_needs_a_listed_port() {
    let ports = uppercase_port_names(&vec!["/dev/ttyUSB0".to_string(), "com3".to_string()]);
    assert_eq!(ports, vec!["/DEV/TTYUSB0".to_string(), "COM3".to_string()]);
    match generate_serial_key("com4", &ports) {
        Err(ModbusError::SerialPortNotFound(s)) => assert_eq!(s, "COM4"),
        other => panic!("unexpected {:?}", other),
    }
}

#[test]
fn serial_key_ignores_case_and_is_stable() {
    let ports = vec!["COM3".to_string()];
    let a = generate_serial_key("com3", &ports).unwrap();
    let b = generate_serial_key("COM3", &ports).unwrap();
    assert_eq!(a, b);
    let mut h = std::collections::hash_map::DefaultHasher::new();
    "COM3".to_string().hash(&mut h);
    assert_eq!(a, h.finish() as i64);
}

#[test]
fn serial_step_reuses_an_open_port() {
    let ports = vec!["COM3".to_string()];
    let mut m: ModbusManager<u8> = ModbusManager::new();
    let id = match m.serial_step("com3", &ports).unwrap() {
        OpenStep::Connect(id) => id,
        other => panic!("unexpected {:?}", other),
    };
    assert_eq!(m.admit_serial(id, 1, Ok(())).unwrap(), id);
    assert_eq!(m.serial_step("COM3", &ports).unwrap(), OpenStep::Reuse(id));
}

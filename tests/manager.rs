use plc_modbus::error::ModbusError;
use plc_modbus::manager::ModbusManager;

#[test]
fn exists_between_open_and_disconnect() {
    let mut m: ModbusManager<String> = ModbusManager::new();
    assert!(!m.connection_exists(5));
    m.insert(5, "a".to_string());
    assert!(m.connection_exists(5));
    assert_eq!(m.disconnect(5).unwrap(), "a");
    assert!(!m.connection_exists(5));
}

#[test]
fn disconnect_of_unknown_id_fails() {
    let mut m: ModbusManager<String> = ModbusManager::new();
    m.insert(1, "a".to_string());
    assert!(matches!(m.disconnect(2), Err(ModbusError::ClientNotFound(2))));
    assert!(m.connection_exists(1));
}

#[test]
fn lookup_of_unknown_id_fails() {
    let mut m: ModbusManager<u16> = ModbusManager::new();
    m.insert(9, 90);
    assert_eq!(*m.client(9).unwrap(), 90);
    assert!(matches!(m.client(8), Err(ModbusError::ClientNotFound(8))));
}

#[test]
fn list_holds_each_id_once() {
    let mut m: ModbusManager<u8> = ModbusManager::new();
    m.insert(3, 0);
    m.insert(1, 0);
    m.insert(3, 1);
    let mut ids = m.get_all_connections();
    ids.sort();
    assert_eq!(ids, vec![1, 3]);
}

#[test]
fn failed_probe_registers_nothing() {
    let mut m: ModbusManager<u8> = ModbusManager::new();
    match m.admit_serial(4, 0, Err("timeout".to_string())) {
        Err(ModbusError::Other(s)) => assert_eq!(s, "串口连接验证失败: timeout"),
        other => panic!("unexpected {:?}", other),
    }
    assert!(!m.connection_exists(4));
}

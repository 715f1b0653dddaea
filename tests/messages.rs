use plc_modbus::command::{to_i64, to_u64};
use plc_modbus::error::{push_decimal, ModbusError, PLCError};

#[test]
fn modbus_messages() {
    assert_eq!(ModbusError::ClientNotFound(-42).message(), "未找到 ID 为 -42 的连接");
    assert_eq!(ModbusError::InvalidIp("x".to_string()).message(), "无效的 IP 地址: x");
    assert_eq!(ModbusError::SerialPortNotFound("COM9".to_string()).message(), "串口不存在: COM9");
    assert_eq!(ModbusError::Other("boom".to_string()).message(), "其他错误: boom");
}

#[test]
fn plc_messages() {
    assert_eq!(
        PLCError::TaskNotFound { client_id: 7, address: 11 }.message(),
        "任务未找到: 客户端 ID 7, 地址 11"
    );
    assert_eq!(PLCError::Other("间隔时间不能为零".to_string()).message(), "间隔时间不能为零");
    assert_eq!(PLCError::ShortFrame { needed: 2, got: 0 }.message(), "返回的数据不足: 需要 2, 实际 0");
}

#[test]
fn decimal_text_of_extremes() {
    let mut s = String::new();
    push_decimal(&mut s, i64::MIN);
    assert_eq!(s, i64::MIN.to_string());
    let mut t = String::from("n=");
    push_decimal(&mut t, i64::MAX);
    assert_eq!(t, format!("n={}", i64::MAX));
    let mut z = String::new();
    push_decimal(&mut z, 0);
    assert_eq!(z, "0");
}

#[test]
fn client_ids_parse_as_decimal() {
    assert_eq!(to_i64("211811230622198"), Ok(211811230622198));
    assert_eq!(to_i64("-5"), Ok(-5));
    assert_eq!(to_i64("+5"), Ok(5));
    let e = to_i64("12a").unwrap_err();
    assert!(e.starts_with("无效的客户端ID: "));
    assert!(to_i64("").is_err());
    assert!(to_i64("9223372036854775808").is_err());
}

#[test]
fn intervals_parse_as_unsigned_decimal() {
    assert_eq!(to_u64("1000"), Ok(1000));
    assert_eq!(to_u64("18446744073709551615"), Ok(u64::MAX));
    let e = to_u64("-1").unwrap_err();
    assert!(e.starts_with("无效的间隔时间: "));
    assert!(to_u64("18446744073709551616").is_err());
}

#[test]
fn modbus_failures_become_plc_text() {
    match PLCError::from_modbus(ModbusError::SerialPortNotFound("COM1".to_string())) {
        PLCError::Other(m) => assert_eq!(m, "串口不存在: COM1"),
        other => panic!("unexpected {:?}", other),
    }
}

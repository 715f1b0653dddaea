use plc_modbus::error::{ModbusError, PLCError};
use plc_modbus::facade::{
    decode_reply, read_request, read_value, write_bool_request, write_dword_request, write_float_request,
    write_word_request, Reading, Reply, Request,
};
use plc_modbus::notice::{make_update, BoolValue, FloatBitsValue, Update};
use plc_modbus::task::{DataType, TaskDefinition};

#[test]
fn read_requests_follow_the_table() {
    assert!(matches!(read_request(DataType::Bool, true, 3), Request::ReadCoils { address: 3, quantity: 1 }));
    assert!(matches!(read_request(DataType::Word, false, 3), Request::ReadHoldingRegisters { address: 3, quantity: 1 }));
    assert!(matches!(read_request(DataType::Word, true, 3), Request::ReadInputRegisters { address: 3, quantity: 1 }));
    assert!(matches!(read_request(DataType::Dword, false, 3), Request::ReadHoldingRegisters { address: 3, quantity: 2 }));
    assert!(matches!(read_request(DataType::Float, true, 3), Request::ReadInputRegisters { address: 3, quantity: 2 }));
}

#[test]
fn read_dword_from_holding_registers() {
    assert!(matches!(read_request(DataType::Dword, false, 100), Request::ReadHoldingRegisters { address: 100, quantity: 2 }));
    assert_eq!(read_value(DataType::Dword, Ok(Reply::Registers(vec![0xCCDD, 0xAABB]))).unwrap(), Reading::Dword(0xAABBCCDD));
}

#[test]
fn write_float_one() {
    match write_float_request(200, 1.0f32.to_bits()) {
        Request::WriteMultipleRegisters { address, values } => {
            assert_eq!(address, 200);
            assert_eq!(values, vec![0x0000, 0x3F80]);
        }
        other => panic!("unexpected {:?}", other),
    }
}

#[test]
fn write_requests() {
    assert!(matches!(write_bool_request(7, true), Request::WriteSingleCoil { address: 7, value: true }));
    assert!(matches!(write_word_request(7, 9), Request::WriteSingleRegister { address: 7, value: 9 }));
    match write_dword_request(8, 0xAABBCCDD) {
        Request::WriteMultipleRegisters { address, values } => {
            assert_eq!(address, 8);
            assert_eq!(values, vec![0xCCDD, 0xAABB]);
        }
        other => panic!("unexpected {:?}", other),
    }
}

#[test]
fn read_value_reports_transport_failures() {
    match read_value(DataType::Word, Err(ModbusError::ClientNotFound(12))) {
        Err(PLCError::Other(m)) => assert_eq!(m, "未找到 ID 为 12 的连接"),
        other => panic!("unexpected {:?}", other),
    }
}

#[test]
fn short_and_mismatched_replies() {
    assert!(matches!(decode_reply(DataType::Float, &Reply::Registers(vec![1])), Err(PLCError::ShortFrame { needed: 2, got: 1 })));
    assert!(matches!(decode_reply(DataType::Bool, &Reply::Registers(vec![1])), Err(PLCError::ShortFrame { needed: 1, got: 0 })));
    assert!(matches!(decode_reply(DataType::Word, &Reply::Written), Err(PLCError::ShortFrame { needed: 1, got: 0 })));
}

#[test]
fn float_reading_carries_bits() {
    let r = decode_reply(DataType::Float, &Reply::Registers(vec![0x0000, 0x3F80])).unwrap();
    assert_eq!(r, Reading::Float(0x3F80_0000));
    if let Reading::Float(bits) = r {
        assert_eq!(f32::from_bits(bits), 1.0);
    }
}

#[test]
fn updates_and_event_names() {
    let t = TaskDefinition { client_id: 1, address: 2, data_type: DataType::Float, read_only: true, interval_ms: 4 };
    let u = make_update(&t, Reading::Float(0x3F80_0000));
    assert_eq!(u, Update::Float(FloatBitsValue { client_id: 1, address: 2, read_only: true, bits: 0x3F80_0000 }));
    assert_eq!(u.event_name(), "plc-float-update");
    let b = Update::Bool(BoolValue { client_id: 1, address: 2, value: false });
    assert_eq!(b.event_name(), "plc-bool-update");
    assert_eq!(make_update(&t, Reading::Word(3)).event_name(), "plc-word-update");
    assert_eq!(make_update(&t, Reading::Dword(3)).event_name(), "plc-dword-update");
}

use vstd::prelude::*;
use crate::codec::{decode_bool, decode_dword, decode_word, dword_of, dword_words, encode_dword, ShortFrame};
use crate::error::{modbus_message, ModbusError, PLCError};
use crate::task::DataType;

verus! {

/// One Modbus transaction, as the typed facade chooses it.
#[derive(Debug)]
#[allow(inconsistent_fields)]
pub enum Request {
    ReadCoils { address: u16, quantity: u16 },
    ReadHoldingRegisters { address: u16, quantity: u16 },
    ReadInputRegisters { address: u16, quantity: u16 },
    WriteSingleCoil { address: u16, value: bool },
    WriteSingleRegister { address: u16, value: u16 },
    WriteMultipleRegisters { address: u16, values: Vec<u16> },
}

/// What a transaction returned.
#[derive(Debug)]
pub enum Reply {
    Coils(Vec<bool>),
    Registers(Vec<u16>),
    Written,
}

/// A decoded value; a float is carried as its IEEE-754 bit pattern.
#[derive(Clone, Copy, Debug, PartialEq, Eq, Structural)]
pub enum Reading {
    Bool(bool),
    Word(u16),
    Dword(u32),
    Float(u32),
}

/// The read transaction for a data type: coils for Bool, whatever the flag;
/// otherwise input registers when `read_only`, holding registers when not,
/// one register for Word and two for Dword and Float.
pub open spec fn read_plan(data_type: DataType, read_only: bool, address: u16) -> Request {
    let quantity: u16 = if data_type == DataType::Word { 1 } else { 2 };
    if data_type == DataType::Bool {
        Request::ReadCoils { address, quantity: 1 }
    } else if read_only {
        Request::ReadInputRegisters { address, quantity }
    } else {
        Request::ReadHoldingRegisters { address, quantity }
    }
}

/// The coils a reply carries; none when it carries registers or nothing.
pub open spec fn coils_of(reply: Reply) -> Seq<bool> {
    match reply {
        Reply::Coils(v) => v@,
        _ => Seq::empty(),
    }
}

/// The registers a reply carries; none when it carries coils or nothing.
pub open spec fn registers_of(reply: Reply) -> Seq<u16> {
    match reply {
        Reply::Registers(v) => v@,
        _ => Seq::empty(),
    }
}

/// How many values of its kind a data type occupies.
pub open spec fn width(data_type: DataType) -> usize {
    if data_type == DataType::Bool || data_type == DataType::Word {
        1
    } else {
        2
    }
}

/// How many values of the kind the data type needs a reply carries.
pub open spec fn available(data_type: DataType, reply: Reply) -> usize {
    if data_type == DataType::Bool {
        coils_of(reply).len() as usize
    } else {
        registers_of(reply).len() as usize
    }
}

/// The value a reply holds for a data type; `None` when it is short.
pub open spec fn decoded(data_type: DataType, reply: Reply) -> Option<Reading> {
    let c = coils_of(reply);
    let w = registers_of(reply);
    match data_type {
        DataType::Bool => if c.len() >= 1 { Some(Reading::Bool(c[0])) } else { None },
        DataType::Word => if w.len() >= 1 { Some(Reading::Word(w[0])) } else { None },
        DataType::Dword => if w.len() >= 2 { Some(Reading::Dword(dword_of(w[0], w[1]))) } else { None },
        DataType::Float => if w.len() >= 2 { Some(Reading::Float(dword_of(w[0], w[1]))) } else { None },
    }
}

/// What the facade reports for a data type and the outcome of its read.
pub open spec fn read_outcome(data_type: DataType, reply: Result<Reply, ModbusError>, r: Result<Reading, PLCError>) -> bool {
    match reply {
        Err(e) => r matches Err(PLCError::Other(m)) && m@ == modbus_message(e),
        Ok(rep) => match decoded(data_type, rep) {
            Some(x) => r == Ok::<Reading, PLCError>(x),
            None => r == Err::<Reading, PLCError>(
                PLCError::ShortFrame { needed: width(data_type), got: available(data_type, rep) },
            ),
        },
    }
}

/// Picks the read transaction for a data type.
pub fn read_request(data_type: DataType, read_only: bool, address: u16) -> (r: Request)
    ensures
        r == read_plan(data_type, read_only, address),
{
    match data_type {
        DataType::Bool => Request::ReadCoils { address, quantity: 1 },
        DataType::Word => if read_only {
            Request::ReadInputRegisters { address, quantity: 1 }
        } else {
            Request::ReadHoldingRegisters { address, quantity: 1 }
        },
        _ => if read_only {
            Request::ReadInputRegisters { address, quantity: 2 }
        } else {
            Request::ReadHoldingRegisters { address, quantity: 2 }
        },
    }
}

/// Writes one coil.
pub fn write_bool_request(address: u16, value: bool) -> (r: Request)
    ensures
        r == (Request::WriteSingleCoil { address, value }),
{
    Request::WriteSingleCoil { address, value }
}

/// Writes one holding register.
pub fn write_word_request(address: u16, value: u16) -> (r: Request)
    ensures
        r == (Request::WriteSingleRegister { address, value }),
{
    Request::WriteSingleRegister { address, value }
}

/// Writes a 32-bit value into two holding registers, low word first.
pub fn write_dword_request(address: u16, value: u32) -> (r: Request)
    ensures
        r matches Request::WriteMultipleRegisters { address: a, values } && a == address && values@ == dword_words(value),
{
    Request::WriteMultipleRegisters { address, values: encode_dword(value) }
}

/// Writes the bit pattern of an IEEE-754 single into two holding registers,
/// low word first.
pub fn write_float_request(address: u16, bits: u32) -> (r: Request)
    ensures
        r matches Request::WriteMultipleRegisters { address: a, values } && a == address && values@ == dword_words(bits),
{
    Request::WriteMultipleRegisters { address, values: encode_dword(bits) }
}

fn short(e: ShortFrame) -> (r: PLCError)
    ensures
        r == (PLCError::ShortFrame { needed: e.needed, got: e.got }),
{
    PLCError::ShortFrame { needed: e.needed, got: e.got }
}

/// Decodes the value a reply holds for a data type.
pub fn decode_reply(data_type: DataType, reply: &Reply) -> (r: Result<Reading, PLCError>)
    ensures
        read_outcome(data_type, Ok(*reply), r),
{
    let empty_bits: Vec<bool> = Vec::new();
    let empty_regs: Vec<u16> = Vec::new();
    let bits = match reply {
        Reply::Coils(v) => v,
        _ => &empty_bits,
    };
    let regs = match reply {
        Reply::Registers(v) => v,
        _ => &empty_regs,
    };
    assert(bits@ == coils_of(*reply));
    assert(regs@ == registers_of(*reply));
    match data_type {
        DataType::Bool => match decode_bool(bits) {
            Ok(v) => Ok(Reading::Bool(v)),
            Err(e) => Err(short(e)),
        },
        DataType::Word => match decode_word(regs) {
            Ok(v) => Ok(Reading::Word(v)),
            Err(e) => Err(short(e)),
        },
        DataType::Dword => match decode_dword(regs) {
            Ok(v) => Ok(Reading::Dword(v)),
            Err(e) => Err(short(e)),
        },
        DataType::Float => match decode_dword(regs) {
            Ok(v) => Ok(Reading::Float(v)),
            Err(e) => Err(short(e)),
        },
    }
}

/// The outcome of a read for a data type: the transport's failure as text,
/// a short reply, or the decoded value.
pub fn read_value(data_type: DataType, reply: Result<Reply, ModbusError>) -> (r: Result<Reading, PLCError>)
    ensures
        read_outcome(data_type, reply, r),
{
    match reply {
        Err(e) => Err(PLCError::from_modbus(e)),
        Ok(rep) => decode_reply(data_type, &rep),
    }
}

} // verus!

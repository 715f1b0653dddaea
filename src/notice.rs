use vstd::prelude::*;
use crate::facade::Reading;
use crate::task::TaskDefinition;

verus! {

/// Payload of a coil update.
#[derive(Clone, Copy, Debug, PartialEq, Eq, Structural)]
pub struct BoolValue {
    pub client_id: i64,
    pub address: u16,
    pub value: bool,
}

/// Payload of a single-register update.
#[derive(Clone, Copy, Debug, PartialEq, Eq, Structural)]
pub struct WordValue {
    pub client_id: i64,
    pub address: u16,
    pub read_only: bool,
    pub value: u16,
}

/// Payload of a 32-bit update.
#[derive(Clone, Copy, Debug, PartialEq, Eq, Structural)]
pub struct DwordValue {
    pub client_id: i64,
    pub address: u16,
    pub read_only: bool,
    pub value: u32,
}

/// Payload of a float update, with the value as its IEEE-754 bit pattern.
#[derive(Clone, Copy, Debug, PartialEq, Eq, Structural)]
pub struct FloatBitsValue {
    pub client_id: i64,
    pub address: u16,
    pub read_only: bool,
    pub bits: u32,
}

/// A value change to push to the user interface.
#[derive(Clone, Copy, Debug, PartialEq, Eq, Structural)]
pub enum Update {
    Bool(BoolValue),
    Word(WordValue),
    Dword(DwordValue),
    Float(FloatBitsValue),
}

/// The update that reports `reading` for `task`.
pub open spec fn update_of(task: TaskDefinition, reading: Reading) -> Update {
    match reading {
        Reading::Bool(value) => Update::Bool(BoolValue { client_id: task.client_id, address: task.address, value }),
        Reading::Word(value) => Update::Word(
            WordValue { client_id: task.client_id, address: task.address, read_only: task.read_only, value },
        ),
        Reading::Dword(value) => Update::Dword(
            DwordValue { client_id: task.client_id, address: task.address, read_only: task.read_only, value },
        ),
        Reading::Float(bits) => Update::Float(
            FloatBitsValue { client_id: task.client_id, address: task.address, read_only: task.read_only, bits },
        ),
    }
}

/// The event name under which an update is emitted.
pub open spec fn event_name_of(u: Update) -> Seq<char> {
    match u {
        Update::Bool(_) => "plc-bool-update"@,
        Update::Word(_) => "plc-word-update"@,
        Update::Dword(_) => "plc-dword-update"@,
        Update::Float(_) => "plc-float-update"@,
    }
}

/// Builds the update that reports `reading` for `task`.
pub fn make_update(task: &TaskDefinition, reading: Reading) -> (r: Update)
    ensures
        r == update_of(*task, reading),
{
    match reading {
        Reading::Bool(value) => Update::Bool(BoolValue { client_id: task.client_id, address: task.address, value }),
        Reading::Word(value) => Update::Word(
            WordValue { client_id: task.client_id, address: task.address, read_only: task.read_only, value },
        ),
        Reading::Dword(value) => Update::Dword(
            DwordValue { client_id: task.client_id, address: task.address, read_only: task.read_only, value },
        ),
        Reading::Float(bits) => Update::Float(
            FloatBitsValue { client_id: task.client_id, address: task.address, read_only: task.read_only, bits },
        ),
    }
}

impl Update {
    /// The event name under which this update is emitted.
    pub fn event_name(&self) -> (r: &'static str)
        ensures
            r@ == event_name_of(*self),
    {
        match self {
            Update::Bool(_) => "plc-bool-update",
            Update::Word(_) => "plc-word-update",
            Update::Dword(_) => "plc-dword-update",
            Update::Float(_) => "plc-float-update",
        }
    }
}

} // verus!

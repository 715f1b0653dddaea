use vstd::prelude::*;

verus! {

/// The kind of value a task or a one-shot operation reads or writes.
#[derive(Clone, Copy, Debug, PartialEq, Eq, Hash, Structural)]
pub enum DataType {
    Bool,
    Word,
    Dword,
    Float,
}

/// What a byte from the user interface names: 1 Bool, 2 Word, 3 Dword,
/// 4 Float; any other byte names a Word.
pub open spec fn data_type_of(v: u8) -> DataType {
    if v == 1 {
        DataType::Bool
    } else if v == 3 {
        DataType::Dword
    } else if v == 4 {
        DataType::Float
    } else {
        DataType::Word
    }
}

impl From<u8> for DataType {
    fn from(value: u8) -> (r: DataType)
        ensures
            r == data_type_of(value),
    {
        match value {
            1 => DataType::Bool,
            2 => DataType::Word,
            3 => DataType::Dword,
            4 => DataType::Float,
            _ => DataType::Word,
        }
    }
}

impl vstd::std_specs::convert::FromSpecImpl<u8> for DataType {
    open spec fn obeys_from_spec() -> bool {
        true
    }

    open spec fn from_spec(v: u8) -> DataType {
        data_type_of(v)
    }
}

impl DataType {
    /// The byte that names this data type at the user-interface boundary.
    pub fn code(&self) -> (r: u8)
        ensures
            data_type_of(r) == *self,
            1 <= r <= 4,
    {
        match self {
            DataType::Bool => 1,
            DataType::Word => 2,
            DataType::Dword => 3,
            DataType::Float => 4,
        }
    }
}

/// Identity of a periodic task inside the scheduler. Coil reads are keyed
/// without their read-only flag; register reads keep it.
#[derive(Clone, Copy, Debug, PartialEq, Eq, Hash, Structural)]
pub struct TaskKey {
    pub client_id: i64,
    pub registers: bool,
    pub read_only: bool,
    pub address: u16,
}

/// A periodic poll: which value to read, and how often.
#[derive(Clone, Copy, Debug, PartialEq, Eq, Hash, Structural)]
pub struct TaskDefinition {
    pub client_id: i64,
    pub address: u16,
    pub data_type: DataType,
    pub read_only: bool,
    pub interval_ms: u64,
}

/// The key of a task with these parameters.
pub open spec fn task_key(client_id: i64, address: u16, data_type: DataType, read_only: bool) -> TaskKey {
    if data_type == DataType::Bool {
        TaskKey { client_id, registers: false, read_only: false, address }
    } else {
        TaskKey { client_id, registers: true, read_only, address }
    }
}

/// The key under which a task definition is stored.
pub open spec fn key_of(t: TaskDefinition) -> TaskKey {
    task_key(t.client_id, t.address, t.data_type, t.read_only)
}

/// Builds the key of a task: `(client_id, false, false, address)` for a Bool
/// task, `(client_id, true, read_only, address)` for the others.
pub fn generate_task_key(client_id: i64, address: u16, data_type: DataType, read_only: bool) -> (r: TaskKey)
    ensures
        r == task_key(client_id, address, data_type, read_only),
{
    match data_type {
        DataType::Bool => TaskKey { client_id, registers: false, read_only: false, address },
        _ => TaskKey { client_id, registers: true, read_only, address },
    }
}

impl TaskDefinition {
    /// Its scheduler key, `key_of(*self)`.
    pub fn key(&self) -> (r: TaskKey)
        ensures
            r == key_of(*self),
    {
        generate_task_key(self.client_id, self.address, self.data_type, self.read_only)
    }
}

} // verus!

use vstd::prelude::*;
use vstd::std_specs::hash::DefaultHasherAdditionalSpecFns;
use vstd::utf8::encode_utf8;
use std::collections::hash_map::DefaultHasher;
use std::hash::Hasher;
use crate::error::ModbusError;

verus! {

/// What `str::to_uppercase` makes of a text.
pub uninterp spec fn upper_of(s: Seq<char>) -> Seq<char>;

/// Relies on `str::to_uppercase`: the Unicode upper-case mapping, a function
/// of the characters alone.
#[verifier::external_body]
fn uppercase(s: &str) -> (r: String)
    ensures
        r@ == upper_of(s@),
{
    s.to_uppercase()
}

/// The 64-bit hash of a device name: a fresh `DefaultHasher` fed the UTF-8
/// bytes of the name and the terminating byte `0xFF`, as `str` hashes itself.
pub open spec fn name_hash(s: Seq<char>) -> u64 {
    DefaultHasher::spec_finish(seq![encode_utf8(s), seq![0xffu8]])
}

/// The connection id of a serial device, from its upper-cased name.
pub open spec fn serial_key(name: Seq<char>) -> i64 {
    as_signed(name_hash(name))
}

/// The two's-complement reading of a 64-bit pattern.
pub open spec fn as_signed(h: u64) -> i64 {
    if h <= i64::MAX {
        h as i64
    } else {
        (h as int - 0x1_0000_0000_0000_0000int) as i64
    }
}

fn to_signed(h: u64) -> (r: i64)
    ensures
        r == as_signed(h),
{
    if h <= 0x7fff_ffff_ffff_ffff {
        h as i64
    } else {
        -((u64::MAX - h) as i64) - 1
    }
}

fn hash_name(s: &str) -> (r: u64)
    ensures
        r == name_hash(s@),
{
    let mut h = DefaultHasher::new();
    let bytes = s.as_bytes();
    assert(bytes@ == encode_utf8(s@));
    h.write(bytes);
    let mut end: Vec<u8> = Vec::new();
    end.push(0xffu8);
    let tail = end.as_slice();
    assert(tail@ =~= seq![0xffu8]);
    h.write(tail);
    assert(h@ =~= seq![encode_utf8(s@), seq![0xffu8]]);
    h.finish()
}

/// The device names the system lists, upper-cased, in the same order.
pub fn uppercase_port_names(names: &Vec<String>) -> (r: Vec<String>)
    ensures
        r.len() == names.len(),
        forall|i: int| 0 <= i < r.len() ==> (#[trigger] r[i])@ == upper_of(names[i]@),
{
    let mut r: Vec<String> = Vec::new();
    let mut i: usize = 0;
    while i < names.len()
        invariant
            i <= names.len(),
            r.len() == i,
            forall|j: int| 0 <= j < i ==> (#[trigger] r[j])@ == upper_of(names[j]@),
        decreases names.len() - i,
    {
        r.push(uppercase(names[i].as_str()));
        i = i + 1;
    }
    r
}

/// Some listed port carries the name `name`.
pub open spec fn listed_port(ports: Seq<String>, name: Seq<char>) -> bool {
    exists|i: int| 0 <= i < ports.len() && (#[trigger] ports[i])@ == name
}

/// The connection id of a serial device. The name is upper-cased; it must be
/// among `available` (the port names the system lists, upper-cased), else
/// the result is `SerialPortNotFound` with the upper-cased name.
pub fn generate_serial_key(device: &str, available: &Vec<String>) -> (r: Result<i64, ModbusError>)
    ensures
        listed_port(available@, upper_of(device@)) ==> r == Ok::<i64, ModbusError>(serial_key(upper_of(device@))),
        !listed_port(available@, upper_of(device@)) ==> (r matches Err(ModbusError::SerialPortNotFound(s)) && s@
            == upper_of(device@)),
{
    let name = uppercase(device);
    let mut i: usize = 0;
    while i < available.len()
        invariant
            i <= available.len(),
            name@ == upper_of(device@),
            forall|j: int| 0 <= j < i ==> (#[trigger] available@[j])@ != name@,
        decreases available.len() - i,
    {
        if available[i] == name {
            assert(available@[i as int]@ == name@);
            let h = hash_name(name.as_str());
            return Ok(to_signed(h));
        }
        i = i + 1;
    }
    Err(ModbusError::SerialPortNotFound(name))
}

} // verus!

use vstd::prelude::*;

verus! {

/// A decoder was handed fewer values than the data type occupies.
#[derive(Clone, Copy, Debug, PartialEq, Eq, Structural)]
pub struct ShortFrame {
    pub needed: usize,
    pub got: usize,
}

/// The 32-bit value held by two registers, least significant word first.
pub open spec fn dword_of(low: u16, high: u16) -> u32 {
    (high as int * 0x10000 + low as int) as u32
}

/// The low register of a 32-bit value.
pub open spec fn low_word(v: u32) -> u16 {
    (v as int % 0x10000) as u16
}

/// The high register of a 32-bit value.
pub open spec fn high_word(v: u32) -> u16 {
    (v as int / 0x10000) as u16
}

/// The registers that carry a 32-bit value on the wire, in wire order.
pub open spec fn dword_words(v: u32) -> Seq<u16> {
    seq![low_word(v), high_word(v)]
}

/// What decoding a 32-bit value from `regs` yields.
pub open spec fn dword_decoding(regs: Seq<u16>) -> Result<u32, ShortFrame> {
    if regs.len() < 2 {
        Err(ShortFrame { needed: 2, got: regs.len() as usize })
    } else {
        Ok(dword_of(regs[0], regs[1]))
    }
}

/// Reads one coil or discrete input.
pub fn decode_bool(bits: &Vec<bool>) -> (r: Result<bool, ShortFrame>)
    ensures
        bits.len() >= 1 ==> r == Ok::<bool, ShortFrame>(bits[0]),
        bits.len() < 1 ==> r == Err::<bool, ShortFrame>(ShortFrame { needed: 1, got: 0 }),
{
    if bits.len() < 1 {
        Err(ShortFrame { needed: 1, got: 0 })
    } else {
        Ok(bits[0])
    }
}

/// Reads one 16-bit register; the value is taken as it came off the wire.
pub fn decode_word(regs: &Vec<u16>) -> (r: Result<u16, ShortFrame>)
    ensures
        regs.len() >= 1 ==> r == Ok::<u16, ShortFrame>(regs[0]),
        regs.len() < 1 ==> r == Err::<u16, ShortFrame>(ShortFrame { needed: 1, got: 0 }),
{
    if regs.len() < 1 {
        Err(ShortFrame { needed: 1, got: 0 })
    } else {
        Ok(regs[0])
    }
}

/// Reads a 32-bit value from two registers, least significant word first:
/// `(regs[1] << 16) | regs[0]`.
pub fn decode_dword(regs: &Vec<u16>) -> (r: Result<u32, ShortFrame>)
    ensures
        r == dword_decoding(regs@),
{
    if regs.len() < 2 {
        Err(ShortFrame { needed: 2, got: regs.len() })
    } else {
        let low = regs[0];
        let high = regs[1];
        let v: u32 = (high as u32) * 0x10000 + (low as u32);
        Ok(v)
    }
}

/// Splits a 32-bit value into the two registers that carry it:
/// `[v & 0xFFFF, (v >> 16) & 0xFFFF]`.
pub fn encode_dword(v: u32) -> (r: Vec<u16>)
    ensures
        r@ == dword_words(v),
{
    let low = (v % 0x10000) as u16;
    let high = (v / 0x10000) as u16;
    let mut r: Vec<u16> = Vec::new();
    r.push(low);
    r.push(high);
    r
}

/// Reads the bit pattern of an IEEE-754 single from two registers; the
/// layout is the one of a 32-bit value.
pub fn decode_float_bits(regs: &Vec<u16>) -> (r: Result<u32, ShortFrame>)
    ensures
        r == dword_decoding(regs@),
{
    decode_dword(regs)
}

/// Splits the bit pattern of an IEEE-754 single into its two registers.
pub fn encode_float_bits(bits: u32) -> (r: Vec<u16>)
    ensures
        r@ == dword_words(bits),
{
    encode_dword(bits)
}

/// Decoding what was encoded gives back the value, for every 32-bit value
/// (and so for every bit pattern of a single, NaN payloads included).
pub proof fn lemma_dword_round_trip(v: u32)
    ensures
        dword_decoding(dword_words(v)) == Ok::<u32, ShortFrame>(v),
{
    let w = dword_words(v);
    assert(w.len() == 2);
    assert(dword_of(w[0], w[1]) == v);
}

/// Encoding what was decoded from two registers gives back those registers.
pub proof fn lemma_words_round_trip(low: u16, high: u16)
    ensures
        dword_words(dword_of(low, high)) == seq![low, high],
{
    let v = dword_of(low, high);
    assert(v as int == high as int * 0x10000 + low as int);
    assert(low_word(v) == low);
    assert(high_word(v) == high);
}

} // verus!

use vstd::prelude::*;
use vstd::string::{StrSliceExecFns, StringExecFns};
use crate::error::ModbusError;
use crate::text::{all_digits, digits_value, digit_value, is_digit, lemma_digits_value_nonneg, unsigned_text};

verus! {

/// Whether `regex` matches `^(\d{1,3}\.){3}\d{1,3}$` against the text: four
/// runs of one to three Unicode decimal digits joined by dots.
pub uninterp spec fn dotted_quad_shape(s: Seq<char>) -> bool;

/// Relies on `regex::Regex::new` and `regex::Regex::is_match` with the
/// pattern `^(\d{1,3}\.){3}\d{1,3}$`, which compiles.
#[verifier::external_body]
fn matches_dotted_quad(s: &str) -> (r: bool)
    ensures
        r == dotted_quad_shape(s@),
{
    match regex::Regex::new(r"^(\d{1,3}\.){3}\d{1,3}$") {
        Ok(re) => re.is_match(s),
        Err(_) => false,
    }
}

/// The pieces of `s` between dots, in order; a text without dots is one piece.
pub open spec fn fields(s: Seq<char>) -> Seq<Seq<char>>
    decreases s.len(),
{
    if s.len() == 0 {
        seq![Seq::<char>::empty()]
    } else {
        let f = fields(s.drop_last());
        if s.last() == '.' {
            f.push(Seq::<char>::empty())
        } else {
            f.update(f.len() - 1, f.last().push(s.last()))
        }
    }
}

proof fn lemma_fields_nonempty(s: Seq<char>)
    ensures
        fields(s).len() >= 1,
    decreases s.len(),
{
    if s.len() > 0 {
        lemma_fields_nonempty(s.drop_last());
    }
}

/// A piece that `u8::from_str` accepts.
pub open spec fn byte_text(f: Seq<char>) -> bool {
    unsigned_text(f) is Some && unsigned_text(f)->Some_0 <= 255
}

/// An IPv4 literal as the connection layer sees it: the dotted-quad shape,
/// and every piece a number that fits in a byte.
pub open spec fn ipv4_literal(s: Seq<char>) -> bool {
    dotted_quad_shape(s) && forall|i: int| 0 <= i < fields(s).len() ==> byte_text(#[trigger] fields(s)[i])
}

/// An octet of a strictly written IPv4 address: one to three digits, no
/// leading zero, at most 255.
pub open spec fn strict_octet(f: Seq<char>) -> bool {
    &&& 1 <= f.len() <= 3
    &&& all_digits(f)
    &&& (f.len() == 1 || f[0] != '0')
    &&& digits_value(f) <= 255
}

/// The address that a strictly written dotted quad denotes, most significant
/// octet first.
pub open spec fn ipv4_value(s: Seq<char>) -> Option<u32> {
    let f = fields(s);
    if f.len() == 4 && forall|i: int| 0 <= i < 4 ==> strict_octet(#[trigger] f[i]) {
        Some(
            (((digits_value(f[0]) * 256 + digits_value(f[1])) * 256 + digits_value(f[2])) * 256 + digits_value(
                f[3],
            )) as u32,
        )
    } else {
        None
    }
}

/// The connection id of a TCP endpoint: `(ip << 16) | port`.
pub open spec fn tcp_key(ip: u32, port: u16) -> i64 {
    (ip as int * 0x10000 + port as int) as i64
}

/// The first resolved address that is an IPv4 address.
pub open spec fn first_v4(c: Seq<Option<u32>>) -> Option<u32>
    decreases c.len(),
{
    if c.len() == 0 {
        None
    } else if c[0] is Some {
        c[0]
    } else {
        first_v4(c.drop_first())
    }
}

/// How a host given for a TCP connection is to be reached.
#[derive(Clone, Copy, Debug, PartialEq, Eq, Structural)]
pub enum Host {
    /// A dotted IPv4 literal, with its address.
    Address(u32),
    /// A name for the system resolver.
    Name,
}

fn split_fields(s: &str) -> (r: Vec<Vec<char>>)
    ensures
        r.len() == fields(s@).len(),
        forall|i: int| 0 <= i < r.len() ==> (#[trigger] r[i])@ == fields(s@)[i],
{
    let n = s.unicode_len();
    let mut r: Vec<Vec<char>> = Vec::new();
    r.push(Vec::new());
    let mut i: usize = 0;
    proof {
        assert(s@.take(0) =~= Seq::<char>::empty());
    }
    while i < n
        invariant
            n == s@.len(),
            i <= n,
            r.len() == fields(s@.take(i as int)).len(),
            forall|j: int| 0 <= j < r.len() ==> (#[trigger] r[j])@ == fields(s@.take(i as int))[j],
        decreases n - i,
    {
        let c = s.get_char(i);
        let ghost before = s@.take(i as int);
        let ghost after = s@.take(i + 1);
        proof {
            assert(after.drop_last() =~= before);
            assert(after.last() == c);
            lemma_fields_nonempty(before);
        }
        if c == '.' {
            r.push(Vec::new());
            proof {
                assert forall|j: int| 0 <= j < r.len() implies (#[trigger] r[j])@ == fields(after)[j] by {
                    if j < r.len() - 1 {
                        assert(r[j]@ == fields(before)[j]);
                    }
                }
            }
        } else {
            let mut last = r.pop().unwrap();
            last.push(c);
            r.push(last);
            proof {
                assert forall|j: int| 0 <= j < r.len() implies (#[trigger] r[j])@ == fields(after)[j] by {
                    if j < r.len() - 1 {
                        assert(r[j]@ == fields(before)[j]);
                    }
                }
            }
        }
        i = i + 1;
    }
    proof {
        assert(s@.take(n as int) =~= s@);
    }
    r
}

fn char_digit(c: char) -> (r: Option<u32>)
    ensures
        is_digit(c) ==> r == Some(digit_value(c) as u32),
        !is_digit(c) ==> r is None,
{
    if '0' <= c && c <= '9' {
        Some((c as u32) - ('0' as u32))
    } else {
        None
    }
}

/// The value of a run of digits, capped at 256; `None` if some character is
/// not a digit.
fn capped_value(f: &Vec<char>, start: usize) -> (r: Option<u32>)
    requires
        start <= f.len(),
    ensures
        match r {
            Some(v) => all_digits(f@.subrange(start as int, f.len() as int)) && v as int == (if digits_value(
                f@.subrange(start as int, f.len() as int),
            ) > 255 {
                256
            } else {
                digits_value(f@.subrange(start as int, f.len() as int))
            }),
            None => !all_digits(f@.subrange(start as int, f.len() as int)),
        },
{
    let mut acc: u32 = 0;
    let mut i: usize = start;
    proof {
        assert(f@.subrange(start as int, start as int) =~= Seq::<char>::empty());
    }
    while i < f.len()
        invariant
            start <= i <= f.len(),
            all_digits(f@.subrange(start as int, i as int)),
            acc as int == (if digits_value(f@.subrange(start as int, i as int)) > 255 {
                256
            } else {
                digits_value(f@.subrange(start as int, i as int))
            }),
        decreases f.len() - i,
    {
        let ghost before = f@.subrange(start as int, i as int);
        let ghost after = f@.subrange(start as int, i + 1);
        proof {
            assert(after.drop_last() =~= before);
            assert(after.last() == f@[i as int]);
            lemma_digits_value_nonneg(before);
        }
        match char_digit(f[i]) {
            None => {
                proof {
                    assert(after.last() == f@[i as int]);
                    assert(f@.subrange(start as int, f.len() as int)[i - start] == f@[i as int]);
                }
                return None;
            },
            Some(d) => {
                if acc > 255 {
                    acc = 256;
                } else {
                    acc = acc * 10 + d;
                    if acc > 255 {
                        acc = 256;
                    }
                }
                proof {
                    assert forall|k: int| 0 <= k < after.len() implies is_digit(#[trigger] after[k]) by {
                        if k < before.len() {
                            assert(after[k] == before[k]);
                        }
                    }
                }
            },
        }
        i = i + 1;
    }
    proof {
        assert(f@.subrange(start as int, f.len() as int) == f@.subrange(start as int, i as int));
    }
    Some(acc)
}

fn is_byte_text(f: &Vec<char>) -> (r: bool)
    ensures
        r == byte_text(f@),
{
    let start: usize = if f.len() > 0 && f[0] == '+' { 1 } else { 0 };
    proof {
        if f.len() > 0 && f@[0] == '+' {
            assert(f@.drop_first() =~= f@.subrange(1, f.len() as int));
        } else {
            assert(f@ =~= f@.subrange(0, f.len() as int));
        }
    }
    if start == f.len() {
        return false;
    }
    match capped_value(f, start) {
        Some(v) => v <= 255,
        None => false,
    }
}

fn strict_octet_value(f: &Vec<char>) -> (r: Option<u32>)
    ensures
        r is Some <==> strict_octet(f@),
        r is Some ==> r->Some_0 as int == digits_value(f@),
{
    if f.len() < 1 || f.len() > 3 {
        return None;
    }
    if f.len() > 1 && f[0] == '0' {
        return None;
    }
    proof {
        assert(f@ =~= f@.subrange(0, f.len() as int));
    }
    match capped_value(f, 0) {
        Some(v) => if v <= 255 {
            Some(v)
        } else {
            None
        },
        None => None,
    }
}

/// Whether the text is a dotted IPv4 literal whose pieces each fit in a byte.
pub fn is_ipv4(ip: &str) -> (r: bool)
    ensures
        r == ipv4_literal(ip@),
{
    if !matches_dotted_quad(ip) {
        return false;
    }
    let parts = split_fields(ip);
    let mut i: usize = 0;
    while i < parts.len()
        invariant
            i <= parts.len(),
            parts.len() == fields(ip@).len(),
            forall|j: int| 0 <= j < parts.len() ==> (#[trigger] parts[j])@ == fields(ip@)[j],
            forall|j: int| 0 <= j < i ==> byte_text(#[trigger] fields(ip@)[j]),
        decreases parts.len() - i,
    {
        if !is_byte_text(&parts[i]) {
            return false;
        }
        i = i + 1;
    }
    true
}

/// Reads a strictly written dotted quad: four octets of one to three digits,
/// without leading zeros, each at most 255.
pub fn parse_ipv4(ip: &str) -> (r: Option<u32>)
    ensures
        r == ipv4_value(ip@),
{
    let parts = split_fields(ip);
    if parts.len() != 4 {
        return None;
    }
    let a = strict_octet_value(&parts[0]);
    let b = strict_octet_value(&parts[1]);
    let c = strict_octet_value(&parts[2]);
    let d = strict_octet_value(&parts[3]);
    match (a, b, c, d) {
        (Some(a), Some(b), Some(c), Some(d)) => {
            proof {
                let f = fields(ip@);
                assert forall|i: int| 0 <= i < 4 implies strict_octet(#[trigger] f[i]) by {
                    assert(parts[i]@ == f[i]);
                }
            }
            Some(((a * 256 + b) * 256 + c) * 256 + d)
        },
        _ => {
            proof {
                let f = fields(ip@);
                if a is None {
                    assert(!strict_octet(f[0]));
                } else if b is None {
                    assert(!strict_octet(f[1]));
                } else if c is None {
                    assert(!strict_octet(f[2]));
                } else {
                    assert(!strict_octet(f[3]));
                }
            }
            None
        },
    }
}

/// Decides how a host given for a TCP connection is reached: a dotted IPv4
/// literal is used as it is, anything else goes to the resolver. A literal
/// that is not a strictly written address is refused with `InvalidIp`.
pub fn check_ip(input: &str) -> (r: Result<Host, ModbusError>)
    ensures
        !ipv4_literal(input@) ==> r == Ok::<Host, ModbusError>(Host::Name),
        ipv4_literal(input@) && ipv4_value(input@) is Some ==> r == Ok::<Host, ModbusError>(
            Host::Address(ipv4_value(input@)->Some_0),
        ),
        ipv4_literal(input@) && ipv4_value(input@) is None ==> (r matches Err(ModbusError::InvalidIp(s)) && s@
            == input@),
{
    if !is_ipv4(input) {
        return Ok(Host::Name);
    }
    match parse_ipv4(input) {
        Some(a) => Ok(Host::Address(a)),
        None => Err(ModbusError::InvalidIp(String::from_str(input))),
    }
}

/// Picks the first IPv4 address among what the resolver returned for
/// `host` (`None` stands for an address of another family); fails with
/// `InvalidIp(host)` when there is none.
pub fn first_ipv4(host: &str, candidates: &Vec<Option<u32>>) -> (r: Result<u32, ModbusError>)
    ensures
        first_v4(candidates@) is Some ==> r == Ok::<u32, ModbusError>(first_v4(candidates@)->Some_0),
        first_v4(candidates@) is None ==> (r matches Err(ModbusError::InvalidIp(s)) && s@ == host@),
{
    let mut i: usize = 0;
    proof {
        assert(candidates@.subrange(0, candidates@.len() as int) =~= candidates@);
    }
    while i < candidates.len()
        invariant
            i <= candidates.len(),
            first_v4(candidates@) == first_v4(candidates@.subrange(i as int, candidates@.len() as int)),
        decreases candidates.len() - i,
    {
        let ghost rest = candidates@.subrange(i as int, candidates@.len() as int);
        proof {
            assert(rest.drop_first() =~= candidates@.subrange(i + 1, candidates@.len() as int));
            assert(rest[0] == candidates@[i as int]);
        }
        if let Some(a) = candidates[i] {
            return Ok(a);
        }
        i = i + 1;
    }
    proof {
        assert(candidates@.subrange(i as int, candidates@.len() as int).len() == 0);
    }
    Err(ModbusError::InvalidIp(String::from_str(host)))
}

/// The connection id of a TCP endpoint: `(ip << 16) | port`. Equal
/// endpoints give equal ids and distinct endpoints distinct ids.
pub fn generate_tcp_key(ip: u32, port: u16) -> (r: i64)
    ensures
        r == tcp_key(ip, port),
        r as int == ip as int * 0x10000 + port as int,
{
    (ip as i64) * 0x10000 + (port as i64)
}

/// Distinct TCP endpoints never share a connection id.
pub proof fn lemma_tcp_key_injective(ip1: u32, port1: u16, ip2: u32, port2: u16)
    ensures
        tcp_key(ip1, port1) == tcp_key(ip2, port2) <==> (ip1 == ip2 && port1 == port2),
{
    let a = ip1 as int * 0x10000 + port1 as int;
    let b = ip2 as int * 0x10000 + port2 as int;
    assert(0 <= a < 0x1_0000_0000_0000);
    assert(0 <= b < 0x1_0000_0000_0000);
    if a == b {
        assert(ip1 == ip2 && port1 == port2) by (nonlinear_arith)
            requires
                ip1 as int * 0x10000 + port1 as int == ip2 as int * 0x10000 + port2 as int,
                0 <= port1 < 0x10000,
                0 <= port2 < 0x10000,
        ;
    }
}

} // verus!

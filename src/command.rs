use vstd::prelude::*;
use vstd::string::StringExecFns;
use crate::text::{signed_text, unsigned_text};

verus! {

/// Relies on `str::parse::<i64>` (`i64::from_str_radix` in base 10): an
/// optional `+` or `-` followed by ASCII digits, within the range of `i64`;
/// on failure the text of the `ParseIntError`.
#[verifier::external_body]
fn parse_i64(s: &str) -> (r: Result<i64, String>)
    ensures
        r is Ok <==> (signed_text(s@) is Some && i64::MIN <= signed_text(s@)->Some_0 <= i64::MAX),
        r is Ok ==> r->Ok_0 as int == signed_text(s@)->Some_0,
{
    match s.parse::<i64>() {
        Ok(v) => Ok(v),
        Err(e) => Err(e.to_string()),
    }
}

/// Relies on `str::parse::<u64>` (`u64::from_str_radix` in base 10): an
/// optional `+` followed by ASCII digits, within the range of `u64`; on
/// failure the text of the `ParseIntError`.
#[verifier::external_body]
fn parse_u64(s: &str) -> (r: Result<u64, String>)
    ensures
        r is Ok <==> (unsigned_text(s@) is Some && unsigned_text(s@)->Some_0 <= u64::MAX),
        r is Ok ==> r->Ok_0 as int == unsigned_text(s@)->Some_0,
{
    match s.parse::<u64>() {
        Ok(v) => Ok(v),
        Err(e) => Err(e.to_string()),
    }
}

/// `s` begins with `prefix`.
pub open spec fn starts_with(s: Seq<char>, prefix: Seq<char>) -> bool {
    prefix.len() <= s.len() && s.subrange(0, prefix.len() as int) == prefix
}

/// Reads a connection id given as decimal text, as the user interface sends
/// it. A malformed id gives a message that starts with `无效的客户端ID: `.
pub fn to_i64(client_id: &str) -> (r: Result<i64, String>)
    ensures
        r is Ok <==> (signed_text(client_id@) is Some && i64::MIN <= signed_text(client_id@)->Some_0 <= i64::MAX),
        r is Ok ==> r->Ok_0 as int == signed_text(client_id@)->Some_0,
        r is Err ==> starts_with(r->Err_0@, "无效的客户端ID: "@),
{
    match parse_i64(client_id) {
        Ok(v) => Ok(v),
        Err(e) => {
            let mut m = String::from_str("无效的客户端ID: ");
            let ghost p = m@;
            m.append(e.as_str());
            assert(m@.subrange(0, p.len() as int) =~= p);
            Err(m)
        },
    }
}

/// Reads an interval in milliseconds given as decimal text. A malformed
/// interval gives a message that starts with `无效的间隔时间: `.
pub fn to_u64(interval_ms: &str) -> (r: Result<u64, String>)
    ensures
        r is Ok <==> (unsigned_text(interval_ms@) is Some && unsigned_text(interval_ms@)->Some_0 <= u64::MAX),
        r is Ok ==> r->Ok_0 as int == unsigned_text(interval_ms@)->Some_0,
        r is Err ==> starts_with(r->Err_0@, "无效的间隔时间: "@),
{
    match parse_u64(interval_ms) {
        Ok(v) => Ok(v),
        Err(e) => {
            let mut m = String::from_str("无效的间隔时间: ");
            let ghost p = m@;
            m.append(e.as_str());
            assert(m@.subrange(0, p.len() as int) =~= p);
            Err(m)
        },
    }
}

} // verus!

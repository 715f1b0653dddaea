use vstd::prelude::*;
use vstd::string::StringExecFns;

verus! {

/// Failures of the connection layer.
#[derive(Debug)]
pub enum ModbusError {
    /// The host is neither a dotted IPv4 literal nor resolves to an IPv4 address.
    InvalidIp(String),
    /// The serial device is not among the ports the system lists.
    SerialPortNotFound(String),
    /// No open connection carries this id.
    ClientNotFound(i64),
    /// Transport failures and validation messages.
    Other(String),
}

/// Failures of the typed facade and of the scheduler.
#[derive(Debug)]
pub enum PLCError {
    /// No registered task has this key.
    TaskNotFound { client_id: i64, address: u16 },
    /// A reply held fewer values than the data type occupies.
    ShortFrame { needed: usize, got: usize },
    /// Any other failure, as text.
    Other(String),
}

/// The character of a decimal digit.
pub open spec fn digit_char(d: int) -> char {
    if d == 0 {
        '0'
    } else if d == 1 {
        '1'
    } else if d == 2 {
        '2'
    } else if d == 3 {
        '3'
    } else if d == 4 {
        '4'
    } else if d == 5 {
        '5'
    } else if d == 6 {
        '6'
    } else if d == 7 {
        '7'
    } else if d == 8 {
        '8'
    } else {
        '9'
    }
}

/// The decimal digits of a natural number, most significant first, no padding.
pub open spec fn digits(n: nat) -> Seq<char>
    decreases n,
{
    if n < 10 {
        seq![digit_char(n as int)]
    } else {
        digits(n / 10).push(digit_char((n % 10) as int))
    }
}

/// The decimal text of an integer, with a leading `-` when it is negative.
pub open spec fn decimal(n: int) -> Seq<char> {
    if n < 0 {
        seq!['-'] + digits((-n) as nat)
    } else {
        digits(n as nat)
    }
}

/// The text shown for a connection-layer failure.
pub open spec fn modbus_message(e: ModbusError) -> Seq<char> {
    match e {
        ModbusError::InvalidIp(s) => "无效的 IP 地址: "@ + s@,
        ModbusError::SerialPortNotFound(s) => "串口不存在: "@ + s@,
        ModbusError::ClientNotFound(id) => "未找到 ID 为 "@ + decimal(id as int) + " 的连接"@,
        ModbusError::Other(s) => "其他错误: "@ + s@,
    }
}

/// The text shown for a facade or scheduler failure.
pub open spec fn plc_message(e: PLCError) -> Seq<char> {
    match e {
        PLCError::TaskNotFound { client_id, address } => "任务未找到: 客户端 ID "@ + decimal(
            client_id as int,
        ) + ", 地址 "@ + decimal(address as int),
        PLCError::ShortFrame { needed, got } => "返回的数据不足: 需要 "@ + decimal(needed as int)
            + ", 实际 "@ + decimal(got as int),
        PLCError::Other(s) => s@,
    }
}

fn digit_text(d: u64) -> (r: &'static str)
    requires
        d < 10,
    ensures
        r@ == seq![digit_char(d as int)],
{
    proof {
        reveal_strlit("0");
        reveal_strlit("1");
        reveal_strlit("2");
        reveal_strlit("3");
        reveal_strlit("4");
        reveal_strlit("5");
        reveal_strlit("6");
        reveal_strlit("7");
        reveal_strlit("8");
        reveal_strlit("9");
    }
    if d == 0 {
        "0"
    } else if d == 1 {
        "1"
    } else if d == 2 {
        "2"
    } else if d == 3 {
        "3"
    } else if d == 4 {
        "4"
    } else if d == 5 {
        "5"
    } else if d == 6 {
        "6"
    } else if d == 7 {
        "7"
    } else if d == 8 {
        "8"
    } else {
        "9"
    }
}

fn push_digits(s: &mut String, n: u64)
    ensures
        final(s)@ == old(s)@ + digits(n as nat),
    decreases n,
{
    if n >= 10 {
        push_digits(s, n / 10);
    }
    s.append(digit_text(n % 10));
    proof {
        if n >= 10 {
            assert(digits(n as nat) == digits((n / 10) as nat).push(digit_char((n % 10) as int)));
        }
    }
    assert(final(s)@ =~= old(s)@ + digits(n as nat));
}

/// Appends the decimal text of `n` to `s`.
pub fn push_decimal(s: &mut String, n: i64)
    ensures
        final(s)@ == old(s)@ + decimal(n as int),
{
    if n < 0 {
        proof {
            reveal_strlit("-");
        }
        s.append("-");
        let m: u64 = if n == i64::MIN {
            0x8000_0000_0000_0000u64
        } else {
            (-n) as u64
        };
        push_digits(s, m);
        assert(final(s)@ =~= old(s)@ + decimal(n as int));
    } else {
        push_digits(s, n as u64);
    }
}

impl ModbusError {
    /// The text shown to the user for this failure.
    pub fn message(&self) -> (r: String)
        ensures
            r@ == modbus_message(*self),
    {
        match self {
            ModbusError::InvalidIp(s) => {
                let mut r = String::from_str("无效的 IP 地址: ");
                r.append(s.as_str());
                r
            },
            ModbusError::SerialPortNotFound(s) => {
                let mut r = String::from_str("串口不存在: ");
                r.append(s.as_str());
                r
            },
            ModbusError::ClientNotFound(id) => {
                let mut r = String::from_str("未找到 ID 为 ");
                push_decimal(&mut r, *id);
                r.append(" 的连接");
                assert(r@ =~= modbus_message(*self));
                r
            },
            ModbusError::Other(s) => {
                let mut r = String::from_str("其他错误: ");
                r.append(s.as_str());
                r
            },
        }
    }
}

impl PLCError {
    /// A connection-layer failure as seen by the facade: its text, as `Other`.
    pub fn from_modbus(e: ModbusError) -> (r: PLCError)
        ensures
            r matches PLCError::Other(m) && m@ == modbus_message(e),
    {
        PLCError::Other(e.message())
    }

    /// The text shown to the user for this failure.
    pub fn message(&self) -> (r: String)
        ensures
            r@ == plc_message(*self),
    {
        match self {
            PLCError::TaskNotFound { client_id, address } => {
                let mut r = String::from_str("任务未找到: 客户端 ID ");
                push_decimal(&mut r, *client_id);
                r.append(", 地址 ");
                push_digits(&mut r, *address as u64);
                assert(r@ =~= plc_message(*self));
                r
            },
            PLCError::ShortFrame { needed, got } => {
                let mut r = String::from_str("返回的数据不足: 需要 ");
                push_digits(&mut r, *needed as u64);
                r.append(", 实际 ");
                push_digits(&mut r, *got as u64);
                assert(r@ =~= plc_message(*self));
                r
            },
            PLCError::Other(s) => s.clone(),
        }
    }
}

} // verus!

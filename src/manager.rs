use vstd::prelude::*;
use vstd::string::StringExecFns;
use std::collections::HashMap;
use crate::address::{generate_tcp_key, tcp_key};
use crate::error::ModbusError;
use crate::serial::{generate_serial_key, listed_port, serial_key, upper_of};

verus! {

/// What opening a connection to an endpoint has to do.
#[derive(Clone, Copy, Debug, PartialEq, Eq, Structural)]
pub enum OpenStep {
    /// A connection with this id is open already: hand the id back.
    Reuse(i64),
    /// Nothing is open for the endpoint: connect, then register under this id.
    Connect(i64),
}

/// The step for an endpoint whose id is `key`, given the open connections.
pub open spec fn open_step<H>(clients: Map<i64, H>, key: i64) -> OpenStep {
    if clients.contains_key(key) {
        OpenStep::Reuse(key)
    } else {
        OpenStep::Connect(key)
    }
}

/// The open connections, each under its id. `H` is the shared transport
/// handle that the runtime keeps for a connection.
pub struct ModbusManager<H> {
    clients: HashMap<i64, H>,
}

impl<H> View for ModbusManager<H> {
    type V = Map<i64, H>;

    closed spec fn view(&self) -> Map<i64, H> {
        self.clients@
    }
}

impl<H> ModbusManager<H> {
    /// A manager with no connection.
    pub fn new() -> (r: Self)
        ensures
            r@ == Map::<i64, H>::empty(),
    {
        ModbusManager { clients: HashMap::new() }
    }

    /// Whether a connection with this id is open.
    pub fn connection_exists(&self, client_id: i64) -> (r: bool)
        ensures
            r == self@.contains_key(client_id),
    {
        self.clients.contains_key(&client_id)
    }

    /// The ids of all open connections, each once, in no fixed order.
    pub fn get_all_connections(&self) -> (r: Vec<i64>)
        ensures
            r@.to_set() == self@.dom(),
            r@.no_duplicates(),
    {
        let mut r: Vec<i64> = Vec::new();
        for k in iter: self.clients.keys()
            invariant
                iter.seq().unref().to_set() == self.clients@.dom(),
                iter.seq().no_duplicates(),
                r@ == iter.seq().unref().take(iter.index() as int),
                iter.index() == iter.seq().len() ==> r@.to_set() == self.clients@.dom() && r@.no_duplicates(),
        {
            r.push(*k);
            proof {
                assert(r@ =~= iter.seq().unref().take(iter.index() + 1));
                assert(iter.index() + 1 == iter.seq().len() ==> r@ =~= iter.seq().unref());
            }
        }
        r
    }
}

impl<H> ModbusManager<H> {
    /// The transport handle of an open connection; `ClientNotFound` when no
    /// connection carries this id.
    pub fn client(&self, client_id: i64) -> (r: Result<&H, ModbusError>)
        ensures
            self@.contains_key(client_id) ==> r == Ok::<&H, ModbusError>(&self@[client_id]),
            !self@.contains_key(client_id) ==> r == Err::<&H, ModbusError>(ModbusError::ClientNotFound(client_id)),
    {
        match self.clients.get(&client_id) {
            Some(h) => Ok(h),
            None => Err(ModbusError::ClientNotFound(client_id)),
        }
    }

    /// What opening a TCP connection to `ip:port` has to do: reuse the open
    /// connection with the endpoint's id, or connect and register one.
    pub fn tcp_step(&self, ip: u32, port: u16) -> (r: OpenStep)
        ensures
            r == open_step(self@, tcp_key(ip, port)),
    {
        let client_id = generate_tcp_key(ip, port);
        if self.clients.contains_key(&client_id) {
            OpenStep::Reuse(client_id)
        } else {
            OpenStep::Connect(client_id)
        }
    }

    /// What opening the serial device `device` has to do. The device must be
    /// among `available`, the upper-cased names the system lists.
    pub fn serial_step(&self, device: &str, available: &Vec<String>) -> (r: Result<OpenStep, ModbusError>)
        ensures
            listed_port(available@, upper_of(device@)) ==> r == Ok::<OpenStep, ModbusError>(
                open_step(self@, serial_key(upper_of(device@))),
            ),
            !listed_port(available@, upper_of(device@)) ==> (r matches Err(ModbusError::SerialPortNotFound(s))
                && s@ == upper_of(device@)),
    {
        match generate_serial_key(device, available) {
            Ok(client_id) => if self.clients.contains_key(&client_id) {
                Ok(OpenStep::Reuse(client_id))
            } else {
                Ok(OpenStep::Connect(client_id))
            },
            Err(e) => Err(e),
        }
    }

    /// Registers a freshly opened connection under its id.
    pub fn insert(&mut self, client_id: i64, handle: H)
        ensures
            final(self)@ == old(self)@.insert(client_id, handle),
    {
        self.clients.insert(client_id, handle);
    }

    /// Registers a freshly opened serial connection once its probe read
    /// answered. A failed probe leaves the connections as they were and gives
    /// `Other` with a message that starts with `串口连接验证失败: `.
    pub fn admit_serial(&mut self, client_id: i64, handle: H, probe: Result<(), String>) -> (r: Result<i64, ModbusError>)
        ensures
            probe is Ok ==> final(self)@ == old(self)@.insert(client_id, handle) && r == Ok::<i64, ModbusError>(client_id),
            probe is Err ==> final(self)@ == old(self)@ && (r matches Err(ModbusError::Other(m)) && m@ == "串口连接验证失败: "@
                + probe->Err_0@),
    {
        match probe {
            Ok(()) => {
                self.clients.insert(client_id, handle);
                Ok(client_id)
            },
            Err(e) => {
                let mut m = String::from_str("串口连接验证失败: ");
                m.append(e.as_str());
                Err(ModbusError::Other(m))
            },
        }
    }

    /// Removes a connection and hands back its handle, whose drop closes the
    /// transport; `ClientNotFound` when no connection carries this id.
    pub fn disconnect(&mut self, client_id: i64) -> (r: Result<H, ModbusError>)
        ensures
            final(self)@ == old(self)@.remove(client_id),
            old(self)@.contains_key(client_id) ==> r == Ok::<H, ModbusError>(old(self)@[client_id]),
            !old(self)@.contains_key(client_id) ==> r == Err::<H, ModbusError>(ModbusError::ClientNotFound(client_id)),
    {
        match self.clients.remove(&client_id) {
            Some(h) => Ok(h),
            None => {
                assert(old(self)@.remove(client_id) =~= old(self)@);
                Err(ModbusError::ClientNotFound(client_id))
            },
        }
    }
}

/// Opening the same TCP endpoint twice gives the same id, and only the
/// first opening connects: once the connection is registered, the next
/// opening reuses it.
pub proof fn lemma_key_stability<H>(clients: Map<i64, H>, ip: u32, port: u16, handle: H)
    ensures
        open_step(clients, tcp_key(ip, port)) == OpenStep::Connect(tcp_key(ip, port)) <==> !clients.contains_key(
            tcp_key(ip, port),
        ),
        open_step(clients, tcp_key(ip, port)) != OpenStep::Connect(tcp_key(ip, port)) ==> open_step(clients, tcp_key(ip, port))
            == OpenStep::Reuse(tcp_key(ip, port)),
        open_step(clients.insert(tcp_key(ip, port), handle), tcp_key(ip, port)) == OpenStep::Reuse(tcp_key(ip, port)),
{
}

/// A connection exists from the moment it is registered until it is
/// disconnected, and registering or disconnecting one id leaves every other
/// id as it was.
pub proof fn lemma_map_integrity<H>(clients: Map<i64, H>, client_id: i64, handle: H, other: i64)
    requires
        other != client_id,
    ensures
        clients.insert(client_id, handle).contains_key(client_id),
        !clients.insert(client_id, handle).remove(client_id).contains_key(client_id),
        clients.insert(client_id, handle).contains_key(other) == clients.contains_key(other),
        clients.remove(client_id).contains_key(other) == clients.contains_key(other),
{
}

} // verus!

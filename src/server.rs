//! The listener's settings: where to bind, checked once at startup.
use vstd::prelude::*;

use crate::error::ServerError;
use vstd::string::StringSliceAdditionalSpecFns;

verus! {

/// Listen address used when none is configured.
pub const DEFAULT_LISTEN_ADDR: &'static str = "0.0.0.0";

/// Listen port used when none is configured.
pub const DEFAULT_LISTEN_PORT: &'static str = "4444";

/// Whether `b` is an ASCII decimal digit.
pub open spec fn is_digit(b: u8) -> bool {
    0x30 <= b <= 0x39
}

/// The value of the decimal digits `d`, most significant first.
pub open spec fn decimal_value(d: Seq<u8>) -> int
    decreases d.len(),
{
    if d.len() == 0 {
        0
    } else {
        decimal_value(d.drop_last()) * 10 + (d.last() - 0x30)
    }
}

/// The digits of an unsigned number: the text without one leading `+`.
pub open spec fn unsigned_digits(s: Seq<u8>) -> Seq<u8> {
    if s.len() > 0 && s[0] == 0x2b {
        s.drop_first()
    } else {
        s
    }
}

/// The port that the text `s` names: an optional `+` and one or more decimal
/// digits whose value is at most 65535. Anything else names no port.
pub open spec fn port_of(s: Seq<u8>) -> Option<u16> {
    let d = unsigned_digits(s);
    if d.len() > 0 && (forall|i: int| 0 <= i < d.len() ==> is_digit(#[trigger] d[i]))
        && decimal_value(d) <= 65535 {
        Some(decimal_value(d) as u16)
    } else {
        None
    }
}

spec fn capped(v: int) -> int {
    if v > 65535 {
        65536
    } else {
        v
    }
}

/// Parses a port number written in decimal.
pub fn parse_port(text: &str) -> (r: Option<u16>)
    ensures
        r == port_of(text.spec_bytes()),
{
    let b = text.as_bytes();
    let n = b.len();
    let start: usize = if n > 0 && b[0] == 0x2b {
        1
    } else {
        0
    };
    let ghost d = b@.subrange(start as int, n as int);
    assert(d =~= unsigned_digits(b@));
    if start == n {
        return None;
    }
    let mut acc: u32 = 0;
    let mut i: usize = start;
    while i < n
        invariant
            start <= i <= n == b@.len(),
            d == b@.subrange(start as int, n as int),
            d == unsigned_digits(text.spec_bytes()),
            forall|k: int| start <= k < i ==> is_digit(#[trigger] b@[k]),
            decimal_value(b@.subrange(start as int, i as int)) >= 0,
            acc == capped(decimal_value(b@.subrange(start as int, i as int))),
        decreases n - i,
    {
        let c = b[i];
        if c < 0x30 || c > 0x39 {
            assert(d[i - start] == c);
            assert(!is_digit(d[i - start]));
            return None;
        }
        let ghost prev = b@.subrange(start as int, i as int);
        let next = acc * 10 + (c - 0x30) as u32;
        acc = if next > 65535 {
            65536
        } else {
            next
        };
        i = i + 1;
        assert(b@.subrange(start as int, i as int).drop_last() =~= prev);
    }
    assert(b@.subrange(start as int, n as int) == d);
    if acc > 65535 {
        None
    } else {
        Some(acc as u16)
    }
}

/// An IP address as its bytes in network order.
#[derive(Debug, Clone, Copy, PartialEq, Eq)]
pub enum IpAddress {
    V4([u8; 4]),
    V6([u8; 16]),
}

/// Where the listener binds.
#[derive(Debug)]
pub struct Server {
    port: u16,
    ip: IpAddress,
}

impl Server {
    pub closed spec fn spec_port(&self) -> u16 {
        self.port
    }

    pub closed spec fn spec_ip(&self) -> IpAddress {
        self.ip
    }

    /// Checks the listen settings: `listen_addr` is the configured address
    /// text and `parsed_addr` what it reads as, if it is an IPv4 or IPv6
    /// address; `listen_port` is the configured port text. The address is
    /// checked first.
    pub fn new(listen_addr: &str, parsed_addr: Option<IpAddress>, listen_port: &str) -> (r: Result<
        Server,
        ServerError,
    >)
        ensures
            parsed_addr is None ==> (r matches Err(ServerError::InvalidIpAddress(s)) && s@
                == listen_addr@),
            parsed_addr is Some && port_of(listen_port.spec_bytes()) is None ==> (r matches Err(
                ServerError::InvalidPort(s),
            ) && s@ == listen_port@),
            parsed_addr is Some && port_of(listen_port.spec_bytes()) is Some ==> (r matches Ok(
                server,
            ) && server.spec_ip() == parsed_addr->0 && server.spec_port() == port_of(
                listen_port.spec_bytes(),
            )->0),
    {
        let ip = match parsed_addr {
            Some(ip) => ip,
            None => return Err(ServerError::InvalidIpAddress(listen_addr.to_owned())),
        };
        match parse_port(listen_port) {
            Some(port) => Ok(Server { port, ip }),
            None => Err(ServerError::InvalidPort(listen_port.to_owned())),
        }
    }

    pub fn port(&self) -> (r: u16)
        ensures
            r == self.spec_port(),
    {
        self.port
    }

    pub fn ip(&self) -> (r: IpAddress)
        ensures
            r == self.spec_ip(),
    {
        self.ip
    }
}

} // verus!
